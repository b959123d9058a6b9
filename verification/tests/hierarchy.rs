use raytracer::bvh::{split_axis, BVHNode, AABB};
use raytracer::cube::Cube;
use raytracer::material::Material;
use raytracer::ray_intersect::{Intersect, RayIntersect};
use raytracer::scalar::Scalar;
use raytracer::slab::inverse_direction;
use raytracer::sorting::{axis_center, sort_range};
use raytracer::vector::Vector3;

fn s(thousandths: i64) -> Scalar {
    Scalar::from_raw(thousandths * 1_000_000)
}

fn v(x: i64, y: i64, z: i64) -> Vector3 {
    Vector3::new(s(x), s(y), s(z))
}

fn tinted(shade: i64) -> Material {
    Material::new(
        v(shade, 300, 300),
        [s(900), s(100)],
        10,
        s(0),
        s(0),
        s(0),
        None,
        None,
        v(0, 0, 0),
        s(0),
    )
}

/// Six boxes that do not overlap, as in a small scene.
fn six_boxes() -> Vec<Cube> {
    vec![
        Cube::new(v(-2500, 0, 0), s(1500), tinted(100)),
        Cube::new(v(0, 0, -1000), s(1500), tinted(200)),
        Cube::new(v(2500, 0, 0), s(1500), tinted(300)),
        Cube::new(v(-1500, 0, 2000), s(1500), tinted(400)),
        Cube::new(v(1500, 0, 2000), s(1500), tinted(500)),
        Cube::new(v(0, 0, 3500), s(1000), tinted(600)),
    ]
}

/// A grid of boxes, none touching another.
fn grid(n: i64) -> Vec<Cube> {
    let mut cubes = Vec::new();
    for i in 0..n {
        for j in 0..n {
            for k in 0..2 {
                cubes.push(Cube::new_rect(
                    v(i * 2000 - 3000, k * 2500 - 1000, j * 2000 - 3000),
                    s(500 + 100 * ((i + j) % 5)),
                    s(700 + 50 * (i % 3)),
                    s(400 + 150 * (j % 4)),
                    tinted(10 * (i * n + j) + k),
                ));
            }
        }
    }
    cubes
}

fn leaves(node: &BVHNode, out: &mut Vec<usize>) {
    match node {
        BVHNode::Leaf { object_idx, .. } => out.push(*object_idx),
        BVHNode::Internal { left, right, .. } => {
            leaves(left, out);
            leaves(right, out);
        }
    }
}

fn height(node: &BVHNode) -> u32 {
    match node {
        BVHNode::Leaf { .. } => 0,
        BVHNode::Internal { left, right, .. } => 1 + height(left).max(height(right)),
    }
}

fn check_bounds(node: &BVHNode, cubes: &Vec<Cube>) {
    match node {
        BVHNode::Leaf { bounds, object_idx } => {
            assert_eq!(*bounds, AABB::from_cube(&cubes[*object_idx]));
        }
        BVHNode::Internal { bounds, left, right } => {
            assert_eq!(*bounds, left.bounds().merge(&right.bounds()));
            let mut l = Vec::new();
            let mut r = Vec::new();
            leaves(left, &mut l);
            leaves(right, &mut r);
            assert_eq!(l.len(), (l.len() + r.len()) / 2);
            let axis = split_axis(bounds);
            for a in &l {
                for b in &r {
                    assert!(axis_center(&cubes[*a], axis).le(axis_center(&cubes[*b], axis)));
                }
            }
            check_bounds(left, cubes);
            check_bounds(right, cubes);
        }
    }
}

fn brute_force(cubes: &Vec<Cube>, order: &Vec<usize>, origin: &Vector3, direction: &Vector3)
    -> Intersect {
    let mut best = Intersect::empty();
    for i in order {
        best = best.nearer(cubes[*i].ray_intersect(origin, direction));
    }
    best
}

fn rays() -> Vec<(Vector3, Vector3)> {
    let mut out = Vec::new();
    let origins = [v(0, 0, 9000), v(9000, 500, 0), v(-4000, 6000, 4000), v(100, -200, 300)];
    for origin in origins {
        for i in -6..=6 {
            for j in -6..=6 {
                let target = v(i * 700, j * 450, (i + j) * 300);
                let direction = target.sub(origin).normalized();
                out.push((origin, direction));
            }
        }
    }
    // rays along the axes and away from everything
    out.push((v(0, 0, 9000), v(0, 0, -1000)));
    out.push((v(0, 0, 9000), v(0, 0, 1000)));
    out.push((v(-9000, 0, 0), v(1000, 0, 0)));
    out.push((v(0, 9000, 2000), v(0, -1000, 0)));
    out
}

#[test]
fn single_primitive_gives_a_leaf() {
    let cubes = six_boxes();
    let mut indices = vec![4];
    match BVHNode::build(&cubes, &mut indices) {
        BVHNode::Leaf { bounds, object_idx } => {
            assert_eq!(object_idx, 4);
            assert_eq!(bounds, AABB::from_cube(&cubes[4]));
        }
        BVHNode::Internal { .. } => panic!("one primitive must give a leaf"),
    }
    assert_eq!(indices, vec![4]);
}

#[test]
fn two_primitives_are_split_along_the_longest_axis() {
    let cubes = six_boxes();
    // boxes 2 (at x = 2.5) and 0 (at x = -2.5): the bounds are longest along x
    let mut indices = vec![2, 0];
    let tree = BVHNode::build(&cubes, &mut indices);
    assert_eq!(indices, vec![0, 2]);
    match tree {
        BVHNode::Internal { bounds, left, right } => {
            assert_eq!(bounds.min, v(-3250, -750, -750));
            assert_eq!(bounds.max, v(3250, 750, 750));
            assert_eq!(split_axis(&bounds), 0);
            assert_eq!(left.bounds(), AABB::from_cube(&cubes[0]));
            assert_eq!(right.bounds(), AABB::from_cube(&cubes[2]));
        }
        BVHNode::Leaf { .. } => panic!("two primitives must give an inner node"),
    }
}

#[test]
fn split_axis_prefers_x_then_y_then_z() {
    let b = |x: i64, y: i64, z: i64| AABB { min: v(0, 0, 0), max: v(x, y, z) };
    assert_eq!(split_axis(&b(3000, 2000, 1000)), 0);
    assert_eq!(split_axis(&b(2000, 3000, 1000)), 1);
    assert_eq!(split_axis(&b(1000, 2000, 3000)), 2);
    // on a tie x does not win, and y wins only if longer than z
    assert_eq!(split_axis(&b(3000, 3000, 1000)), 1);
    assert_eq!(split_axis(&b(3000, 1000, 3000)), 2);
    assert_eq!(split_axis(&b(1000, 3000, 3000)), 2);
    assert_eq!(split_axis(&b(1000, 1000, 1000)), 2);
}

#[test]
fn build_keeps_the_primitives_and_orders_the_indices_as_the_leaves() {
    let cubes = six_boxes();
    let mut indices: Vec<usize> = (0..cubes.len()).collect();
    let tree = BVHNode::build(&cubes, &mut indices);
    let mut found = Vec::new();
    leaves(&tree, &mut found);
    assert_eq!(found, indices);
    let mut sorted = indices.clone();
    sorted.sort();
    assert_eq!(sorted, vec![0, 1, 2, 3, 4, 5]);
    check_bounds(&tree, &cubes);
}

#[test]
fn root_bounds_are_the_union_of_all_bounds() {
    let cubes = six_boxes();
    let mut indices: Vec<usize> = (0..cubes.len()).collect();
    let tree = BVHNode::build(&cubes, &mut indices);
    let b = tree.bounds();
    assert_eq!(b.min, v(-3250, -750, -1750));
    assert_eq!(b.max, v(3250, 750, 4000));
}

#[test]
fn tree_is_balanced() {
    let cubes = grid(4);
    for n in 1..=cubes.len() {
        let mut indices: Vec<usize> = (0..n).collect();
        let tree = BVHNode::build(&cubes, &mut indices);
        let mut h = 0;
        while (1usize << h) < n {
            h += 1;
        }
        assert_eq!(height(&tree), h, "{} primitives", n);
        check_bounds(&tree, &cubes);
    }
}

#[test]
fn build_does_not_depend_on_the_order_of_the_indices() {
    let cubes = grid(3);
    let n = cubes.len();
    let mut forward: Vec<usize> = (0..n).collect();
    let mut backward: Vec<usize> = (0..n).rev().collect();
    let mut shuffled: Vec<usize> = (0..n).map(|i| (i * 7 + 3) % n).collect();
    let a = BVHNode::build(&cubes, &mut forward);
    let b = BVHNode::build(&cubes, &mut backward);
    let c = BVHNode::build(&cubes, &mut shuffled);
    assert_eq!(a.bounds(), b.bounds());
    assert_eq!(a.bounds(), c.bounds());
    for order in [&mut forward, &mut backward, &mut shuffled] {
        order.sort();
        assert_eq!(*order, (0..n).collect::<Vec<usize>>());
    }
}

#[test]
fn building_twice_gives_the_same_tree() {
    let cubes = grid(3);
    let mut first: Vec<usize> = (0..cubes.len()).collect();
    let mut second: Vec<usize> = (0..cubes.len()).collect();
    let a = BVHNode::build(&cubes, &mut first);
    let b = BVHNode::build(&cubes, &mut second);
    assert_eq!(first, second);
    assert_eq!(format!("{:?}", a), format!("{:?}", b));
    // and building again from the order that the first build left
    let c = BVHNode::build(&cubes, &mut first);
    assert_eq!(first, second);
    assert_eq!(format!("{:?}", a), format!("{:?}", c));
}

#[test]
fn build_over_a_part_of_the_primitives() {
    let cubes = six_boxes();
    let mut indices = vec![5, 1, 3];
    let tree = BVHNode::build(&cubes, &mut indices);
    let mut found = Vec::new();
    leaves(&tree, &mut found);
    found.sort();
    assert_eq!(found, vec![1, 3, 5]);
    // a ray at box 0, which is not in the tree, finds nothing
    let origin = v(-2500, 0, 9000);
    let direction = v(0, 0, -1000);
    let inv = inverse_direction(&direction);
    assert!(cubes[0].ray_intersect(&origin, &direction).is_intersecting);
    assert_eq!(tree.intersect(&cubes, &origin, &direction, &inv), Intersect::empty());
}

#[test]
fn same_primitive_twice() {
    let cubes = six_boxes();
    let mut indices = vec![2, 2, 2];
    let tree = BVHNode::build(&cubes, &mut indices);
    assert_eq!(indices, vec![2, 2, 2]);
    assert_eq!(tree.bounds(), AABB::from_cube(&cubes[2]));
    assert_eq!(height(&tree), 2);
}

#[test]
fn nearest_hit_is_the_brute_force_nearest_hit() {
    for cubes in [six_boxes(), grid(3), grid(4)] {
        let mut indices: Vec<usize> = (0..cubes.len()).collect();
        let tree = BVHNode::build(&cubes, &mut indices);
        let mut hits = 0;
        for (origin, direction) in rays() {
            let inv = inverse_direction(&direction);
            let found = tree.intersect(&cubes, &origin, &direction, &inv);
            let expected = brute_force(&cubes, &indices, &origin, &direction);
            assert_eq!(found, expected);
            if found.is_intersecting {
                hits += 1;
                for cube in &cubes {
                    let other = cube.ray_intersect(&origin, &direction);
                    if other.is_intersecting {
                        assert!(found.distance.le(other.distance));
                    }
                }
            } else {
                for cube in &cubes {
                    assert!(!cube.ray_intersect(&origin, &direction).is_intersecting);
                }
            }
        }
        assert!(hits > 50);
    }
}

#[test]
fn nearest_of_two_boxes_in_line() {
    let cubes = six_boxes();
    let mut indices: Vec<usize> = (0..cubes.len()).collect();
    let tree = BVHNode::build(&cubes, &mut indices);
    // from the front, box 5 (z from 3 to 4) hides box 1 (z from -1.75 to -0.25)
    let direction = v(0, 0, -1000);
    let inv = inverse_direction(&direction);
    let hit = tree.intersect(&cubes, &v(0, 0, 9000), &direction, &inv);
    assert_eq!(hit.distance, s(5000));
    assert_eq!(hit.material, cubes[5].material);
    assert_eq!(hit.normal, v(0, 0, 1000));
    // from behind it is the other way round
    let direction = v(0, 0, 1000);
    let inv = inverse_direction(&direction);
    let hit = tree.intersect(&cubes, &v(0, 0, -9000), &direction, &inv);
    assert_eq!(hit.distance, s(7250));
    assert_eq!(hit.material, cubes[1].material);
    assert_eq!(hit.normal, v(0, 0, -1000));
}

#[test]
fn ray_past_everything_finds_nothing() {
    let cubes = six_boxes();
    let mut indices: Vec<usize> = (0..cubes.len()).collect();
    let tree = BVHNode::build(&cubes, &mut indices);
    for (origin, direction) in [
        (v(0, 5000, 9000), v(0, 0, -1000)),
        (v(0, 0, 9000), v(0, 0, 1000)),
        (v(0, 0, 9000), v(0, 1000, 0)),
    ] {
        let inv = inverse_direction(&direction);
        assert_eq!(tree.intersect(&cubes, &origin, &direction, &inv), Intersect::empty());
    }
}

#[test]
fn sorting_a_range_is_stable_and_leaves_the_rest() {
    let cubes = vec![
        Cube::new(v(3000, 0, 0), s(1000), tinted(0)),
        Cube::new(v(1000, 0, 0), s(1000), tinted(1)),
        Cube::new(v(2000, 0, 0), s(1000), tinted(2)),
        Cube::new(v(1000, 5000, 0), s(1000), tinted(3)),
        Cube::new(v(0, 0, 0), s(1000), tinted(4)),
        Cube::new(v(1000, -5000, 0), s(1000), tinted(5)),
    ];
    let mut indices = vec![0, 5, 3, 1, 2, 4, 0];
    sort_range(&cubes, &mut indices, 1, 6, 0);
    // 5, 3 and 1 all lie at x = 1 and keep their order
    assert_eq!(indices, vec![0, 4, 5, 3, 1, 2, 0]);
    sort_range(&cubes, &mut indices, 0, 7, 1);
    assert_eq!(indices, vec![5, 0, 4, 1, 2, 0, 3]);
    let before = indices.clone();
    sort_range(&cubes, &mut indices, 3, 3, 0);
    sort_range(&cubes, &mut indices, 3, 4, 0);
    assert_eq!(indices, before);
}

#[test]
fn centre_along_an_axis() {
    let cube = Cube::new_rect(v(1000, 2000, 3000), s(500), s(700), s(900), tinted(0));
    assert_eq!(axis_center(&cube, 0), s(1000));
    assert_eq!(axis_center(&cube, 1), s(2000));
    assert_eq!(axis_center(&cube, 2), s(3000));
    assert_eq!(axis_center(&cube, 7), s(3000));
}
