use raytracer::bvh::AABB;
use raytracer::cube::{Cube, HIT_EPSILON};
use raytracer::material::Material;
use raytracer::ray_intersect::{Intersect, RayIntersect};
use raytracer::scalar::Scalar;
use raytracer::scene::SceneObject;
use raytracer::slab::inverse_direction;
use raytracer::vector::Vector3;

fn s(thousandths: i64) -> Scalar {
    Scalar::from_raw(thousandths * 1_000_000)
}

fn v(x: i64, y: i64, z: i64) -> Vector3 {
    Vector3::new(s(x), s(y), s(z))
}

fn plain() -> Material {
    Material::new(
        v(800, 300, 300),
        [s(900), s(100)],
        10,
        s(0),
        s(0),
        s(0),
        None,
        None,
        v(0, 0, 0),
        s(0),
    )
}

fn unit_cube() -> Cube {
    Cube::new(v(0, 0, 0), s(1500), plain())
}

fn aabb(min: Vector3, max: Vector3) -> AABB {
    AABB { min, max }
}

fn meets(b: &AABB, origin: Vector3, direction: Vector3) -> bool {
    b.intersect(&origin, &inverse_direction(&direction))
}

#[test]
fn cube_is_centred_on_its_centre() {
    let cube = Cube::new(v(1000, 2000, 3000), s(1500), plain());
    assert_eq!(cube.min_bounds, v(250, 1250, 2250));
    assert_eq!(cube.max_bounds, v(1750, 2750, 3750));
    assert_eq!(cube.center(), v(1000, 2000, 3000));
    assert_eq!(cube.material, plain());
}

#[test]
fn rectangular_box_has_its_own_extent_along_each_axis() {
    let cube = Cube::new_rect(v(0, 0, 0), s(2000), s(4000), s(1000), plain());
    assert_eq!(cube.min_bounds, v(-1000, -2000, -500));
    assert_eq!(cube.max_bounds, v(1000, 2000, 500));
}

#[test]
fn bounds_of_a_cube() {
    let cube = unit_cube();
    let b = AABB::from_cube(&cube);
    assert_eq!(b.min, v(-750, -750, -750));
    assert_eq!(b.max, v(750, 750, 750));
}

#[test]
fn merge_takes_the_outer_corners() {
    let a = aabb(v(-1000, 0, 2000), v(1000, 1000, 3000));
    let b = aabb(v(0, -5000, 2500), v(500, 4000, 9000));
    let m = a.merge(&b);
    assert_eq!(m.min, v(-1000, -5000, 2000));
    assert_eq!(m.max, v(1000, 4000, 9000));
}

#[test]
fn merge_is_commutative_and_associative() {
    let boxes = [
        aabb(v(-1000, 0, 2000), v(1000, 1000, 3000)),
        aabb(v(0, -5000, 2500), v(500, 4000, 9000)),
        aabb(v(-7000, -7000, -7000), v(-6000, -6000, -6000)),
        aabb(v(3000, 3000, 3000), v(3000, 3000, 3000)),
    ];
    for a in &boxes {
        for b in &boxes {
            assert_eq!(a.merge(b), b.merge(a));
            let m = a.merge(b);
            assert!(m.min.x.le(a.min.x) && m.min.x.le(b.min.x));
            assert!(m.min.y.le(a.min.y) && m.min.y.le(b.min.y));
            assert!(m.min.z.le(a.min.z) && m.min.z.le(b.min.z));
            assert!(a.max.x.le(m.max.x) && b.max.x.le(m.max.x));
            assert!(a.max.y.le(m.max.y) && b.max.y.le(m.max.y));
            assert!(a.max.z.le(m.max.z) && b.max.z.le(m.max.z));
            for c in &boxes {
                assert_eq!(a.merge(b).merge(c), a.merge(&b.merge(c)));
            }
        }
    }
}

#[test]
fn merge_with_itself_changes_nothing() {
    let a = aabb(v(-1000, 0, 2000), v(1000, 1000, 3000));
    assert_eq!(a.merge(&a), a);
}

#[test]
fn centre_of_bounds() {
    let b = aabb(v(-1000, -1000, -1000), v(1000, 3000, 5000));
    assert_eq!(b.center(), v(0, 1000, 2000));
}

#[test]
fn ray_through_the_centre_along_each_axis_meets_the_bounds() {
    let b = AABB::from_cube(&Cube::new(v(1000, 2000, 3000), s(1500), plain()));
    let c = v(1000, 2000, 3000);
    let axes = [v(1000, 0, 0), v(0, 1000, 0), v(0, 0, 1000)];
    for axis in axes {
        for toward in [axis, axis.neg()] {
            let origin = c.sub(toward.scale(s(5000)));
            assert!(meets(&b, origin, toward));
            // the bounds are tested against the whole line
            assert!(meets(&b, origin, toward.neg()));
        }
    }
}

#[test]
fn ray_beside_the_box_misses_the_bounds() {
    let b = AABB::from_cube(&unit_cube());
    assert!(!meets(&b, v(0, 2000, 5000), v(0, 0, -1000)));
    assert!(!meets(&b, v(2000, 0, 5000), v(0, 0, -1000)));
    assert!(!meets(&b, v(5000, 5000, 5000), v(-1000, 0, 0)));
    // a slanted ray that passes over the edge
    assert!(!meets(&b, v(0, 0, 5000), v(500, 0, -1000)));
    assert!(meets(&b, v(0, 0, 5000), v(100, 0, -1000)));
}

#[test]
fn ray_that_grazes_a_face_of_the_bounds() {
    let b = AABB::from_cube(&unit_cube());
    // the box is closed: a line in the plane of a face meets it
    assert!(meets(&b, v(0, 750, 5000), v(0, 0, -1000)));
    assert!(meets(&b, v(0, -750, 5000), v(0, 0, -1000)));
    assert!(meets(&b, v(750, 750, 5000), v(0, 0, -1000)));
    // a billionth farther out it does not
    let above = Vector3::new(Scalar::zero(), Scalar::from_raw(750_000_001), s(5000));
    let below = Vector3::new(Scalar::zero(), Scalar::from_raw(-750_000_001), s(5000));
    assert!(!meets(&b, above, v(0, 0, -1000)));
    assert!(!meets(&b, below, v(0, 0, -1000)));
}

#[test]
fn cube_hit_from_in_front() {
    let hit = unit_cube().ray_intersect(&v(0, 0, 5000), &v(0, 0, -1000));
    assert!(hit.is_intersecting);
    assert_eq!(hit.distance, s(4250));
    assert_eq!(hit.point, v(0, 0, 750));
    assert_eq!(hit.normal, v(0, 0, 1000));
    assert_eq!((hit.u, hit.v), (s(500), s(500)));
    assert_eq!(hit.material, plain());
}

#[test]
fn cube_hit_on_each_face() {
    let cube = unit_cube();
    let faces = [
        (v(1000, 0, 0), s(350), s(300)),
        (v(-1000, 0, 0), s(350), s(300)),
        (v(0, 1000, 0), s(300), s(350)),
        (v(0, -1000, 0), s(300), s(350)),
        (v(0, 0, 1000), s(300), s(300)),
        (v(0, 0, -1000), s(300), s(300)),
    ];
    for (normal, _, _) in faces {
        // start five units out along the normal, a little off the axis
        let origin = normal.scale(s(5000)).add(v(-300, 300, -225));
        let origin = Vector3::new(
            if normal.x.raw != 0 { normal.x.mul(s(5000)) } else { origin.x },
            if normal.y.raw != 0 { normal.y.mul(s(5000)) } else { origin.y },
            if normal.z.raw != 0 { normal.z.mul(s(5000)) } else { origin.z },
        );
        let hit = cube.ray_intersect(&origin, &normal.neg());
        assert!(hit.is_intersecting);
        assert_eq!(hit.distance, s(4250));
        assert_eq!(hit.normal, normal);
    }
}

#[test]
fn surface_coordinates_on_the_faces() {
    let cube = unit_cube();
    // +z face: u along x, v down along y
    let hit = cube.ray_intersect(&v(-300, 300, 5000), &v(0, 0, -1000));
    assert_eq!(hit.point, v(-300, 300, 750));
    assert_eq!((hit.u, hit.v), (s(300), s(300)));
    // +x face: u along z, v down along y
    let hit = cube.ray_intersect(&v(5000, 300, -225), &v(-1000, 0, 0));
    assert_eq!(hit.point, v(750, 300, -225));
    assert_eq!((hit.u, hit.v), (s(350), s(300)));
    // +y face: u along x, v along z
    let hit = cube.ray_intersect(&v(-300, 5000, -225), &v(0, -1000, 0));
    assert_eq!(hit.point, v(-300, 750, -225));
    assert_eq!((hit.u, hit.v), (s(300), s(350)));
}

#[test]
fn ray_from_inside_hits_the_far_face() {
    let hit = unit_cube().ray_intersect(&v(0, 0, 0), &v(0, 0, -1000));
    assert!(hit.is_intersecting);
    assert_eq!(hit.distance, s(750));
    assert_eq!(hit.point, v(0, 0, -750));
    assert_eq!(hit.normal, v(0, 0, -1000));
}

#[test]
fn ray_that_points_away_misses() {
    let cube = unit_cube();
    assert_eq!(cube.ray_intersect(&v(0, 0, 5000), &v(0, 0, 1000)), Intersect::empty());
    assert_eq!(cube.ray_intersect(&v(5000, 0, 0), &v(1000, 0, 0)), Intersect::empty());
    assert_eq!(cube.ray_intersect(&v(0, -5000, 0), &v(0, -1000, 0)), Intersect::empty());
    assert_eq!(cube.ray_intersect(&v(3000, 3000, 3000), &v(1000, 1000, 1000)), Intersect::empty());
}

#[test]
fn ray_beside_the_box_misses() {
    let cube = unit_cube();
    assert_eq!(cube.ray_intersect(&v(0, 2000, 5000), &v(0, 0, -1000)), Intersect::empty());
    assert_eq!(cube.ray_intersect(&v(0, 0, 5000), &v(500, 0, -1000)), Intersect::empty());
}

#[test]
fn ray_that_grazes_a_face_hits_the_face_in_front() {
    let cube = unit_cube();
    let toward = v(0, 0, -1000);
    // in the plane of the top face: the edge between the top and the front
    // is met, through the slab across z, so the front is struck
    let hit = cube.ray_intersect(&v(0, 750, 5000), &toward);
    assert!(hit.is_intersecting);
    assert_eq!(hit.distance, s(4250));
    assert_eq!(hit.point, v(0, 750, 750));
    assert_eq!(hit.normal, v(0, 0, 1000));
    assert_eq!((hit.u, hit.v), (s(500), s(0)));
    // the same in the planes of the other faces beside the ray
    let hit = cube.ray_intersect(&v(0, -750, 5000), &toward);
    assert_eq!((hit.distance, hit.normal), (s(4250), v(0, 0, 1000)));
    assert_eq!((hit.u, hit.v), (s(500), s(1000)));
    let hit = cube.ray_intersect(&v(750, 0, 5000), &toward);
    assert_eq!((hit.distance, hit.normal), (s(4250), v(0, 0, 1000)));
    assert_eq!((hit.u, hit.v), (s(1000), s(500)));
    let hit = cube.ray_intersect(&v(-750, 0, 5000), &toward);
    assert_eq!((hit.distance, hit.normal), (s(4250), v(0, 0, 1000)));
    assert_eq!((hit.u, hit.v), (s(0), s(500)));
    // along an edge of the box
    let hit = cube.ray_intersect(&v(750, 750, 5000), &toward);
    assert_eq!((hit.distance, hit.normal), (s(4250), v(0, 0, 1000)));
    // a billionth farther out the ray passes
    for beside in [750_000_001, -750_000_001] {
        let origin = Vector3::new(Scalar::zero(), Scalar::from_raw(beside), s(5000));
        assert_eq!(cube.ray_intersect(&origin, &toward), Intersect::empty());
        let origin = Vector3::new(Scalar::from_raw(beside), Scalar::zero(), s(5000));
        assert_eq!(cube.ray_intersect(&origin, &toward), Intersect::empty());
    }
}

#[test]
fn ray_into_a_corner_strikes_the_first_axis() {
    // from (5, 5, 5) toward the corner (0.75, 0.75, 0.75): the three slabs
    // are entered at once, and x comes first
    let hit = unit_cube().ray_intersect(&v(5000, 5000, 5000), &v(-1000, -1000, -1000));
    assert_eq!(hit.distance, s(4250));
    assert_eq!(hit.point, v(750, 750, 750));
    assert_eq!(hit.normal, v(1000, 0, 0));
}

#[test]
fn normal_is_that_of_the_face_even_where_the_point_is_rounded_off_it() {
    let m = plain();
    let cube = Cube { min_bounds: v(0, 0, 0), max_bounds: v(1000, 1000, 1000), material: m };
    let faces = [
        v(1000, 0, 0), v(-1000, 0, 0), v(0, 1000, 0), v(0, -1000, 0), v(0, 0, 1000), v(0, 0, -1000),
    ];
    // a direction a billion long: the distance is small and the product of
    // the two is rounded, so that the point lies half a unit before the box
    let origin = Vector3::new(
        Scalar::from_raw(-1_500_000_500_000_000),
        s(500),
        s(500),
    );
    let direction = Vector3::new(Scalar::from_raw(1_000_000_000_000_000_000), s(0), s(0));
    let hit = cube.ray_intersect(&origin, &direction);
    assert!(hit.is_intersecting);
    assert_eq!(hit.distance.raw, 1_500_000);
    assert_eq!(hit.point, v(-500, 500, 500));
    assert_eq!(hit.normal, v(-1000, 0, 0));
    // a unit direction from far away: the point is off the face by more than
    // a ten thousandth
    let origin = Vector3::new(
        Scalar::from_raw(-300_000_000_000_000),
        Scalar::from_raw(-399_999_499_840_000),
        s(500),
    );
    let hit = cube.ray_intersect(&origin, &v(600, 800, 0));
    assert!(hit.is_intersecting);
    assert_eq!(hit.distance.raw, 499_999_999_800_000);
    assert_eq!(hit.point.x.raw, -120_000);
    assert_eq!(hit.normal, v(-1000, 0, 0));
    // every hit of every ray has one of the six normals
    for i in -7..=7 {
        for j in -7..=7 {
            for k in [-3, 0, 2] {
                let origin = v(i * 300 + 500, j * 300 + 500, 4000 + k * 1000);
                let direction = v(500, 500, 500).sub(origin).add(v(i * 40, -j * 35, k * 10));
                for d in [direction, direction.neg(), direction.normalized()] {
                    let hit = cube.ray_intersect(&origin, &d);
                    if hit.is_intersecting {
                        assert!(faces.contains(&hit.normal), "{:?}", hit);
                    }
                }
            }
        }
    }
}

#[test]
fn ray_that_starts_on_a_face() {
    let cube = unit_cube();
    // outward: the distance would be zero, which is no hit
    assert_eq!(cube.ray_intersect(&v(0, 0, 750), &v(0, 0, 1000)), Intersect::empty());
    // inward: the face it starts on is skipped, the far face is hit
    let hit = cube.ray_intersect(&v(0, 0, 750), &v(0, 0, -1000));
    assert!(hit.is_intersecting);
    assert_eq!(hit.distance, s(1500));
    assert_eq!(hit.normal, v(0, 0, -1000));
}

#[test]
fn hits_nearer_than_the_threshold_do_not_count() {
    assert_eq!(HIT_EPSILON, 1_000_000);
    let cube = unit_cube();
    let direction = v(0, 0, -1000);
    // the far face lies exactly at the threshold
    let origin = Vector3::new(Scalar::zero(), Scalar::zero(), Scalar::from_raw(-749_000_000));
    let hit = cube.ray_intersect(&origin, &direction);
    assert!(hit.is_intersecting);
    assert_eq!(hit.distance.raw, HIT_EPSILON);
    // and a billionth nearer
    let origin = Vector3::new(Scalar::zero(), Scalar::zero(), Scalar::from_raw(-749_000_001));
    assert_eq!(cube.ray_intersect(&origin, &direction), Intersect::empty());
    // the near face a billionth beyond the threshold is hit
    let origin = Vector3::new(Scalar::zero(), Scalar::zero(), Scalar::from_raw(751_000_001));
    let hit = cube.ray_intersect(&origin, &direction);
    assert_eq!(hit.distance.raw, HIT_EPSILON + 1);
    assert_eq!(hit.normal, v(0, 0, 1000));
    // exactly at the threshold the near face is skipped
    let origin = Vector3::new(Scalar::zero(), Scalar::zero(), Scalar::from_raw(751_000_000));
    let hit = cube.ray_intersect(&origin, &direction);
    assert_eq!(hit.distance.raw, 1_501_000_000);
    assert_eq!(hit.normal, v(0, 0, -1000));
}

#[test]
fn slanted_ray() {
    // from (3, 0, 4) toward the origin: direction (-0.6, 0, -0.8)
    let cube = unit_cube();
    let hit = cube.ray_intersect(&v(3000, 0, 4000), &v(-600, 0, -800));
    assert!(hit.is_intersecting);
    // the z slab is entered at (0.75 - 4) / -0.8 = 4.0625, the x slab at
    // (0.75 - 3) / -0.6 = 3.75
    assert_eq!(hit.distance.raw, 4_062_500_000);
    assert_eq!(hit.normal, v(0, 0, 1000));
    assert_eq!(hit.point, Vector3::new(s(562).add(Scalar::from_raw(500_000)), s(0), s(750)));
}

#[test]
fn direction_of_zero() {
    let cube = unit_cube();
    let still = v(0, 0, 0);
    // every reciprocal is infinite and positive: a box below the origin
    // along some axis is left behind
    assert_eq!(cube.ray_intersect(&v(0, 0, 5000), &still), Intersect::empty());
    assert_eq!(cube.ray_intersect(&v(5000, 5000, 5000), &still), Intersect::empty());
    assert_eq!(cube.ray_intersect(&v(-5000, 0, 5000), &still), Intersect::empty());
    // else the box is met at infinity, at the origin itself: from inside it
    // is left across x, the first axis
    let hit = cube.ray_intersect(&v(100, 200, 300), &still);
    assert!(hit.is_intersecting);
    assert_eq!(hit.distance, Scalar::from_raw(i64::MAX));
    assert_eq!(hit.point, v(100, 200, 300));
    assert_eq!(hit.normal, v(1000, 0, 0));
    let hit = cube.ray_intersect(&v(0, 0, 750), &still);
    assert_eq!(hit.distance, Scalar::from_raw(i64::MAX));
    assert_eq!(hit.normal, v(1000, 0, 0));
    // and from below it is entered across x
    for origin in [v(-5000, 0, 0), v(-5000, -5000, -5000)] {
        let hit = cube.ray_intersect(&origin, &still);
        assert!(hit.is_intersecting);
        assert_eq!(hit.distance, Scalar::from_raw(i64::MAX));
        assert_eq!(hit.point, origin);
        assert_eq!(hit.normal, v(-1000, 0, 0));
    }
}

#[test]
fn empty_intersect_is_all_zero() {
    let e = Intersect::empty();
    assert!(!e.is_intersecting);
    assert_eq!(e.distance, Scalar::zero());
    assert_eq!(e.point, Vector3::zero());
    assert_eq!(e.normal, Vector3::zero());
    assert_eq!((e.u, e.v), (Scalar::zero(), Scalar::zero()));
    assert_eq!(e.material, Material::black());
}

#[test]
fn new_intersect_is_a_hit() {
    let hit = Intersect::new(plain(), s(2000), v(0, 1000, 0), v(1000, 2000, 3000), s(250), s(750));
    assert!(hit.is_intersecting);
    assert_eq!(hit.distance, s(2000));
    assert_eq!(hit.normal, v(0, 1000, 0));
    assert_eq!(hit.point, v(1000, 2000, 3000));
    assert_eq!((hit.u, hit.v), (s(250), s(750)));
    assert_eq!(hit.material, plain());
}

#[test]
fn nearer_of_two_results() {
    let near = Intersect::new(plain(), s(1000), v(0, 1000, 0), v(0, 0, 0), s(0), s(0));
    let far = Intersect::new(plain(), s(2000), v(1000, 0, 0), v(0, 0, 0), s(0), s(0));
    let tie = Intersect::new(plain(), s(1000), v(0, 0, 1000), v(0, 0, 0), s(0), s(0));
    let none = Intersect::empty();
    assert_eq!(near.nearer(far), near);
    assert_eq!(far.nearer(near), near);
    assert_eq!(near.nearer(none), near);
    assert_eq!(none.nearer(near), near);
    assert_eq!(none.nearer(none), none);
    // on a tie the second wins
    assert_eq!(near.nearer(tie), tie);
    assert_eq!(tie.nearer(near), near);
}

#[test]
fn scene_object_is_met_as_its_cube_is() {
    let cube = unit_cube();
    let object = SceneObject::Cube(cube);
    for (origin, direction) in [
        (v(0, 0, 5000), v(0, 0, -1000)),
        (v(0, 0, 5000), v(0, 0, 1000)),
        (v(3000, 0, 4000), v(-600, 0, -800)),
        (v(0, 2000, 5000), v(0, 0, -1000)),
    ] {
        assert_eq!(
            object.ray_intersect(&origin, &direction),
            cube.ray_intersect(&origin, &direction)
        );
    }
}

#[test]
fn point_of_a_hit_from_outside_lies_on_the_face_within_rounding() {
    let cube = Cube { min_bounds: v(0, 0, 0), max_bounds: v(1000, 1000, 1000), material: plain() };
    let billion: i128 = 1_000_000_000;
    // origin, unit direction, the axis of the face and whether it is the lower face
    let rays = [
        (v(500, 500, 5000), v(0, 0, -1000), 2, false),
        (v(-3000, 200, 300), v(1000, 0, 0), 0, true),
        (
            Vector3::new(Scalar::from_raw(-300_000_000_000_000), Scalar::from_raw(-399_999_499_840_000), s(500)),
            v(600, 800, 0),
            0,
            true,
        ),
        (v(4500, 3500, 500), v(-800, -600, 0), 0, false),
        (v(300, -7000, 900), Vector3::new(s(1), s(1000), Scalar::from_raw(-12_345)), 1, true),
        (
            Vector3::new(s(400), s(600), Scalar::from_raw(1_000_000_000_000_000_000)),
            v(0, 0, -1000),
            2,
            false,
        ),
    ];
    for (origin, direction, axis, lower) in rays {
        let hit = cube.ray_intersect(&origin, &direction);
        assert!(hit.is_intersecting, "{:?} {:?}", origin, direction);
        let along = |p: &Vector3| [p.x.raw, p.y.raw, p.z.raw][axis] as i128;
        let normal = along(&hit.normal);
        let face: i128 = if lower { 0 } else { 1_000_000_000 };
        let way = (face - along(&origin)).abs();
        let off = (face - along(&hit.point)).abs();
        assert_eq!(normal, if lower { -billion } else { billion });
        assert!(off * billion < way + 2 * billion, "{:?} {:?}", origin, direction);
        if lower {
            assert!(along(&hit.point) <= face);
        } else {
            assert!(along(&hit.point) >= face);
        }
    }
}
