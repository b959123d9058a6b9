//! Axis-aligned bounding boxes and the bounding volume hierarchy built over
//! the boxes of a scene.

use vstd::prelude::*;
use crate::cube::Cube;
use crate::hull::{box_of, union_bounds, lemma_hull_encloses, lemma_union_concat,
    lemma_union_is_hull, lemma_union_order_independent};
use crate::ray_intersect::{Intersect, RayIntersect, misses_are_empty, nearest_of,
    lemma_nearest_concat, lemma_nearest_is_nearest, lemma_nearest_miss};
use crate::scalar::Scalar;
use crate::slab::{slab_interval, slabs_overlap, spec_inverse_direction,
    lemma_slab_interval_grows};
use crate::sorting::{all_in_range, key_of, permuted_between, sort_range, sorted_between,
    stable_sorted, lemma_permuted_contains, lemma_permuted_transitive, lemma_permuted_widen};
use crate::vector::Vector3;

verus! {

/// An axis-aligned bounding box, given by two opposite corners.
#[derive(Clone, Copy, Debug, PartialEq, Eq, Structural)]
pub struct AABB {
    pub min: Vector3,
    pub max: Vector3,
}

impl AABB {
    /// `min` is nowhere above `max`.
    pub open spec fn valid(&self) -> bool {
        &&& self.min.x.raw <= self.max.x.raw
        &&& self.min.y.raw <= self.max.y.raw
        &&& self.min.z.raw <= self.max.z.raw
    }

    /// Every point of `other` lies in this box.
    pub open spec fn encloses(&self, other: AABB) -> bool {
        &&& self.min.x.raw <= other.min.x.raw
        &&& self.min.y.raw <= other.min.y.raw
        &&& self.min.z.raw <= other.min.z.raw
        &&& other.max.x.raw <= self.max.x.raw
        &&& other.max.y.raw <= self.max.y.raw
        &&& other.max.z.raw <= self.max.z.raw
    }

    /// The bounds of a box primitive.
    pub open spec fn spec_from_cube(cube: Cube) -> AABB {
        AABB { min: cube.min_bounds, max: cube.max_bounds }
    }

    /// The smallest box that holds both: the componentwise minimum of the
    /// lower corners and maximum of the upper corners.
    pub open spec fn spec_merge(&self, other: AABB) -> AABB {
        AABB {
            min: Vector3 {
                x: self.min.x.spec_min(other.min.x),
                y: self.min.y.spec_min(other.min.y),
                z: self.min.z.spec_min(other.min.z),
            },
            max: Vector3 {
                x: self.max.x.spec_max(other.max.x),
                y: self.max.y.spec_max(other.max.y),
                z: self.max.z.spec_max(other.max.z),
            },
        }
    }

    /// The line through `origin` with inverse direction `inv_dir` meets the
    /// box.
    pub open spec fn spec_intersect(&self, origin: Vector3, inv_dir: Vector3) -> bool {
        slabs_overlap(self.min, self.max, origin, inv_dir)
    }

    /// The midpoint of the two corners.
    pub open spec fn spec_center(&self) -> Vector3 {
        let half = Scalar::spec_ratio(1, 2);
        Vector3 {
            x: self.min.x.spec_add(self.max.x).spec_mul(half),
            y: self.min.y.spec_add(self.max.y).spec_mul(half),
            z: self.min.z.spec_add(self.max.z).spec_mul(half),
        }
    }

    /// The bounds of a box primitive.
    pub fn from_cube(cube: &Cube) -> (bounds: AABB)
        ensures
            bounds == AABB::spec_from_cube(*cube),
    {
        AABB { min: cube.min_bounds, max: cube.max_bounds }
    }

    /// The union of two boxes.
    pub fn merge(&self, other: &AABB) -> (merged: AABB)
        ensures
            merged == self.spec_merge(*other),
            merged.encloses(*self),
            merged.encloses(*other),
            self.valid() || other.valid() ==> merged.valid(),
    {
        AABB {
            min: Vector3::new(
                self.min.x.min(other.min.x),
                self.min.y.min(other.min.y),
                self.min.z.min(other.min.z),
            ),
            max: Vector3::new(
                self.max.x.max(other.max.x),
                self.max.y.max(other.max.y),
                self.max.z.max(other.max.z),
            ),
        }
    }

    /// The slab test: whether the line through `ray_origin` whose direction
    /// has the componentwise reciprocal `inv_dir` meets the box. The sign of
    /// the ray parameter is not looked at.
    pub fn intersect(&self, ray_origin: &Vector3, inv_dir: &Vector3) -> (hit: bool)
        ensures
            hit == self.spec_intersect(*ray_origin, *inv_dir),
    {
        let (mut tmin, mut tmax) = slab_interval(self.min.x, self.max.x, ray_origin.x, inv_dir.x);
        let (tymin, tymax) = slab_interval(self.min.y, self.max.y, ray_origin.y, inv_dir.y);
        if tmin.raw > tymax.raw || tymin.raw > tmax.raw {
            return false;
        }
        if tymin.raw > tmin.raw {
            tmin = tymin;
        }
        if tymax.raw < tmax.raw {
            tmax = tymax;
        }
        let (tzmin, tzmax) = slab_interval(self.min.z, self.max.z, ray_origin.z, inv_dir.z);
        if tmin.raw > tzmax.raw || tzmin.raw > tmax.raw {
            return false;
        }
        true
    }

    /// The midpoint of the box.
    pub fn center(&self) -> (c: Vector3)
        ensures
            c == self.spec_center(),
    {
        let half: Scalar = Scalar::ratio(1, 2);
        Vector3::new(
            self.min.x.add(self.max.x).mul(half),
            self.min.y.add(self.max.y).mul(half),
            self.min.z.add(self.max.z).mul(half),
        )
    }
}

/// Merging is commutative.
pub proof fn lemma_merge_commutative(a: AABB, b: AABB)
    ensures
        a.spec_merge(b) == b.spec_merge(a),
{
}

/// Merging is associative.
pub proof fn lemma_merge_associative(a: AABB, b: AABB, c: AABB)
    ensures
        a.spec_merge(b).spec_merge(c) == a.spec_merge(b.spec_merge(c)),
{
}

/// The lower corner of a merged box is nowhere above the lower corner of
/// either box, and its upper corner nowhere below the upper corner of either.
pub proof fn lemma_merge_encloses(a: AABB, b: AABB)
    ensures
        a.spec_merge(b).encloses(a),
        a.spec_merge(b).encloses(b),
        a.spec_merge(b).min.x == a.min.x.spec_min(b.min.x),
        a.spec_merge(b).min.y == a.min.y.spec_min(b.min.y),
        a.spec_merge(b).min.z == a.min.z.spec_min(b.min.z),
        a.spec_merge(b).max.x == a.max.x.spec_max(b.max.x),
        a.spec_merge(b).max.y == a.max.y.spec_max(b.max.y),
        a.spec_merge(b).max.z == a.max.z.spec_max(b.max.z),
{
}

/// A line that meets a valid box meets every box that encloses it.
pub proof fn lemma_enclosing_box_is_met(inner: AABB, outer: AABB, origin: Vector3, inv: Vector3)
    requires
        inner.valid(),
        outer.encloses(inner),
        inner.spec_intersect(origin, inv),
    ensures
        outer.spec_intersect(origin, inv),
{
    lemma_slab_interval_grows(inner.min.x, inner.max.x, outer.min.x, outer.max.x, origin.x, inv.x);
    lemma_slab_interval_grows(inner.min.y, inner.max.y, outer.min.y, outer.max.y, origin.y, inv.y);
    lemma_slab_interval_grows(inner.min.z, inner.max.z, outer.min.z, outer.max.z, origin.z, inv.z);
}

/// Every primitive has a lower corner that is nowhere above its upper corner.
pub open spec fn all_valid(cubes: Seq<Cube>) -> bool {
    forall|i: int| 0 <= i < cubes.len() ==> (#[trigger] cubes[i]).valid()
}

/// The axis along which a box is longest: 0 for x if it is longer there than
/// along y and z, else 1 for y if it is longer there than along z, else 2.
pub open spec fn spec_split_axis(bounds: AABB) -> int {
    let extent = bounds.max.spec_sub(bounds.min);
    if extent.x.raw > extent.y.raw && extent.x.raw > extent.z.raw {
        0
    } else if extent.y.raw > extent.z.raw {
        1
    } else {
        2
    }
}

/// What the ray finds on each of the primitives that `s` names, in order.
pub open spec fn hits_of(cubes: Seq<Cube>, s: Seq<usize>, origin: Vector3, direction: Vector3)
    -> Seq<Intersect> {
    Seq::new(s.len(), |i: int| cubes[s[i] as int].spec_hit(origin, direction))
}

/// The nearest of the hits of the ray on the primitives that `s` names, found
/// by trying each in turn; of several at the nearest distance, the last.
pub open spec fn brute_force_nearest(
    cubes: Seq<Cube>,
    s: Seq<usize>,
    origin: Vector3,
    direction: Vector3,
) -> Intersect {
    nearest_of(hits_of(cubes, s, origin, direction))
}

/// The hierarchy over the primitives that `s` names, in this order, by
/// recursive median split: one primitive gives a leaf; more are sorted by
/// their centres along the longest axis of their bounds, equal centres in
/// the order given, and split in the middle, the smaller half to the left.
pub open spec fn spec_build(cubes: Seq<Cube>, s: Seq<usize>) -> BVHNode
    decreases s.len(),
{
    if s.len() <= 1 {
        BVHNode::Leaf { bounds: box_of(cubes, s[0]), object_idx: s[0] }
    } else {
        let bounds = union_bounds(cubes, s);
        let sorted = stable_sorted(cubes, s, spec_split_axis(bounds));
        let mid = s.len() as int / 2;
        BVHNode::Internal {
            bounds,
            left: Box::new(spec_build(cubes, sorted.subrange(0, mid))),
            right: Box::new(spec_build(cubes, sorted.subrange(mid, s.len() as int))),
        }
    }
}

/// The axis along which a box is longest.
pub fn split_axis(bounds: &AABB) -> (axis: u8)
    ensures
        axis as int == spec_split_axis(*bounds),
        axis < 3,
{
    let extent: Vector3 = bounds.max.sub(bounds.min);
    if extent.x.raw > extent.y.raw && extent.x.raw > extent.z.raw {
        0
    } else if extent.y.raw > extent.z.raw {
        1
    } else {
        2
    }
}

/// A bounding volume hierarchy: a binary tree with one leaf for each
/// primitive, in which each inner node holds the bounds of all that is
/// below it.
#[derive(Debug)]
pub enum BVHNode {
    Leaf { bounds: AABB, object_idx: usize },
    Internal { bounds: AABB, left: Box<BVHNode>, right: Box<BVHNode> },
}

impl BVHNode {
    /// The bounds held at the root of this tree.
    pub open spec fn spec_bounds(&self) -> AABB {
        match self {
            BVHNode::Leaf { bounds, .. } => *bounds,
            BVHNode::Internal { bounds, .. } => *bounds,
        }
    }

    /// The indices of the primitives at the leaves, from left to right.
    pub open spec fn leaves(&self) -> Seq<usize>
        decreases self,
    {
        match self {
            BVHNode::Leaf { object_idx, .. } => seq![*object_idx],
            BVHNode::Internal { left, right, .. } => left.leaves() + right.leaves(),
        }
    }

    /// The number of edges on the longest path from the root to a leaf.
    pub open spec fn height(&self) -> nat
        decreases self,
    {
        match self {
            BVHNode::Leaf { .. } => 0,
            BVHNode::Internal { left, right, .. } => {
                if left.height() >= right.height() {
                    left.height() + 1
                } else {
                    right.height() + 1
                }
            },
        }
    }

    /// Each leaf names a valid primitive and holds exactly its bounds; each
    /// inner node holds exactly the merge of the bounds of its two children.
    pub open spec fn well_formed(&self, cubes: Seq<Cube>) -> bool
        decreases self,
    {
        match self {
            BVHNode::Leaf { bounds, object_idx } => {
                &&& *object_idx < cubes.len()
                &&& cubes[*object_idx as int].valid()
                &&& *bounds == box_of(cubes, *object_idx)
            },
            BVHNode::Internal { bounds, left, right } => {
                &&& left.well_formed(cubes)
                &&& right.well_formed(cubes)
                &&& *bounds == left.spec_bounds().spec_merge(right.spec_bounds())
            },
        }
    }

    /// Each inner node splits its primitives at the median of their centres
    /// along the longest axis of its bounds: the left child has half of them,
    /// rounded down, and none of them lies beyond any of the right child's.
    pub open spec fn median_split(&self, cubes: Seq<Cube>) -> bool
        decreases self,
    {
        match self {
            BVHNode::Leaf { .. } => true,
            BVHNode::Internal { bounds, left, right } => {
                &&& left.median_split(cubes)
                &&& right.median_split(cubes)
                &&& left.leaves().len() == (left.leaves().len() + right.leaves().len()) / 2
                &&& forall|i: int, j: int|
                    0 <= i < left.leaves().len() && 0 <= j < right.leaves().len() ==> key_of(
                        cubes,
                        #[trigger] left.leaves()[i],
                        spec_split_axis(*bounds),
                    ) <= key_of(cubes, #[trigger] right.leaves()[j], spec_split_axis(*bounds))
            },
        }
    }

    /// The bounds at the root of this tree.
    pub fn bounds(&self) -> (b: AABB)
        ensures
            b == self.spec_bounds(),
    {
        match self {
            BVHNode::Leaf { bounds, .. } => *bounds,
            BVHNode::Internal { bounds, .. } => *bounds,
        }
    }

    /// Builds the hierarchy over the primitives that `indices` names, by
    /// recursive median split, and leaves `indices` in the order of the
    /// leaves.
    pub fn build(cubes: &Vec<Cube>, indices: &mut Vec<usize>) -> (node: BVHNode)
        requires
            old(indices).len() >= 1,
            all_in_range(old(indices)@, cubes.len() as int),
            all_valid(cubes@),
        ensures
            node == spec_build(cubes@, old(indices)@),
            final(indices)@ == node.leaves(),
            final(indices)@.to_multiset() == old(indices)@.to_multiset(),
            node.well_formed(cubes@),
            node.median_split(cubes@),
            node.spec_bounds() == union_bounds(cubes@, old(indices)@),
    {
        let n: usize = indices.len();
        let node = BVHNode::build_range(cubes, indices, 0, n);
        proof {
            assert(old(indices)@.subrange(0, n as int) =~= old(indices)@);
            assert(indices@.subrange(0, n as int) =~= indices@);
        }
        node
    }

    /// The merged bounds of the primitives at the positions from `lo` up to
    /// `hi`.
    fn range_bounds(cubes: &Vec<Cube>, indices: &Vec<usize>, lo: usize, hi: usize) -> (bounds:
        AABB)
        requires
            lo < hi <= indices.len(),
            all_in_range(indices@, cubes.len() as int),
        ensures
            bounds == union_bounds(cubes@, indices@.subrange(lo as int, hi as int)),
    {
        let mut bounds: AABB = AABB::from_cube(&cubes[indices[lo]]);
        let mut k: usize = lo + 1;
        while k < hi
            invariant
                lo < k <= hi <= indices.len(),
                all_in_range(indices@, cubes.len() as int),
                bounds == union_bounds(cubes@, indices@.subrange(lo as int, k as int)),
            decreases hi - k,
        {
            proof {
                assert(indices@.subrange(lo as int, k + 1).drop_last() =~= indices@.subrange(
                    lo as int,
                    k as int,
                ));
            }
            bounds = bounds.merge(&AABB::from_cube(&cubes[indices[k]]));
            k = k + 1;
        }
        bounds
    }

    /// Builds the hierarchy over the positions from `lo` up to `hi`.
    fn build_range(cubes: &Vec<Cube>, indices: &mut Vec<usize>, lo: usize, hi: usize) -> (node:
        BVHNode)
        requires
            lo < hi <= old(indices).len(),
            all_in_range(old(indices)@, cubes.len() as int),
            all_valid(cubes@),
        ensures
            node == spec_build(cubes@, old(indices)@.subrange(lo as int, hi as int)),
            permuted_between(old(indices)@, final(indices)@, lo as int, hi as int),
            all_in_range(final(indices)@, cubes.len() as int),
            node.leaves() == final(indices)@.subrange(lo as int, hi as int),
            node.well_formed(cubes@),
            node.median_split(cubes@),
            node.spec_bounds() == union_bounds(cubes@, old(indices)@.subrange(lo as int, hi as int)),
        decreases hi - lo,
    {
        let ghost start = indices@;
        if hi - lo == 1 {
            let idx: usize = indices[lo];
            proof {
                assert(indices@.subrange(lo as int, hi as int) =~= seq![idx]);
            }
            return BVHNode::Leaf { bounds: AABB::from_cube(&cubes[idx]), object_idx: idx };
        }
        let bounds: AABB = BVHNode::range_bounds(cubes, indices, lo, hi);
        let axis: u8 = split_axis(&bounds);
        sort_range(cubes, indices, lo, hi, axis);
        let ghost sorted = indices@;
        let mid: usize = lo + (hi - lo) / 2;
        let left = BVHNode::build_range(cubes, indices, lo, mid);
        let ghost after_left = indices@;
        let right = BVHNode::build_range(cubes, indices, mid, hi);
        proof {
            lemma_halves_make_the_range(
                cubes@,
                start,
                sorted,
                after_left,
                indices@,
                lo as int,
                mid as int,
                hi as int,
                axis as int,
            );
            lemma_union_concat(cubes@, left.leaves(), right.leaves());
            lemma_split_is_the_build(
                cubes@,
                start.subrange(lo as int, hi as int),
                sorted.subrange(lo as int, hi as int),
                bounds,
                left,
                right,
            );
        }
        BVHNode::Internal { bounds, left: Box::new(left), right: Box::new(right) }
    }

    /// The nearest hit of the ray on the primitives of this tree. A subtree
    /// whose bounds the ray misses is not descended; otherwise both children
    /// are asked and the nearer hit is kept, the right one on a tie.
    ///
    /// `inv_dir` is the componentwise reciprocal of `ray_direction`, computed
    /// once per ray.
    pub fn intersect(
        &self,
        cubes: &Vec<Cube>,
        ray_origin: &Vector3,
        ray_direction: &Vector3,
        inv_dir: &Vector3,
    ) -> (hit: Intersect)
        requires
            self.well_formed(cubes@),
            *inv_dir == spec_inverse_direction(*ray_direction),
        ensures
            hit == brute_force_nearest(cubes@, self.leaves(), *ray_origin, *ray_direction),
        decreases self,
    {
        match self {
            BVHNode::Leaf { bounds, object_idx } => {
                proof {
                    let hits = hits_of(cubes@, self.leaves(), *ray_origin, *ray_direction);
                    assert(hits.drop_last() =~= Seq::<Intersect>::empty());
                    assert(hits.last() == cubes@[*object_idx as int].spec_hit(
                        *ray_origin,
                        *ray_direction,
                    ));
                    reveal_with_fuel(nearest_of, 2);
                }
                if bounds.intersect(ray_origin, inv_dir) {
                    cubes[*object_idx].ray_intersect(ray_origin, ray_direction)
                } else {
                    Intersect::empty()
                }
            },
            BVHNode::Internal { bounds, left, right } => {
                if !bounds.intersect(ray_origin, inv_dir) {
                    proof {
                        lemma_pruned_subtree_misses(*self, cubes@, *ray_origin, *ray_direction);
                    }
                    return Intersect::empty();
                }
                let left_hit = left.intersect(cubes, ray_origin, ray_direction, inv_dir);
                let right_hit = right.intersect(cubes, ray_origin, ray_direction, inv_dir);
                proof {
                    lemma_brute_force_concat(
                        cubes@,
                        left.leaves(),
                        right.leaves(),
                        *ray_origin,
                        *ray_direction,
                    );
                }
                if left_hit.is_intersecting && right_hit.is_intersecting {
                    if left_hit.distance.raw < right_hit.distance.raw {
                        left_hit
                    } else {
                        right_hit
                    }
                } else if left_hit.is_intersecting {
                    left_hit
                } else {
                    right_hit
                }
            },
        }
    }
}

/// What building the two halves of a sorted range, one after the other,
/// leaves in the range: the items it held, those of the left half before or
/// level with those of the right half, and with the bounds it had.
pub proof fn lemma_halves_make_the_range(
    cubes: Seq<Cube>,
    start: Seq<usize>,
    sorted: Seq<usize>,
    after_left: Seq<usize>,
    done: Seq<usize>,
    lo: int,
    mid: int,
    hi: int,
    axis: int,
)
    requires
        0 <= lo < mid < hi <= start.len(),
        permuted_between(start, sorted, lo, hi),
        sorted_between(cubes, sorted, lo, hi, axis),
        permuted_between(sorted, after_left, lo, mid),
        permuted_between(after_left, done, mid, hi),
    ensures
        permuted_between(start, done, lo, hi),
        done.subrange(lo, hi) == done.subrange(lo, mid) + done.subrange(mid, hi),
        done.subrange(lo, mid) == after_left.subrange(lo, mid),
        after_left.subrange(mid, hi) == sorted.subrange(mid, hi),
        sorted.subrange(lo, hi).subrange(0, mid - lo) == sorted.subrange(lo, mid),
        sorted.subrange(lo, hi).subrange(mid - lo, hi - lo) == sorted.subrange(mid, hi),
        union_bounds(cubes, start.subrange(lo, hi)) == union_bounds(cubes, done.subrange(lo, hi)),
        union_bounds(cubes, sorted.subrange(lo, mid)) == union_bounds(
            cubes,
            done.subrange(lo, mid),
        ),
        union_bounds(cubes, after_left.subrange(mid, hi)) == union_bounds(
            cubes,
            done.subrange(mid, hi),
        ),
        forall|i: int, j: int|
            0 <= i < mid - lo && 0 <= j < hi - mid ==> key_of(
                cubes,
                #[trigger] done.subrange(lo, mid)[i],
                axis,
            ) <= key_of(cubes, #[trigger] done.subrange(mid, hi)[j], axis),
{
    lemma_permuted_widen(sorted, after_left, lo, mid, lo, hi);
    lemma_permuted_widen(after_left, done, mid, hi, lo, hi);
    lemma_permuted_transitive(start, sorted, after_left, lo, hi);
    lemma_permuted_transitive(start, after_left, done, lo, hi);
    assert(done.subrange(lo, mid) =~= after_left.subrange(lo, mid));
    assert(done.subrange(lo, hi) =~= done.subrange(lo, mid) + done.subrange(mid, hi));
    assert(after_left.subrange(mid, hi) =~= sorted.subrange(mid, hi));
    assert(sorted.subrange(lo, hi).subrange(0, mid - lo) =~= sorted.subrange(lo, mid));
    assert(sorted.subrange(lo, hi).subrange(mid - lo, hi - lo) =~= sorted.subrange(mid, hi));
    lemma_union_order_independent(cubes, start.subrange(lo, hi), done.subrange(lo, hi));
    lemma_union_order_independent(cubes, sorted.subrange(lo, mid), after_left.subrange(lo, mid));
    lemma_union_order_independent(cubes, after_left.subrange(mid, hi), done.subrange(mid, hi));
    assert forall|i: int, j: int| 0 <= i < mid - lo && 0 <= j < hi - mid implies key_of(
        cubes,
        #[trigger] done.subrange(lo, mid)[i],
        axis,
    ) <= key_of(cubes, #[trigger] done.subrange(mid, hi)[j], axis) by {
        lemma_permuted_contains(sorted, after_left, lo, mid, lo + i);
        lemma_permuted_contains(after_left, done, mid, hi, mid + j);
        let p = choose|p: int| lo <= p < mid && sorted[p] == after_left[lo + i];
        let q = choose|q: int| mid <= q < hi && after_left[q] == done[mid + j];
        assert(sorted[q] == after_left[q]);
        assert(done.subrange(lo, mid)[i] == sorted[p]);
        assert(done.subrange(mid, hi)[j] == sorted[q]);
    }
}

/// An inner node over the two halves of the sorted primitives is what the
/// build gives.
pub proof fn lemma_split_is_the_build(
    cubes: Seq<Cube>,
    s: Seq<usize>,
    sorted: Seq<usize>,
    bounds: AABB,
    left: BVHNode,
    right: BVHNode,
)
    requires
        s.len() >= 2,
        bounds == union_bounds(cubes, s),
        sorted == stable_sorted(cubes, s, spec_split_axis(bounds)),
        left == spec_build(cubes, sorted.subrange(0, s.len() as int / 2)),
        right == spec_build(cubes, sorted.subrange(s.len() as int / 2, s.len() as int)),
    ensures
        (BVHNode::Internal { bounds, left: Box::new(left), right: Box::new(right) }) == spec_build(
            cubes,
            s,
        ),
{
}

/// A tree has at least one leaf.
pub proof fn lemma_leaves_nonempty(node: BVHNode)
    ensures
        node.leaves().len() >= 1,
    decreases node,
{
    match node {
        BVHNode::Leaf { .. } => {},
        BVHNode::Internal { left, right, .. } => {
            lemma_leaves_nonempty(*left);
            lemma_leaves_nonempty(*right);
        },
    }
}

/// The bounds at the root of a well-formed tree are the union of the bounds
/// of its primitives, and each leaf names a valid primitive.
pub proof fn lemma_root_bounds(node: BVHNode, cubes: Seq<Cube>)
    requires
        node.well_formed(cubes),
    ensures
        node.spec_bounds() == union_bounds(cubes, node.leaves()),
        all_in_range(node.leaves(), cubes.len() as int),
        forall|i: int|
            0 <= i < node.leaves().len() ==> cubes[(#[trigger] node.leaves()[i]) as int].valid(),
    decreases node,
{
    match node {
        BVHNode::Leaf { .. } => {},
        BVHNode::Internal { left, right, .. } => {
            lemma_root_bounds(*left, cubes);
            lemma_root_bounds(*right, cubes);
            lemma_leaves_nonempty(*left);
            lemma_leaves_nonempty(*right);
            lemma_union_concat(cubes, left.leaves(), right.leaves());
        },
    }
}

/// A box that the ray misses gives the empty record.
pub proof fn lemma_cube_misses_are_empty(
    cubes: Seq<Cube>,
    s: Seq<usize>,
    origin: Vector3,
    direction: Vector3,
)
    ensures
        misses_are_empty(hits_of(cubes, s, origin, direction)),
{
}

/// Searching two sequences one after the other is searching each and keeping
/// the nearer hit.
pub proof fn lemma_brute_force_concat(
    cubes: Seq<Cube>,
    s: Seq<usize>,
    t: Seq<usize>,
    origin: Vector3,
    direction: Vector3,
)
    ensures
        brute_force_nearest(cubes, s + t, origin, direction) == brute_force_nearest(
            cubes,
            s,
            origin,
            direction,
        ).spec_nearer(brute_force_nearest(cubes, t, origin, direction)),
{
    let a = hits_of(cubes, s, origin, direction);
    let b = hits_of(cubes, t, origin, direction);
    assert(hits_of(cubes, s + t, origin, direction) =~= a + b);
    lemma_cube_misses_are_empty(cubes, s, origin, direction);
    lemma_nearest_concat(a, b);
}

/// What the search returns: a miss exactly if the ray misses every primitive
/// named; else the hit on one of them, and none of them is hit nearer.
pub proof fn lemma_brute_force_is_nearest(
    cubes: Seq<Cube>,
    s: Seq<usize>,
    origin: Vector3,
    direction: Vector3,
)
    ensures
        ({
            let found = brute_force_nearest(cubes, s, origin, direction);
            let hits = hits_of(cubes, s, origin, direction);
            &&& found.is_intersecting <==> exists|i: int|
                0 <= i < s.len() && (#[trigger] hits[i]).is_intersecting
            &&& !found.is_intersecting ==> found == Intersect::spec_empty()
            &&& found.is_intersecting ==> exists|i: int|
                0 <= i < s.len() && found == #[trigger] hits[i]
            &&& forall|i: int|
                0 <= i < s.len() && (#[trigger] hits[i]).is_intersecting ==> found.distance.raw
                    <= hits[i].distance.raw
        }),
{
    let hits = hits_of(cubes, s, origin, direction);
    lemma_cube_misses_are_empty(cubes, s, origin, direction);
    lemma_nearest_miss(hits);
    lemma_nearest_is_nearest(hits);
}

/// A ray that misses the bounds at the root of a well-formed tree misses
/// every primitive of the tree.
pub proof fn lemma_pruned_subtree_misses(
    node: BVHNode,
    cubes: Seq<Cube>,
    origin: Vector3,
    direction: Vector3,
)
    requires
        node.well_formed(cubes),
        !node.spec_bounds().spec_intersect(origin, spec_inverse_direction(direction)),
    ensures
        brute_force_nearest(cubes, node.leaves(), origin, direction) == Intersect::spec_empty(),
{
    let s = node.leaves();
    let inv = spec_inverse_direction(direction);
    lemma_root_bounds(node, cubes);
    lemma_leaves_nonempty(node);
    lemma_union_is_hull(cubes, s);
    lemma_brute_force_is_nearest(cubes, s, origin, direction);
    let hits = hits_of(cubes, s, origin, direction);
    assert forall|i: int| 0 <= i < s.len() implies !(#[trigger] hits[i]).is_intersecting by {
        let cube = cubes[s[i] as int];
        lemma_hull_encloses(node.spec_bounds(), cubes, s, i);
        if cube.spec_hit(origin, direction).is_intersecting {
            assert(box_of(cubes, s[i]).spec_intersect(origin, inv));
            lemma_enclosing_box_is_met(box_of(cubes, s[i]), node.spec_bounds(), origin, inv);
        }
    }
}

/// The number of times that `n` must be halved, rounding up, to reach one.
pub open spec fn ceil_log2(n: nat) -> nat
    decreases n,
{
    if n <= 1 {
        0
    } else {
        1 + ceil_log2((n - n / 2) as nat)
    }
}

/// More halvings are never needed for fewer items.
pub proof fn lemma_ceil_log2_monotonic(a: nat, b: nat)
    requires
        a <= b,
    ensures
        ceil_log2(a) <= ceil_log2(b),
    decreases b,
{
    if a > 1 {
        lemma_ceil_log2_monotonic((a - a / 2) as nat, (b - b / 2) as nat);
    }
}

/// `ceil_log2(n)` is the logarithm of `n` to base two, rounded up: the least
/// `h` with `n <= 2^h`.
pub proof fn lemma_ceil_log2_is_logarithm(n: nat)
    requires
        n >= 1,
    ensures
        n <= vstd::arithmetic::power2::pow2(ceil_log2(n)),
        n > 1 ==> vstd::arithmetic::power2::pow2((ceil_log2(n) - 1) as nat) < n,
    decreases n,
{
    vstd::arithmetic::power2::lemma2_to64();
    if n > 1 {
        let m = (n - n / 2) as nat;
        lemma_ceil_log2_is_logarithm(m);
        vstd::arithmetic::power2::lemma_pow2_unfold(ceil_log2(n));
        if m > 1 {
            vstd::arithmetic::power2::lemma_pow2_unfold(ceil_log2(m));
        }
    }
}

/// A tree built by median split is balanced: its height is the logarithm to
/// base two of the number of its leaves, rounded up.
pub proof fn lemma_median_split_height(node: BVHNode, cubes: Seq<Cube>)
    requires
        node.median_split(cubes),
    ensures
        node.height() == ceil_log2(node.leaves().len()),
    decreases node,
{
    match node {
        BVHNode::Leaf { .. } => {},
        BVHNode::Internal { left, right, .. } => {
            lemma_median_split_height(*left, cubes);
            lemma_median_split_height(*right, cubes);
            lemma_leaves_nonempty(*left);
            lemma_leaves_nonempty(*right);
            lemma_ceil_log2_monotonic(left.leaves().len(), right.leaves().len());
        },
    }
}

/// Two well-formed trees over the same primitives, in whatever order these
/// were given, have the same bounds at the root and the same set of leaves.
pub proof fn lemma_build_order_independent(first: BVHNode, second: BVHNode, cubes: Seq<Cube>)
    requires
        first.well_formed(cubes),
        second.well_formed(cubes),
        first.leaves().to_multiset() == second.leaves().to_multiset(),
    ensures
        first.spec_bounds() == second.spec_bounds(),
        first.leaves().to_set() == second.leaves().to_set(),
{
    lemma_root_bounds(first, cubes);
    lemma_root_bounds(second, cubes);
    lemma_leaves_nonempty(first);
    lemma_union_order_independent(cubes, first.leaves(), second.leaves());
    crate::hull::lemma_multiset_same_members(first.leaves(), second.leaves());
    assert(first.leaves().to_set() =~= second.leaves().to_set());
}

} // verus!
