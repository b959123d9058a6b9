//! The bounds of a set of primitives: the union of their boxes, and why it
//! does not depend on the order in which the boxes are merged.

use vstd::prelude::*;
use crate::bvh::AABB;
use crate::cube::Cube;

verus! {

/// The bounds of the primitive with index `idx`.
pub open spec fn box_of(cubes: Seq<Cube>, idx: usize) -> AABB {
    AABB::spec_from_cube(cubes[idx as int])
}

/// The bounds of the primitives that `s` names, merged one after the other
/// from the first on. `s` is not empty.
pub open spec fn union_bounds(cubes: Seq<Cube>, s: Seq<usize>) -> AABB
    decreases s.len(),
{
    if s.len() <= 1 {
        box_of(cubes, s[0])
    } else {
        union_bounds(cubes, s.drop_last()).spec_merge(box_of(cubes, s.last()))
    }
}

/// One of the six coordinates of a box, the upper ones negated, so that a box
/// that encloses another has the smaller value for every `k`.
pub open spec fn corner(b: AABB, k: int) -> int {
    if k == 0 {
        b.min.x.raw as int
    } else if k == 1 {
        b.min.y.raw as int
    } else if k == 2 {
        b.min.z.raw as int
    } else if k == 3 {
        -(b.max.x.raw as int)
    } else if k == 4 {
        -(b.max.y.raw as int)
    } else {
        -(b.max.z.raw as int)
    }
}

/// Coordinate `k` of `b` is at most that of every box that `s` names.
pub open spec fn below_all(b: AABB, cubes: Seq<Cube>, s: Seq<usize>, k: int) -> bool {
    forall|i: int| 0 <= i < s.len() ==> corner(b, k) <= corner(box_of(cubes, #[trigger] s[i]), k)
}

/// Coordinate `k` of `b` is that of some box that `s` names.
pub open spec fn attains(b: AABB, cubes: Seq<Cube>, s: Seq<usize>, k: int) -> bool {
    exists|i: int| 0 <= i < s.len() && corner(b, k) == corner(box_of(cubes, #[trigger] s[i]), k)
}

/// Coordinate `k` of `b` is the smallest that any box named by `s` has.
pub open spec fn hull_at(b: AABB, cubes: Seq<Cube>, s: Seq<usize>, k: int) -> bool {
    below_all(b, cubes, s, k) && attains(b, cubes, s, k)
}

/// `b` is the smallest box that encloses every box that `s` names.
pub open spec fn is_hull(b: AABB, cubes: Seq<Cube>, s: Seq<usize>) -> bool {
    forall|k: int| 0 <= k < 6 ==> #[trigger] hull_at(b, cubes, s, k)
}

/// `s` and `t` name the same primitives.
pub open spec fn same_members(s: Seq<usize>, t: Seq<usize>) -> bool {
    forall|x: usize| s.contains(x) <==> t.contains(x)
}

/// Two boxes with the same six coordinates are one box.
pub proof fn lemma_corners_determine(a: AABB, b: AABB)
    requires
        forall|k: int| 0 <= k < 6 ==> corner(a, k) == corner(b, k),
    ensures
        a == b,
{
    assert(corner(a, 0) == corner(b, 0));
    assert(corner(a, 1) == corner(b, 1));
    assert(corner(a, 2) == corner(b, 2));
    assert(corner(a, 3) == corner(b, 3));
    assert(corner(a, 4) == corner(b, 4));
    assert(corner(a, 5) == corner(b, 5));
}

/// Each coordinate of a merged box is the smaller of the two.
pub proof fn lemma_merge_corner(a: AABB, b: AABB, k: int)
    requires
        0 <= k < 6,
    ensures
        corner(a.spec_merge(b), k) == if corner(a, k) <= corner(b, k) {
            corner(a, k)
        } else {
            corner(b, k)
        },
{
}

/// A hull encloses each box it was made of.
pub proof fn lemma_hull_encloses(b: AABB, cubes: Seq<Cube>, s: Seq<usize>, i: int)
    requires
        is_hull(b, cubes, s),
        0 <= i < s.len(),
    ensures
        b.encloses(box_of(cubes, s[i])),
{
    assert(hull_at(b, cubes, s, 0));
    assert(hull_at(b, cubes, s, 1));
    assert(hull_at(b, cubes, s, 2));
    assert(hull_at(b, cubes, s, 3));
    assert(hull_at(b, cubes, s, 4));
    assert(hull_at(b, cubes, s, 5));
}

/// The merged bounds of a sequence are its hull.
pub proof fn lemma_union_is_hull(cubes: Seq<Cube>, s: Seq<usize>)
    requires
        s.len() >= 1,
    ensures
        is_hull(union_bounds(cubes, s), cubes, s),
    decreases s.len(),
{
    let u = union_bounds(cubes, s);
    if s.len() == 1 {
        assert forall|k: int| 0 <= k < 6 implies #[trigger] hull_at(u, cubes, s, k) by {
            assert(corner(u, k) == corner(box_of(cubes, s[0]), k));
        }
    } else {
        let front = s.drop_last();
        let v = union_bounds(cubes, front);
        let last = box_of(cubes, s.last());
        lemma_union_is_hull(cubes, front);
        assert forall|k: int| 0 <= k < 6 implies #[trigger] hull_at(u, cubes, s, k) by {
            lemma_merge_corner(v, last, k);
            assert(hull_at(v, cubes, front, k));
            assert forall|i: int| 0 <= i < s.len() implies corner(u, k) <= corner(
                box_of(cubes, #[trigger] s[i]),
                k,
            ) by {
                if i < front.len() {
                    assert(front[i] == s[i]);
                }
            }
            if corner(v, k) <= corner(last, k) {
                let i = choose|i: int|
                    0 <= i < front.len() && corner(v, k) == corner(
                        box_of(cubes, #[trigger] front[i]),
                        k,
                    );
                assert(front[i] == s[i]);
            } else {
                assert(s[s.len() - 1] == s.last());
            }
        }
    }
}

/// Sequences that name the same primitives have one hull.
pub proof fn lemma_hull_unique(a: AABB, b: AABB, cubes: Seq<Cube>, s: Seq<usize>, t: Seq<usize>)
    requires
        is_hull(a, cubes, s),
        is_hull(b, cubes, t),
        same_members(s, t),
    ensures
        a == b,
{
    assert forall|k: int| 0 <= k < 6 implies corner(a, k) == corner(b, k) by {
        assert(hull_at(a, cubes, s, k));
        assert(hull_at(b, cubes, t, k));
        let i = choose|i: int|
            0 <= i < s.len() && corner(a, k) == corner(box_of(cubes, #[trigger] s[i]), k);
        assert(s.contains(s[i]));
        assert(t.contains(s[i]));
        let i2 = choose|i2: int| 0 <= i2 < t.len() && t[i2] == s[i];
        assert(corner(b, k) <= corner(box_of(cubes, t[i2]), k));
        let j = choose|j: int|
            0 <= j < t.len() && corner(b, k) == corner(box_of(cubes, #[trigger] t[j]), k);
        assert(t.contains(t[j]));
        assert(s.contains(t[j]));
        let j2 = choose|j2: int| 0 <= j2 < s.len() && s[j2] == t[j];
        assert(corner(a, k) <= corner(box_of(cubes, s[j2]), k));
    }
    lemma_corners_determine(a, b);
}

/// Sequences that hold the same items hold the same members.
pub proof fn lemma_multiset_same_members(s: Seq<usize>, t: Seq<usize>)
    requires
        s.to_multiset() == t.to_multiset(),
    ensures
        same_members(s, t),
        s.len() == t.len(),
{
    broadcast use vstd::seq_lib::group_to_multiset_ensures;

    vstd::seq_lib::to_multiset_len(s);
    vstd::seq_lib::to_multiset_len(t);
    assert forall|x: usize| s.contains(x) <==> t.contains(x) by {
        assert(s.contains(x) <==> s.to_multiset().count(x) > 0);
        assert(t.contains(x) <==> t.to_multiset().count(x) > 0);
    }
}

/// The merged bounds do not depend on the order of the primitives.
pub proof fn lemma_union_order_independent(cubes: Seq<Cube>, s: Seq<usize>, t: Seq<usize>)
    requires
        s.len() >= 1,
        s.to_multiset() == t.to_multiset(),
    ensures
        union_bounds(cubes, s) == union_bounds(cubes, t),
{
    lemma_multiset_same_members(s, t);
    lemma_union_is_hull(cubes, s);
    lemma_union_is_hull(cubes, t);
    lemma_hull_unique(union_bounds(cubes, s), union_bounds(cubes, t), cubes, s, t);
}

/// The bounds of two sequences together are the merge of their bounds.
pub proof fn lemma_union_concat(cubes: Seq<Cube>, s: Seq<usize>, t: Seq<usize>)
    requires
        s.len() >= 1,
        t.len() >= 1,
    ensures
        union_bounds(cubes, s + t) == union_bounds(cubes, s).spec_merge(union_bounds(cubes, t)),
{
    let a = union_bounds(cubes, s);
    let b = union_bounds(cubes, t);
    let m = a.spec_merge(b);
    let st = s + t;
    lemma_union_is_hull(cubes, s);
    lemma_union_is_hull(cubes, t);
    lemma_union_is_hull(cubes, st);
    assert forall|k: int| 0 <= k < 6 implies #[trigger] hull_at(m, cubes, st, k) by {
        lemma_merge_corner(a, b, k);
        assert(hull_at(a, cubes, s, k));
        assert(hull_at(b, cubes, t, k));
        assert forall|i: int| 0 <= i < st.len() implies corner(m, k) <= corner(
            box_of(cubes, #[trigger] st[i]),
            k,
        ) by {
            if i < s.len() {
                assert(st[i] == s[i]);
            } else {
                assert(st[i] == t[i - s.len()]);
            }
        }
        if corner(a, k) <= corner(b, k) {
            let i = choose|i: int|
                0 <= i < s.len() && corner(a, k) == corner(box_of(cubes, #[trigger] s[i]), k);
            assert(st[i] == s[i]);
        } else {
            let i = choose|i: int|
                0 <= i < t.len() && corner(b, k) == corner(box_of(cubes, #[trigger] t[i]), k);
            assert(st[i + s.len()] == t[i]);
        }
    }
    assert(same_members(st, st));
    lemma_hull_unique(union_bounds(cubes, st), m, cubes, st, st);
}

} // verus!
