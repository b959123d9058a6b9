//! Sorting a range of primitive indices by the centre of each primitive's
//! bounds along one axis.

use vstd::prelude::*;
use crate::bvh::AABB;
use crate::cube::Cube;
use crate::scalar::Scalar;

verus! {

/// The centre of the bounds of `cube` along `axis` (0 for x, 1 for y, else z).
pub open spec fn spec_axis_center(cube: Cube, axis: int) -> Scalar {
    let center = AABB::spec_from_cube(cube).spec_center();
    if axis == 0 {
        center.x
    } else if axis == 1 {
        center.y
    } else {
        center.z
    }
}

/// The sort key of the primitive with index `idx`.
pub open spec fn key_of(cubes: Seq<Cube>, idx: usize, axis: int) -> int {
    spec_axis_center(cubes[idx as int], axis).raw as int
}

/// Every index in `s` names a primitive.
pub open spec fn all_in_range(s: Seq<usize>, n: int) -> bool {
    forall|i: int| 0 <= i < s.len() ==> (#[trigger] s[i]) < n
}

/// The keys of `s` do not decrease from position `lo` up to `hi`.
pub open spec fn sorted_between(cubes: Seq<Cube>, s: Seq<usize>, lo: int, hi: int, axis: int)
    -> bool {
    forall|i: int, j: int|
        lo <= i <= j < hi ==> key_of(cubes, #[trigger] s[i], axis) <= key_of(
            cubes,
            #[trigger] s[j],
            axis,
        )
}

/// `a` and `b` have the same length and agree outside the positions from `lo`
/// up to `hi`.
pub open spec fn same_outside(a: Seq<usize>, b: Seq<usize>, lo: int, hi: int) -> bool {
    &&& a.len() == b.len()
    &&& forall|i: int| 0 <= i < a.len() && !(lo <= i < hi) ==> #[trigger] a[i] == b[i]
}

/// `b` holds between `lo` and `hi` the items that `a` holds there, each as
/// often, and agrees with `a` elsewhere.
pub open spec fn permuted_between(a: Seq<usize>, b: Seq<usize>, lo: int, hi: int) -> bool {
    &&& same_outside(a, b, lo, hi)
    &&& a.subrange(lo, hi).to_multiset() == b.subrange(lo, hi).to_multiset()
}

/// The test whether a primitive has the sort key `v`.
pub open spec fn key_is(cubes: Seq<Cube>, axis: int, v: int) -> spec_fn(usize) -> bool {
    |idx: usize| key_of(cubes, idx, axis) == v
}

/// The items of `s` that have the sort key `v`, in their order.
pub open spec fn with_key(cubes: Seq<Cube>, s: Seq<usize>, axis: int, v: int) -> Seq<usize> {
    s.filter(key_is(cubes, axis, v))
}

/// Between `lo` and `hi`, items with equal keys stand in `b` in the order in
/// which they stand in `a`.
pub open spec fn keeps_order_of_equals(
    cubes: Seq<Cube>,
    a: Seq<usize>,
    b: Seq<usize>,
    lo: int,
    hi: int,
    axis: int,
) -> bool {
    forall|v: int| #[trigger]
        with_key(cubes, a.subrange(lo, hi), axis, v) == with_key(cubes, b.subrange(lo, hi), axis, v)
}

/// `t` is `s` sorted by key, items with equal keys in the order in which
/// they stand in `s`.
pub open spec fn is_stable_sort_of(cubes: Seq<Cube>, t: Seq<usize>, s: Seq<usize>, axis: int)
    -> bool {
    &&& t.len() == s.len()
    &&& sorted_between(cubes, t, 0, t.len() as int, axis)
    &&& keeps_order_of_equals(cubes, s, t, 0, s.len() as int, axis)
}

/// `s` sorted by key, smallest first, items with equal keys in the order in
/// which they stand in `s`.
pub open spec fn stable_sorted(cubes: Seq<Cube>, s: Seq<usize>, axis: int) -> Seq<usize> {
    let t = choose|t: Seq<usize>| is_stable_sort_of(cubes, t, s, axis);
    if t.len() == s.len() {
        t
    } else {
        s
    }
}

/// A sequence whose last item has the key `v` has that item last among its
/// items with the key `v`, and the items with another key are those of the
/// sequence without its last item.
proof fn lemma_with_key_of_last(cubes: Seq<Cube>, a: Seq<usize>, axis: int, u: int)
    requires
        a.len() > 0,
    ensures
        key_of(cubes, a.last(), axis) == u ==> with_key(cubes, a, axis, u) == with_key(
            cubes,
            a.drop_last(),
            axis,
            u,
        ).push(a.last()),
        key_of(cubes, a.last(), axis) != u ==> with_key(cubes, a, axis, u) == with_key(
            cubes,
            a.drop_last(),
            axis,
            u,
        ),
{
    reveal(Seq::filter);
}

/// The last item of a sorted sequence has the largest key.
proof fn lemma_last_has_largest_key(cubes: Seq<Cube>, a: Seq<usize>, axis: int, x: usize)
    requires
        a.len() > 0,
        sorted_between(cubes, a, 0, a.len() as int, axis),
        a.contains(x),
    ensures
        key_of(cubes, x, axis) <= key_of(cubes, a.last(), axis),
{
    let i = choose|i: int| 0 <= i < a.len() && a[i] == x;
    assert(key_of(cubes, a[i], axis) <= key_of(cubes, a[a.len() - 1], axis));
}

/// A sequence that has items with the key `v` holds an item with the key
/// `v`.
proof fn lemma_key_occurs(cubes: Seq<Cube>, a: Seq<usize>, axis: int, v: int) -> (x: usize)
    requires
        with_key(cubes, a, axis, v).len() > 0,
    ensures
        a.contains(x),
        key_of(cubes, x, axis) == v,
{
    let f = with_key(cubes, a, axis, v);
    let x = f[0];
    assert(f.contains(x));
    a.lemma_filter_contains_rev(key_is(cubes, axis, v), x);
    a.lemma_filter_pred(key_is(cubes, axis, v), 0);
    x
}

/// There is one stable sort of a sequence: two sorted sequences that hold,
/// for each key, the same items in the same order are one sequence.
pub proof fn lemma_stable_sort_unique(cubes: Seq<Cube>, a: Seq<usize>, b: Seq<usize>, axis: int)
    requires
        a.len() == b.len(),
        sorted_between(cubes, a, 0, a.len() as int, axis),
        sorted_between(cubes, b, 0, b.len() as int, axis),
        forall|v: int| #[trigger] with_key(cubes, a, axis, v) == with_key(cubes, b, axis, v),
    ensures
        a == b,
    decreases a.len(),
{
    if a.len() == 0 {
        assert(a =~= b);
    } else {
        let x = a.last();
        let y = b.last();
        let v = key_of(cubes, x, axis);
        let w = key_of(cubes, y, axis);
        lemma_with_key_of_last(cubes, a, axis, v);
        lemma_with_key_of_last(cubes, b, axis, w);
        assert(with_key(cubes, a, axis, v) == with_key(cubes, b, axis, v));
        assert(with_key(cubes, a, axis, w) == with_key(cubes, b, axis, w));
        let in_b = lemma_key_occurs(cubes, b, axis, v);
        lemma_last_has_largest_key(cubes, b, axis, in_b);
        let in_a = lemma_key_occurs(cubes, a, axis, w);
        lemma_last_has_largest_key(cubes, a, axis, in_a);
        assert(v == w);
        lemma_with_key_of_last(cubes, b, axis, v);
        let fa = with_key(cubes, a.drop_last(), axis, v);
        let fb = with_key(cubes, b.drop_last(), axis, v);
        assert(fa.push(x) == fb.push(y));
        assert(x == y) by {
            assert(fa.push(x).last() == x);
            assert(fb.push(y).last() == y);
        }
        assert(fa == fb) by {
            assert(fa.push(x).drop_last() =~= fa);
            assert(fb.push(y).drop_last() =~= fb);
        }
        let a0 = a.drop_last();
        let b0 = b.drop_last();
        assert forall|u: int| #[trigger]
            with_key(cubes, a0, axis, u) == with_key(cubes, b0, axis, u) by {
            lemma_with_key_of_last(cubes, a, axis, u);
            lemma_with_key_of_last(cubes, b, axis, u);
            assert(with_key(cubes, a, axis, u) == with_key(cubes, b, axis, u));
        }
        assert(sorted_between(cubes, a0, 0, a0.len() as int, axis)) by {
            assert forall|i: int, j: int| 0 <= i <= j < a0.len() implies key_of(
                cubes,
                #[trigger] a0[i],
                axis,
            ) <= key_of(cubes, #[trigger] a0[j], axis) by {
                assert(a0[i] == a[i] && a0[j] == a[j]);
            }
        }
        assert(sorted_between(cubes, b0, 0, b0.len() as int, axis)) by {
            assert forall|i: int, j: int| 0 <= i <= j < b0.len() implies key_of(
                cubes,
                #[trigger] b0[i],
                axis,
            ) <= key_of(cubes, #[trigger] b0[j], axis) by {
                assert(b0[i] == b[i] && b0[j] == b[j]);
            }
        }
        lemma_stable_sort_unique(cubes, a0, b0, axis);
        assert(a =~= a0.push(x));
        assert(b =~= b0.push(y));
    }
}

/// A stable sort of `s` is the stable sort of `s`.
pub proof fn lemma_is_the_stable_sort(cubes: Seq<Cube>, t: Seq<usize>, s: Seq<usize>, axis: int)
    requires
        is_stable_sort_of(cubes, t, s, axis),
    ensures
        t == stable_sorted(cubes, s, axis),
{
    let chosen = choose|c: Seq<usize>| is_stable_sort_of(cubes, c, s, axis);
    assert(is_stable_sort_of(cubes, chosen, s, axis));
    assert(s.subrange(0, s.len() as int) =~= s);
    assert(t.subrange(0, s.len() as int) =~= t);
    assert(chosen.subrange(0, s.len() as int) =~= chosen);
    assert forall|v: int| #[trigger]
        with_key(cubes, t, axis, v) == with_key(cubes, chosen, axis, v) by {
        assert(with_key(cubes, s.subrange(0, s.len() as int), axis, v) == with_key(
            cubes,
            t.subrange(0, s.len() as int),
            axis,
            v,
        ));
        assert(with_key(cubes, s.subrange(0, s.len() as int), axis, v) == with_key(
            cubes,
            chosen.subrange(0, s.len() as int),
            axis,
            v,
        ));
    }
    lemma_stable_sort_unique(cubes, t, chosen, axis);
}

/// Exchanging two neighbours with different keys keeps the order of the items
/// that have equal keys.
pub proof fn lemma_swap_keeps_order(
    cubes: Seq<Cube>,
    s: Seq<usize>,
    lo: int,
    hi: int,
    j: int,
    axis: int,
)
    requires
        0 <= lo < j < hi <= s.len(),
        key_of(cubes, s[j - 1], axis) != key_of(cubes, s[j], axis),
    ensures
        keeps_order_of_equals(cubes, s, s.update(j - 1, s[j]).update(j, s[j - 1]), lo, hi, axis),
{
    let t = s.update(j - 1, s[j]).update(j, s[j - 1]);
    let a = s.subrange(lo, hi);
    let b = t.subrange(lo, hi);
    let p = j - 1 - lo;
    let pre = a.subrange(0, p);
    let post = a.subrange(p + 2, a.len() as int);
    let x = s[j - 1];
    let y = s[j];
    assert(a =~= pre + seq![x, y] + post);
    assert(b =~= pre + seq![y, x] + post);
    assert forall|v: int| #[trigger]
        with_key(cubes, a, axis, v) == with_key(cubes, b, axis, v) by {
        let pred = key_is(cubes, axis, v);
        Seq::filter_distributes_over_add(pre, seq![x, y], pred);
        Seq::filter_distributes_over_add(pre + seq![x, y], post, pred);
        Seq::filter_distributes_over_add(pre, seq![y, x], pred);
        Seq::filter_distributes_over_add(pre + seq![y, x], post, pred);
        assert(seq![x, y].filter(pred) == seq![y, x].filter(pred)) by {
            reveal_with_fuel(Seq::filter, 3);
            assert(seq![x, y].drop_last() =~= seq![x]);
            assert(seq![y, x].drop_last() =~= seq![y]);
            assert(seq![x].drop_last() =~= Seq::<usize>::empty());
            assert(seq![y].drop_last() =~= Seq::<usize>::empty());
            assert(!(pred(x) && pred(y)));
        }
    }
}

/// Exchanging two items of a range keeps what the range holds.
pub proof fn lemma_swap_permutes(s: Seq<usize>, lo: int, hi: int, i: int, j: int)
    requires
        0 <= lo <= i < hi <= s.len(),
        lo <= j < hi,
    ensures
        permuted_between(s, s.update(i, s[j]).update(j, s[i]), lo, hi),
{
    broadcast use vstd::seq_lib::group_to_multiset_ensures;
    broadcast use vstd::multiset::group_multiset_axioms;

    let t = s.update(i, s[j]).update(j, s[i]);
    let a = s.subrange(lo, hi);
    let b = t.subrange(lo, hi);
    assert(b =~= a.update(i - lo, a[j - lo]).update(j - lo, a[i - lo]));
    let mid = a.update(i - lo, a[j - lo]);
    vstd::seq_lib::to_multiset_update(a, i - lo, a[j - lo]);
    vstd::seq_lib::to_multiset_update(mid, j - lo, a[i - lo]);
    assert(a.to_multiset().count(a[i - lo]) > 0) by {
        assert(a.contains(a[i - lo]));
    }
    assert(a.to_multiset().count(a[j - lo]) > 0) by {
        assert(a.contains(a[j - lo]));
    }
    assert(b.to_multiset() =~= a.to_multiset());
}

/// Permuting a range twice is permuting it once.
pub proof fn lemma_permuted_transitive(
    a: Seq<usize>,
    b: Seq<usize>,
    c: Seq<usize>,
    lo: int,
    hi: int,
)
    requires
        permuted_between(a, b, lo, hi),
        permuted_between(b, c, lo, hi),
    ensures
        permuted_between(a, c, lo, hi),
{
}

/// A permutation of a part of a range is a permutation of the range.
pub proof fn lemma_permuted_widen(
    a: Seq<usize>,
    b: Seq<usize>,
    lo: int,
    hi: int,
    wide_lo: int,
    wide_hi: int,
)
    requires
        0 <= wide_lo <= lo <= hi <= wide_hi <= a.len(),
        permuted_between(a, b, lo, hi),
    ensures
        permuted_between(a, b, wide_lo, wide_hi),
{
    let a0 = a.subrange(wide_lo, lo);
    let a1 = a.subrange(lo, hi);
    let a2 = a.subrange(hi, wide_hi);
    let b0 = b.subrange(wide_lo, lo);
    let b1 = b.subrange(lo, hi);
    let b2 = b.subrange(hi, wide_hi);
    assert(a0 =~= b0);
    assert(a2 =~= b2);
    assert(a.subrange(wide_lo, wide_hi) =~= a0 + a1 + a2);
    assert(b.subrange(wide_lo, wide_hi) =~= b0 + b1 + b2);
    vstd::seq_lib::lemma_multiset_commutative(a0, a1);
    vstd::seq_lib::lemma_multiset_commutative(a0 + a1, a2);
    vstd::seq_lib::lemma_multiset_commutative(b0, b1);
    vstd::seq_lib::lemma_multiset_commutative(b0 + b1, b2);
}

/// What a permuted range holds, the range held before.
pub proof fn lemma_permuted_contains(a: Seq<usize>, b: Seq<usize>, lo: int, hi: int, k: int)
    requires
        0 <= lo <= k < hi <= a.len(),
        permuted_between(a, b, lo, hi),
    ensures
        exists|m: int| lo <= m < hi && a[m] == b[k],
{
    broadcast use vstd::seq_lib::group_to_multiset_ensures;

    let sa = a.subrange(lo, hi);
    let sb = b.subrange(lo, hi);
    assert(sb[k - lo] == b[k]);
    assert(sb.contains(b[k]));
    assert(sb.to_multiset().count(b[k]) > 0);
    assert(sa.to_multiset().count(b[k]) > 0);
    assert(sa.contains(b[k]));
    let m0 = choose|m0: int| 0 <= m0 < sa.len() && sa[m0] == b[k];
    assert(a[m0 + lo] == b[k]);
}

/// A permutation of valid indices holds valid indices.
pub proof fn lemma_permuted_in_range(a: Seq<usize>, b: Seq<usize>, lo: int, hi: int, n: int)
    requires
        0 <= lo <= hi <= a.len(),
        permuted_between(a, b, lo, hi),
        all_in_range(a, n),
    ensures
        all_in_range(b, n),
{
    assert forall|k: int| 0 <= k < b.len() implies (#[trigger] b[k]) < n by {
        if lo <= k < hi {
            lemma_permuted_contains(a, b, lo, hi, k);
            let m = choose|m: int| lo <= m < hi && a[m] == b[k];
            assert(a[m] < n);
        } else {
            assert(a[k] == b[k]);
        }
    }
}

/// The centre of the bounds of `cube` along `axis`.
pub fn axis_center(cube: &Cube, axis: u8) -> (c: Scalar)
    ensures
        c == spec_axis_center(*cube, axis as int),
{
    let center = AABB::from_cube(cube).center();
    if axis == 0 {
        center.x
    } else if axis == 1 {
        center.y
    } else {
        center.z
    }
}

/// Exchanges the items at positions `i` and `j`.
fn swap_items(indices: &mut Vec<usize>, i: usize, j: usize)
    requires
        i < old(indices).len(),
        j < old(indices).len(),
    ensures
        final(indices)@ == old(indices)@.update(i as int, old(indices)@[j as int]).update(
            j as int,
            old(indices)@[i as int],
        ),
{
    let a: usize = indices[i];
    let b: usize = indices[j];
    indices.set(i, b);
    indices.set(j, a);
}

/// Sorts the positions from `lo` up to `hi` by the centre of each primitive
/// along `axis`, smallest first. Items with equal centres keep their order.
pub fn sort_range(cubes: &Vec<Cube>, indices: &mut Vec<usize>, lo: usize, hi: usize, axis: u8)
    requires
        lo <= hi <= old(indices).len(),
        all_in_range(old(indices)@, cubes.len() as int),
    ensures
        permuted_between(old(indices)@, final(indices)@, lo as int, hi as int),
        sorted_between(cubes@, final(indices)@, lo as int, hi as int, axis as int),
        keeps_order_of_equals(
            cubes@,
            old(indices)@,
            final(indices)@,
            lo as int,
            hi as int,
            axis as int,
        ),
        final(indices)@.subrange(lo as int, hi as int) == stable_sorted(
            cubes@,
            old(indices)@.subrange(lo as int, hi as int),
            axis as int,
        ),
        all_in_range(final(indices)@, cubes.len() as int),
{
    sort_range_in_place(cubes, indices, lo, hi, axis);
    proof {
        let before = old(indices)@.subrange(lo as int, hi as int);
        let after = indices@.subrange(lo as int, hi as int);
        assert(before.subrange(0, before.len() as int) =~= before);
        assert(after.subrange(0, before.len() as int) =~= after);
        assert(sorted_between(cubes@, after, 0, after.len() as int, axis as int)) by {
            assert forall|i: int, j: int| 0 <= i <= j < after.len() implies key_of(
                cubes@,
                #[trigger] after[i],
                axis as int,
            ) <= key_of(cubes@, #[trigger] after[j], axis as int) by {
                assert(after[i] == indices@[lo + i] && after[j] == indices@[lo + j]);
            }
        }
        lemma_is_the_stable_sort(cubes@, after, before, axis as int);
    }
}

/// The insertion sort behind [`sort_range`].
fn sort_range_in_place(
    cubes: &Vec<Cube>,
    indices: &mut Vec<usize>,
    lo: usize,
    hi: usize,
    axis: u8,
)
    requires
        lo <= hi <= old(indices).len(),
        all_in_range(old(indices)@, cubes.len() as int),
    ensures
        permuted_between(old(indices)@, final(indices)@, lo as int, hi as int),
        sorted_between(cubes@, final(indices)@, lo as int, hi as int, axis as int),
        keeps_order_of_equals(
            cubes@,
            old(indices)@,
            final(indices)@,
            lo as int,
            hi as int,
            axis as int,
        ),
        all_in_range(final(indices)@, cubes.len() as int),
{
    if hi - lo < 2 {
        return ;
    }
    let ghost start = indices@;
    let mut i: usize = lo + 1;
    while i < hi
        invariant
            lo < i <= hi <= indices.len(),
            permuted_between(start, indices@, lo as int, hi as int),
            keeps_order_of_equals(cubes@, start, indices@, lo as int, hi as int, axis as int),
            all_in_range(indices@, cubes.len() as int),
            sorted_between(cubes@, indices@, lo as int, i as int, axis as int),
        decreases hi - i,
    {
        let mut j: usize = i;
        while j > lo
            invariant
                lo <= j <= i < hi <= indices.len(),
                permuted_between(start, indices@, lo as int, hi as int),
                keeps_order_of_equals(cubes@, start, indices@, lo as int, hi as int, axis as int),
                all_in_range(indices@, cubes.len() as int),
                sorted_between(cubes@, indices@, lo as int, j as int, axis as int),
                sorted_between(cubes@, indices@, j as int, i + 1, axis as int),
                forall|p: int, q: int|
                    lo <= p < j && j < q <= i ==> key_of(cubes@, #[trigger] indices@[p], axis as int)
                        <= key_of(cubes@, #[trigger] indices@[q], axis as int),
            ensures
                sorted_between(cubes@, indices@, lo as int, i + 1, axis as int),
            decreases j,
        {
            let before: Scalar = axis_center(&cubes[indices[j - 1]], axis);
            let here: Scalar = axis_center(&cubes[indices[j]], axis);
            if before.raw <= here.raw {
                break ;
            }
            let ghost prev = indices@;
            swap_items(indices, j - 1, j);
            proof {
                lemma_swap_permutes(prev, lo as int, hi as int, j - 1, j as int);
                lemma_swap_keeps_order(cubes@, prev, lo as int, hi as int, j as int, axis as int);
                lemma_permuted_transitive(start, prev, indices@, lo as int, hi as int);
                lemma_permuted_in_range(prev, indices@, lo as int, hi as int, cubes.len() as int);
            }
            j = j - 1;
        }
        i = i + 1;
    }
}

} // verus!
