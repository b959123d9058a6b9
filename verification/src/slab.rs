//! The slab method: a ray meets an axis-aligned box where the three intervals
//! of the ray parameter, one per pair of parallel faces, overlap.
//!
//! The reciprocal of a direction component of zero is the largest scalar,
//! which stands for infinity here: a plane that such a ray runs along is
//! crossed at plus or minus infinity, according to the side it lies on. A
//! slab is closed: a ray that runs in one of its planes is inside it.

use vstd::prelude::*;
use crate::scalar::{Scalar, SCALE, trunc_div, raw_sub, lemma_mul_by_unit};
use crate::vector::Vector3;

verus! {

/// The ray parameter at which a ray with an infinite reciprocal crosses a
/// plane that lies `delta` above its origin: plus or minus infinity,
/// according to the side of the plane. The plane through the origin itself
/// counts as the plane of a closed slab: the lower one lies behind the ray,
/// the upper one ahead of it, for a positive reciprocal.
pub open spec fn spec_infinite_root(delta: Scalar, inv: Scalar, upper: bool) -> Scalar {
    let ahead = if delta.raw == 0 {
        upper
    } else {
        delta.raw > 0
    };
    if ahead == (inv.raw > 0) {
        Scalar { raw: i64::MAX }
    } else {
        Scalar { raw: i64::MIN }
    }
}

/// The ray parameter at which the ray crosses the plane at `bound`, the
/// lower or the upper plane of a slab: `(bound - origin) * inv`, where an
/// extreme `inv` counts as infinite.
pub open spec fn slab_root(bound: Scalar, origin: Scalar, inv: Scalar, upper: bool) -> Scalar {
    if inv.raw == i64::MAX || inv.raw == i64::MIN {
        spec_infinite_root(bound.spec_sub(origin), inv, upper)
    } else {
        bound.spec_sub(origin).spec_mul(inv)
    }
}

/// Where the ray enters the slab between `lo` and `hi`.
pub open spec fn slab_near(lo: Scalar, hi: Scalar, origin: Scalar, inv: Scalar) -> Scalar {
    slab_root(lo, origin, inv, false).spec_min(slab_root(hi, origin, inv, true))
}

/// Where the ray leaves the slab between `lo` and `hi`.
pub open spec fn slab_far(lo: Scalar, hi: Scalar, origin: Scalar, inv: Scalar) -> Scalar {
    slab_root(lo, origin, inv, false).spec_max(slab_root(hi, origin, inv, true))
}

/// The largest of the three entry parameters: where the ray is inside all
/// three slabs for the first time.
pub open spec fn entry_distance(min: Vector3, max: Vector3, origin: Vector3, inv: Vector3)
    -> Scalar {
    slab_near(min.x, max.x, origin.x, inv.x).spec_max(
        slab_near(min.y, max.y, origin.y, inv.y),
    ).spec_max(slab_near(min.z, max.z, origin.z, inv.z))
}

/// The smallest of the three exit parameters: where the ray leaves the first
/// slab.
pub open spec fn exit_distance(min: Vector3, max: Vector3, origin: Vector3, inv: Vector3)
    -> Scalar {
    slab_far(min.x, max.x, origin.x, inv.x).spec_min(
        slab_far(min.y, max.y, origin.y, inv.y),
    ).spec_min(slab_far(min.z, max.z, origin.z, inv.z))
}

/// The line through `origin` with inverse direction `inv` meets the box: the
/// three slab intervals have a point in common.
pub open spec fn slabs_overlap(min: Vector3, max: Vector3, origin: Vector3, inv: Vector3)
    -> bool {
    entry_distance(min, max, origin, inv).raw <= exit_distance(min, max, origin, inv).raw
}

/// The componentwise reciprocal of a direction.
pub open spec fn spec_inverse_direction(direction: Vector3) -> Vector3 {
    Vector3 {
        x: direction.x.spec_recip(),
        y: direction.y.spec_recip(),
        z: direction.z.spec_recip(),
    }
}

/// The componentwise reciprocal of a direction, computed once per ray. A zero
/// component gives the largest scalar.
pub fn inverse_direction(direction: &Vector3) -> (inv: Vector3)
    ensures
        inv == spec_inverse_direction(*direction),
{
    Vector3 { x: direction.x.recip(), y: direction.y.recip(), z: direction.z.recip() }
}

/// The ray parameter at which the ray crosses the plane at `bound`, the
/// lower or the upper plane of a slab.
pub fn slab_crossing(bound: Scalar, origin: Scalar, inv: Scalar, upper: bool) -> (t: Scalar)
    ensures
        t == slab_root(bound, origin, inv, upper),
{
    let delta: Scalar = bound.sub(origin);
    if inv.raw == i64::MAX || inv.raw == i64::MIN {
        let ahead: bool = if delta.raw == 0 {
            upper
        } else {
            delta.raw > 0
        };
        if ahead == (inv.raw > 0) {
            Scalar::from_raw(i64::MAX)
        } else {
            Scalar::from_raw(i64::MIN)
        }
    } else {
        delta.mul(inv)
    }
}

/// The interval of the ray parameter inside one slab.
pub fn slab_interval(lo: Scalar, hi: Scalar, origin: Scalar, inv: Scalar) -> (r: (Scalar, Scalar))
    ensures
        r.0 == slab_near(lo, hi, origin, inv),
        r.1 == slab_far(lo, hi, origin, inv),
        r.0.raw <= r.1.raw,
{
    let t0: Scalar = slab_crossing(lo, origin, inv, false);
    let t1: Scalar = slab_crossing(hi, origin, inv, true);
    if t0.raw > t1.raw {
        (t1, t0)
    } else {
        (t0, t1)
    }
}

/// Rounding a product toward zero keeps the order of its arguments.
pub proof fn lemma_trunc_div_monotonic(x: int, y: int, d: int)
    requires
        d > 0,
        x <= y,
    ensures
        trunc_div(x, d) <= trunc_div(y, d),
{
    if x >= 0 {
        vstd::arithmetic::div_mod::lemma_div_is_ordered(x, y, d);
    } else if y < 0 {
        vstd::arithmetic::div_mod::lemma_div_is_ordered(-y, -x, d);
    } else {
        vstd::arithmetic::div_mod::lemma_div_pos_is_pos(-x, d);
        vstd::arithmetic::div_mod::lemma_div_pos_is_pos(y, d);
    }
}

/// For a fixed inverse direction the root grows with the bound when the
/// inverse is not negative, and shrinks with it otherwise; and the root of
/// an upper plane is not before that of a lower plane at the same place.
pub proof fn lemma_slab_root_monotonic(
    a: Scalar,
    b: Scalar,
    origin: Scalar,
    inv: Scalar,
    a_upper: bool,
    b_upper: bool,
)
    requires
        a.raw <= b.raw,
        a_upper ==> b_upper,
    ensures
        inv.raw >= 0 ==> slab_root(a, origin, inv, a_upper).raw <= slab_root(
            b,
            origin,
            inv,
            b_upper,
        ).raw,
        inv.raw <= 0 ==> slab_root(a, origin, inv, a_upper).raw >= slab_root(
            b,
            origin,
            inv,
            b_upper,
        ).raw,
{
    let da = raw_sub(a.raw as int, origin.raw as int);
    let db = raw_sub(b.raw as int, origin.raw as int);
    let k = inv.raw as int;
    assert(da <= db);
    if inv.raw != i64::MAX && inv.raw != i64::MIN {
        if k >= 0 {
            assert(da * k <= db * k) by (nonlinear_arith)
                requires
                    da <= db,
                    k >= 0,
            ;
            lemma_trunc_div_monotonic(da * k, db * k, SCALE as int);
        }
        if k <= 0 {
            assert(da * k >= db * k) by (nonlinear_arith)
                requires
                    da <= db,
                    k <= 0,
            ;
            lemma_trunc_div_monotonic(db * k, da * k, SCALE as int);
        }
    }
}

/// The slab interval of a wider slab contains that of a narrower one.
pub proof fn lemma_slab_interval_grows(
    lo: Scalar,
    hi: Scalar,
    wide_lo: Scalar,
    wide_hi: Scalar,
    origin: Scalar,
    inv: Scalar,
)
    requires
        wide_lo.raw <= lo.raw <= hi.raw <= wide_hi.raw,
    ensures
        slab_near(wide_lo, wide_hi, origin, inv).raw <= slab_near(lo, hi, origin, inv).raw,
        slab_far(lo, hi, origin, inv).raw <= slab_far(wide_lo, wide_hi, origin, inv).raw,
{
    lemma_slab_root_monotonic(wide_lo, lo, origin, inv, false, false);
    lemma_slab_root_monotonic(lo, hi, origin, inv, false, true);
    lemma_slab_root_monotonic(hi, wide_hi, origin, inv, true, true);
    lemma_slab_root_monotonic(wide_lo, wide_hi, origin, inv, false, true);
}

/// A ray that runs along a slab, inside it or in one of its planes, is
/// inside it for every value of the ray parameter.
pub proof fn lemma_slab_along(lo: Scalar, hi: Scalar, origin: Scalar)
    requires
        lo.raw <= origin.raw <= hi.raw,
    ensures
        slab_near(lo, hi, origin, Scalar::spec_zero().spec_recip()).raw == i64::MIN,
        slab_far(lo, hi, origin, Scalar::spec_zero().spec_recip()).raw == i64::MAX,
{
}

/// A ray that runs across a slab in the positive direction at unit speed
/// enters it at `lo - origin` and leaves it at `hi - origin`.
pub proof fn lemma_slab_forward(lo: Scalar, hi: Scalar, origin: Scalar)
    requires
        lo.raw <= hi.raw,
    ensures
        slab_near(lo, hi, origin, Scalar::spec_one().spec_recip()) == lo.spec_sub(origin),
        slab_far(lo, hi, origin, Scalar::spec_one().spec_recip()) == hi.spec_sub(origin),
{
    let inv = Scalar::spec_one().spec_recip();
    assert(inv.raw == SCALE) by {
        lemma_mul_by_unit(SCALE as int);
    }
    lemma_mul_by_unit(lo.spec_sub(origin).raw as int);
    lemma_mul_by_unit(hi.spec_sub(origin).raw as int);
}

/// A ray that runs across a slab in the negative direction at unit speed
/// enters it at `origin - hi` and leaves it at `origin - lo`.
pub proof fn lemma_slab_backward(lo: Scalar, hi: Scalar, origin: Scalar)
    requires
        lo.raw <= hi.raw,
    ensures
        slab_near(lo, hi, origin, Scalar::spec_one().spec_neg().spec_recip()) == hi.spec_sub(
            origin,
        ).spec_neg(),
        slab_far(lo, hi, origin, Scalar::spec_one().spec_neg().spec_recip()) == lo.spec_sub(
            origin,
        ).spec_neg(),
{
    let inv = Scalar::spec_one().spec_neg().spec_recip();
    assert(inv.raw == -SCALE) by {
        assert(trunc_div(SCALE * SCALE, -(SCALE as int)) == -SCALE) by (nonlinear_arith)
            requires
                SCALE == 1_000_000_000,
        ;
    }
    lemma_mul_by_unit(lo.spec_sub(origin).raw as int);
    lemma_mul_by_unit(hi.spec_sub(origin).raw as int);
}

/// A ray that starts above a slab and runs upward, or starts below it and
/// runs downward, is never inside it at a positive parameter.
pub proof fn lemma_slab_behind(lo: Scalar, hi: Scalar, origin: Scalar, direction: Scalar)
    requires
        lo.raw <= hi.raw,
        (hi.raw < origin.raw && direction.raw > 0) || (origin.raw < lo.raw && direction.raw < 0),
    ensures
        slab_far(lo, hi, origin, direction.spec_recip()).raw <= 0,
{
    let inv = direction.spec_recip();
    let a = lo.spec_sub(origin).raw as int;
    let b = hi.spec_sub(origin).raw as int;
    let k = inv.raw as int;
    lemma_recip_sign(direction);
    lemma_trunc_div_sign(a * k, SCALE as int);
    lemma_trunc_div_sign(b * k, SCALE as int);
    assert(a * k <= 0 && b * k <= 0) by (nonlinear_arith)
        requires
            (a < 0 && b < 0 && k >= 0) || (a > 0 && b > 0 && k <= 0),
    ;
}

/// The reciprocal of a positive scalar is not negative, and that of a
/// negative one not positive.
pub proof fn lemma_recip_sign(direction: Scalar)
    requires
        direction.raw != 0,
    ensures
        direction.raw > 0 ==> 0 <= direction.spec_recip().raw < i64::MAX,
        direction.raw < 0 ==> i64::MIN < direction.spec_recip().raw <= 0,
{
    let d = direction.raw as int;
    assert(SCALE * SCALE == 1_000_000_000_000_000_000) by (nonlinear_arith)
        requires
            SCALE == 1_000_000_000,
    ;
    crate::scalar::lemma_trunc_div_bound(SCALE * SCALE, d);
    if d > 0 {
        vstd::arithmetic::div_mod::lemma_div_pos_is_pos(SCALE * SCALE, d);
    } else {
        assert((SCALE * SCALE) / d <= 0) by (nonlinear_arith)
            requires
                SCALE * SCALE > 0,
                d < 0,
        ;
    }
}

/// A quotient rounded toward zero has the sign of the dividend, or is zero.
pub proof fn lemma_trunc_div_sign(x: int, d: int)
    requires
        d > 0,
    ensures
        x >= 0 ==> trunc_div(x, d) >= 0,
        x <= 0 ==> trunc_div(x, d) <= 0,
{
    if x >= 0 {
        vstd::arithmetic::div_mod::lemma_div_pos_is_pos(x, d);
    } else {
        vstd::arithmetic::div_mod::lemma_div_pos_is_pos(-x, d);
    }
}

} // verus!
