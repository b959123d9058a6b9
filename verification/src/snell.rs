//! Mirror reflection and refraction by Snell's law.

use vstd::prelude::*;
use crate::cube::is_axis_normal;
use crate::scalar::{Scalar, SCALE, floor_sqrt, is_floor_sqrt, trunc_div, lemma_floor_sqrt_unique,
    lemma_mul_by_unit};
use crate::vector::Vector3;

verus! {

/// The mirror image of `incident` at a surface with the given normal:
/// `incident - normal * 2 * (incident . normal)`.
pub open spec fn spec_reflect(incident: Vector3, normal: Vector3) -> Vector3 {
    incident.spec_sub(
        normal.spec_scale(Scalar::spec_from_int(2)).spec_scale(incident.spec_dot(normal)),
    )
}

/// The cosine between `incident` and `normal`, clamped to the range from
/// minus one to one.
pub open spec fn spec_cos_incidence(incident: Vector3, normal: Vector3) -> Scalar {
    incident.spec_dot(normal).spec_max(Scalar::spec_one().spec_neg()).spec_min(Scalar::spec_one())
}

/// The ray leaves the medium: it runs along the normal, not against it.
pub open spec fn spec_is_exiting(incident: Vector3, normal: Vector3) -> bool {
    spec_cos_incidence(incident, normal).raw > 0
}

/// The ratio of the index of the medium the ray comes from to that of the
/// medium it goes to, the outside having index one.
pub open spec fn spec_eta(incident: Vector3, normal: Vector3, refractive_index: Scalar) -> Scalar {
    if spec_is_exiting(incident, normal) {
        refractive_index.spec_div(Scalar::spec_one())
    } else {
        Scalar::spec_one().spec_div(refractive_index)
    }
}

/// The cosine of the angle of incidence, made positive.
pub open spec fn spec_cos_positive(incident: Vector3, normal: Vector3) -> Scalar {
    if spec_is_exiting(incident, normal) {
        spec_cos_incidence(incident, normal)
    } else {
        spec_cos_incidence(incident, normal).spec_neg()
    }
}

/// `1 - eta^2 * (1 - cos^2)`: the squared cosine of the angle of refraction,
/// which is negative where there is no refracted ray.
pub open spec fn spec_refraction_term(
    incident: Vector3,
    normal: Vector3,
    refractive_index: Scalar,
) -> Scalar {
    let eta = spec_eta(incident, normal, refractive_index);
    let cosi = spec_cos_positive(incident, normal);
    Scalar::spec_one().spec_sub(
        eta.spec_mul(eta).spec_mul(Scalar::spec_one().spec_sub(cosi.spec_mul(cosi))),
    )
}

/// The ray is reflected totally: there is no refracted ray.
pub open spec fn spec_total_internal_reflection(
    incident: Vector3,
    normal: Vector3,
    refractive_index: Scalar,
) -> bool {
    spec_refraction_term(incident, normal, refractive_index).raw < 0
}

/// The direction of the refracted ray by Snell's law, the zero vector on
/// total internal reflection: `incident * eta + n * (eta * cos - sqrt(k))`,
/// where `n` is the normal turned against the ray.
pub open spec fn spec_refract(incident: Vector3, normal: Vector3, refractive_index: Scalar)
    -> Vector3 {
    let eta = spec_eta(incident, normal, refractive_index);
    let cosi = spec_cos_positive(incident, normal);
    let k = spec_refraction_term(incident, normal, refractive_index);
    let n = if spec_is_exiting(incident, normal) {
        normal.spec_neg()
    } else {
        normal
    };
    if k.raw < 0 {
        Vector3::spec_zero()
    } else {
        incident.spec_scale(eta).spec_add(n.spec_scale(eta.spec_mul(cosi).spec_sub(k.spec_sqrt())))
    }
}

/// The mirror image of `incident` at a surface with the given normal.
pub fn reflect(incident: &Vector3, normal: &Vector3) -> (r: Vector3)
    ensures
        r == spec_reflect(*incident, *normal),
{
    incident.sub(normal.scale(Scalar::from_int(2)).scale(incident.dot(*normal)))
}

/// The direction of the refracted ray where a ray with direction `incident`
/// meets a surface between the outside, of index one, and a medium of index
/// `refractive_index`; `None` on total internal reflection.
pub fn refracted_direction(incident: &Vector3, normal: &Vector3, refractive_index: Scalar) -> (r:
    Option<Vector3>)
    ensures
        r == if spec_total_internal_reflection(*incident, *normal, refractive_index) {
            None
        } else {
            Some(spec_refract(*incident, *normal, refractive_index))
        },
{
    let one: Scalar = Scalar::one();
    let mut cosi: Scalar = incident.dot(*normal).max(one.neg()).min(one);
    let mut etai: Scalar = one;
    let mut etat: Scalar = refractive_index;
    let mut n: Vector3 = *normal;
    if cosi.raw > 0 {
        etai = refractive_index;
        etat = one;
        n = n.neg();
    } else {
        cosi = cosi.neg();
    }
    let eta: Scalar = etai.div(etat);
    let k: Scalar = one.sub(eta.mul(eta).mul(one.sub(cosi.mul(cosi))));
    if k.raw < 0 {
        None
    } else {
        Some(incident.scale(eta).add(n.scale(eta.mul(cosi).sub(k.sqrt()))))
    }
}

/// The direction of the refracted ray, and the zero vector on total internal
/// reflection.
pub fn refract(incident: &Vector3, normal: &Vector3, refractive_index: Scalar) -> (r: Vector3)
    ensures
        r == spec_refract(*incident, *normal, refractive_index),
        spec_total_internal_reflection(*incident, *normal, refractive_index) ==> r
            == Vector3::spec_zero(),
{
    match refracted_direction(incident, normal, refractive_index) {
        Some(direction) => direction,
        None => Vector3::zero(),
    }
}

/// The components of `v` are small enough to be doubled.
pub open spec fn can_be_doubled(v: Vector3) -> bool {
    &&& -(i64::MAX / 2) <= v.x.raw <= i64::MAX / 2
    &&& -(i64::MAX / 2) <= v.y.raw <= i64::MAX / 2
    &&& -(i64::MAX / 2) <= v.z.raw <= i64::MAX / 2
}

/// One component of a reflection at a face of a box: `c - (2 * n) * d`, where
/// `n` is the component of the normal and `d` the cosine.
pub open spec fn reflect_component(c: Scalar, n: Scalar, d: Scalar) -> Scalar {
    c.spec_sub(n.spec_mul(Scalar::spec_from_int(2)).spec_mul(d))
}

/// Along the normal of a face, reflection negates; across it, it keeps.
proof fn lemma_reflect_component(c: Scalar, n: Scalar, d: Scalar)
    requires
        -(i64::MAX / 2) <= c.raw <= i64::MAX / 2,
    ensures
        n.raw == 0 ==> reflect_component(c, n, d) == c,
        n.raw == SCALE && d == c ==> reflect_component(c, n, d) == c.spec_neg(),
        n.raw == -SCALE && d == c.spec_neg() ==> reflect_component(c, n, d) == c.spec_neg(),
{
    lemma_mul_by_unit(d.raw as int);
    lemma_double(d.raw as int);
    if n.raw == 0 {
        assert(n.spec_mul(Scalar::spec_from_int(2)).raw == 0);
        assert(n.spec_mul(Scalar::spec_from_int(2)).spec_mul(d).raw == 0);
    } else if n.raw == SCALE && d == c {
        assert(n.spec_mul(Scalar::spec_from_int(2)).raw == 2 * SCALE);
        assert(n.spec_mul(Scalar::spec_from_int(2)).spec_mul(d).raw == 2 * c.raw);
    } else if n.raw == -SCALE && d == c.spec_neg() {
        assert(n.spec_mul(Scalar::spec_from_int(2)).raw == -2 * SCALE);
        assert(d.raw == -c.raw);
        assert(n.spec_mul(Scalar::spec_from_int(2)).spec_mul(d).raw == 2 * c.raw);
    }
}

/// The cosine between a vector and the normal of a face is the component of
/// the vector along that normal, or its negation.
proof fn lemma_dot_with_face_normal(v: Vector3, n: Vector3)
    requires
        is_axis_normal(n),
        can_be_doubled(v),
    ensures
        n.x.raw == SCALE ==> v.spec_dot(n) == v.x,
        n.x.raw == -SCALE ==> v.spec_dot(n) == v.x.spec_neg(),
        n.y.raw == SCALE ==> v.spec_dot(n) == v.y,
        n.y.raw == -SCALE ==> v.spec_dot(n) == v.y.spec_neg(),
        n.z.raw == SCALE ==> v.spec_dot(n) == v.z,
        n.z.raw == -SCALE ==> v.spec_dot(n) == v.z.spec_neg(),
{
    lemma_mul_by_unit(v.x.raw as int);
    lemma_mul_by_unit(v.y.raw as int);
    lemma_mul_by_unit(v.z.raw as int);
    assert(n.x.raw == 0 ==> v.x.spec_mul(n.x).raw == 0);
    assert(n.y.raw == 0 ==> v.y.spec_mul(n.y).raw == 0);
    assert(n.z.raw == 0 ==> v.z.spec_mul(n.z).raw == 0);
    assert(n.x.raw == SCALE ==> v.x.spec_mul(n.x).raw == v.x.raw);
    assert(n.y.raw == SCALE ==> v.y.spec_mul(n.y).raw == v.y.raw);
    assert(n.z.raw == SCALE ==> v.z.spec_mul(n.z).raw == v.z.raw);
    assert(n.x.raw == -SCALE ==> v.x.spec_mul(n.x).raw == -v.x.raw);
    assert(n.y.raw == -SCALE ==> v.y.spec_mul(n.y).raw == -v.y.raw);
    assert(n.z.raw == -SCALE ==> v.z.spec_mul(n.z).raw == -v.z.raw);
}

/// Reflection at a face of a box negates the component along the normal of
/// the face and keeps the other two.
pub proof fn lemma_reflect_at_face(v: Vector3, n: Vector3)
    requires
        is_axis_normal(n),
        can_be_doubled(v),
    ensures
        n.x.raw != 0 ==> spec_reflect(v, n) == (Vector3 { x: v.x.spec_neg(), y: v.y, z: v.z }),
        n.y.raw != 0 ==> spec_reflect(v, n) == (Vector3 { x: v.x, y: v.y.spec_neg(), z: v.z }),
        n.z.raw != 0 ==> spec_reflect(v, n) == (Vector3 { x: v.x, y: v.y, z: v.z.spec_neg() }),
        can_be_doubled(spec_reflect(v, n)),
{
    let d = v.spec_dot(n);
    lemma_dot_with_face_normal(v, n);
    lemma_reflect_component(v.x, n.x, d);
    lemma_reflect_component(v.y, n.y, d);
    lemma_reflect_component(v.z, n.z, d);
    assert(spec_reflect(v, n) == (Vector3 {
        x: reflect_component(v.x, n.x, d),
        y: reflect_component(v.y, n.y, d),
        z: reflect_component(v.z, n.z, d),
    }));
}

/// Multiplying by two or by minus two is exact.
proof fn lemma_double(a: int)
    ensures
        trunc_div((2 * SCALE) * a, SCALE as int) == 2 * a,
        trunc_div((-2 * SCALE) * a, SCALE as int) == -2 * a,
{
    assert((2 * SCALE) * a == (2 * a) * SCALE && (-2 * SCALE) * a == (-2 * a) * SCALE)
        by (nonlinear_arith);
    lemma_mul_by_unit(2 * a);
    lemma_mul_by_unit(-2 * a);
}

/// Reflecting twice at a face of a box gives the vector back, and a
/// reflection has the length of what was reflected.
pub proof fn lemma_reflect_involution(v: Vector3, n: Vector3)
    requires
        is_axis_normal(n),
        can_be_doubled(v),
    ensures
        spec_reflect(spec_reflect(v, n), n) == v,
        spec_reflect(v, n).norm_squared() == v.norm_squared(),
        spec_reflect(v, n).spec_length() == v.spec_length(),
{
    lemma_reflect_at_face(v, n);
    lemma_reflect_at_face(spec_reflect(v, n), n);
    let r = spec_reflect(v, n);
    assert(r.x.raw * r.x.raw == v.x.raw * v.x.raw) by (nonlinear_arith)
        requires
            r.x.raw == v.x.raw || r.x.raw == -v.x.raw,
    ;
    assert(r.y.raw * r.y.raw == v.y.raw * v.y.raw) by (nonlinear_arith)
        requires
            r.y.raw == v.y.raw || r.y.raw == -v.y.raw,
    ;
    assert(r.z.raw * r.z.raw == v.z.raw * v.z.raw) by (nonlinear_arith)
        requires
            r.z.raw == v.z.raw || r.z.raw == -v.z.raw,
    ;
}

/// A surface between two media of the same index does not bend a ray: with
/// a refractive index of one the refracted direction is the incident one,
/// wherever the square of the cosine of incidence needs no rounding.
pub proof fn lemma_no_bending(incident: Vector3, normal: Vector3)
    requires
        (spec_cos_positive(incident, normal).raw * spec_cos_positive(incident, normal).raw) % (
        SCALE as int) == 0,
    ensures
        spec_refract(incident, normal, Scalar::spec_one()) == incident,
        !spec_total_internal_reflection(incident, normal, Scalar::spec_one()),
{
    let one = Scalar::spec_one();
    let eta = spec_eta(incident, normal, one);
    let cosi = spec_cos_positive(incident, normal);
    let c = cosi.raw as int;
    let k = spec_refraction_term(incident, normal, one);
    lemma_mul_by_unit(SCALE as int);
    assert(eta == one);
    assert(0 <= c <= SCALE);
    assert(0 <= c * c <= SCALE * SCALE) by (nonlinear_arith)
        requires
            0 <= c <= SCALE,
    ;
    let c2 = cosi.spec_mul(cosi);
    assert(c2.raw == (c * c) / (SCALE as int));
    assert(c2.raw * SCALE == c * c) by {
        vstd::arithmetic::div_mod::lemma_fundamental_div_mod(c * c, SCALE as int);
    }
    assert(0 <= c2.raw <= SCALE);
    lemma_mul_by_unit(SCALE - c2.raw);
    assert(one.spec_mul(one) == one);
    assert(one.spec_mul(one.spec_sub(c2)) == one.spec_sub(c2));
    assert(k == c2);
    assert(k.spec_sqrt() == cosi) by {
        if c2.raw > 0 {
            assert(is_floor_sqrt(c * c, c)) by (nonlinear_arith)
                requires
                    0 <= c,
            ;
            let r = floor_sqrt(c * c);
            assert(is_floor_sqrt(c * c, r));
            lemma_floor_sqrt_unique(c * c, c, r);
        } else {
            assert(c == 0) by (nonlinear_arith)
                requires
                    c * c == 0,
            ;
        }
    }
    lemma_mul_by_unit(c);
    assert(eta.spec_mul(cosi) == cosi);
    let bend = eta.spec_mul(cosi).spec_sub(k.spec_sqrt());
    assert(bend.raw == 0);
    let n = if spec_is_exiting(incident, normal) {
        normal.spec_neg()
    } else {
        normal
    };
    lemma_mul_by_unit(n.x.raw as int);
    lemma_mul_by_unit(n.y.raw as int);
    lemma_mul_by_unit(n.z.raw as int);
    assert(n.spec_scale(bend) == Vector3::spec_zero());
    lemma_mul_by_unit(incident.x.raw as int);
    lemma_mul_by_unit(incident.y.raw as int);
    lemma_mul_by_unit(incident.z.raw as int);
    assert(incident.spec_scale(eta) == incident);
}

/// The components of `n` lie between minus one and one.
pub open spec fn within_unit(n: Vector3) -> bool {
    &&& -SCALE <= n.x.raw <= SCALE
    &&& -SCALE <= n.y.raw <= SCALE
    &&& -SCALE <= n.z.raw <= SCALE
}

/// The components of `v` lie between minus a billion and a billion, so that
/// no step of a reflection is clamped.
pub open spec fn within_reach(v: Vector3) -> bool {
    &&& -1_000_000_000_000_000_000 <= v.x.raw <= 1_000_000_000_000_000_000
    &&& -1_000_000_000_000_000_000 <= v.y.raw <= 1_000_000_000_000_000_000
    &&& -1_000_000_000_000_000_000 <= v.z.raw <= 1_000_000_000_000_000_000
}

/// The exact product of the raw components of two vectors, added up: the dot
/// product without rounding, in units of a billionth of a billionth.
pub open spec fn exact_dot(v: Vector3, n: Vector3) -> int {
    v.x.raw * n.x.raw + v.y.raw * n.y.raw + v.z.raw * n.z.raw
}

/// The component `c` of the exact reflection `v - 2 n (v . n)`, where `k` is
/// the component of the normal: in units of `1 / SCALE^3`.
pub open spec fn exact_reflection(c: Scalar, k: Scalar, v: Vector3, n: Vector3) -> int {
    c.raw * (SCALE * SCALE) - 2 * k.raw * exact_dot(v, n)
}

/// What rounding toward zero takes off a quotient is less than one.
pub proof fn lemma_trunc_div_error(x: int, d: int)
    requires
        d > 0,
    ensures
        -d < x - trunc_div(x, d) * d < d,
{
    if x >= 0 {
        vstd::arithmetic::div_mod::lemma_fundamental_div_mod(x, d);
        vstd::arithmetic::div_mod::lemma_mod_bound(x, d);
        assert(d * (x / d) == (x / d) * d) by (nonlinear_arith);
    } else {
        vstd::arithmetic::div_mod::lemma_fundamental_div_mod(-x, d);
        vstd::arithmetic::div_mod::lemma_mod_bound(-x, d);
        let q = (-x) / d;
        assert(d * q == q * d && (-q) * d == -(q * d)) by (nonlinear_arith);
    }
}

/// A product of a number within `bound` and a number within one, rounded, is
/// within `bound`.
proof fn lemma_product_within(a: int, b: int, bound: int)
    requires
        -bound <= a <= bound,
        -SCALE <= b <= SCALE,
    ensures
        -bound <= trunc_div(a * b, SCALE as int) <= bound,
        -(bound * SCALE) <= a * b <= bound * SCALE,
{
    assert(-(bound * SCALE) <= a * b <= bound * SCALE) by (nonlinear_arith)
        requires
            -bound <= a <= bound,
            -SCALE <= b <= SCALE,
    ;
    lemma_trunc_div_error(a * b, SCALE as int);
    let q = trunc_div(a * b, SCALE as int);
    if q > bound {
        assert(q * SCALE >= (bound + 1) * SCALE) by (nonlinear_arith)
            requires
                q >= bound + 1,
        ;
        assert((bound + 1) * SCALE == bound * SCALE + SCALE) by (nonlinear_arith);
    }
    if q < -bound {
        assert(q * SCALE <= (-bound - 1) * SCALE) by (nonlinear_arith)
            requires
                q <= -bound - 1,
        ;
        assert((-bound - 1) * SCALE == -(bound * SCALE) - SCALE) by (nonlinear_arith);
    }
}

/// The rounded dot product of a vector within reach and a vector within one
/// is not clamped, and differs from the exact one by less than three.
proof fn lemma_dot_is_accurate(v: Vector3, n: Vector3)
    requires
        within_unit(n),
        within_reach(v),
    ensures
        -3_000_000_000_000_000_000 <= v.spec_dot(n).raw <= 3_000_000_000_000_000_000,
        -3 * SCALE < exact_dot(v, n) - v.spec_dot(n).raw * SCALE < 3 * SCALE,
{
    let reach = 1_000_000_000_000_000_000int;
    lemma_product_within(v.x.raw as int, n.x.raw as int, reach);
    lemma_product_within(v.y.raw as int, n.y.raw as int, reach);
    lemma_product_within(v.z.raw as int, n.z.raw as int, reach);
    lemma_trunc_div_error(v.x.raw * n.x.raw, SCALE as int);
    lemma_trunc_div_error(v.y.raw * n.y.raw, SCALE as int);
    lemma_trunc_div_error(v.z.raw * n.z.raw, SCALE as int);
    let px = trunc_div(v.x.raw * n.x.raw, SCALE as int);
    let py = trunc_div(v.y.raw * n.y.raw, SCALE as int);
    let pz = trunc_div(v.z.raw * n.z.raw, SCALE as int);
    assert(v.x.spec_mul(n.x).raw == px);
    assert(v.y.spec_mul(n.y).raw == py);
    assert(v.z.spec_mul(n.z).raw == pz);
    assert(v.spec_dot(n).raw == px + py + pz);
    assert((px + py + pz) * SCALE == px * SCALE + py * SCALE + pz * SCALE) by (nonlinear_arith);
}

/// One component of a reflection differs from the exact one by less than
/// seven billionths.
proof fn lemma_reflect_component_is_accurate(c: Scalar, k: Scalar, v: Vector3, n: Vector3)
    requires
        within_unit(n),
        within_reach(v),
        -1_000_000_000_000_000_000 <= c.raw <= 1_000_000_000_000_000_000,
        -SCALE <= k.raw <= SCALE,
    ensures
        -7 * (SCALE * SCALE) < reflect_component(c, k, v.spec_dot(n)).raw * (SCALE * SCALE)
            - exact_reflection(c, k, v, n) < 7 * (SCALE * SCALE),
{
    let s = SCALE as int;
    let d = v.spec_dot(n).raw as int;
    let e = exact_dot(v, n);
    lemma_dot_is_accurate(v, n);
    lemma_double(k.raw as int);
    let m = 2 * k.raw;
    assert(k.spec_mul(Scalar::spec_from_int(2)).raw == m) by {
        assert(k.raw * (2 * s) == (2 * s) * k.raw) by (nonlinear_arith);
    }
    // the doubled component times the rounded dot product
    assert(-(6_000_000_000_000_000_000 * s) <= m * d <= 6_000_000_000_000_000_000 * s)
        by (nonlinear_arith)
        requires
            -2 * s <= m <= 2 * s,
            -3_000_000_000_000_000_000 <= d <= 3_000_000_000_000_000_000,
            s > 0,
    ;
    lemma_trunc_div_error(m * d, s);
    let t = trunc_div(m * d, s);
    assert(-6_000_000_000_000_000_001 <= t <= 6_000_000_000_000_000_001) by (nonlinear_arith)
        requires
            -(6_000_000_000_000_000_000 * s) <= m * d <= 6_000_000_000_000_000_000 * s,
            -s < m * d - t * s < s,
            s > 0,
    ;
    let r = reflect_component(c, k, v.spec_dot(n)).raw as int;
    assert(r == c.raw - t);
    // r s^2 - exact = s (m d - t s) + m (e - d s)
    let e2 = m * d - t * s;
    let e1 = e - d * s;
    assert(r * (s * s) - (c.raw * (s * s) - 2 * k.raw * e) == s * e2 + m * e1)
        by (nonlinear_arith)
        requires
            r == c.raw - t,
            e2 == m * d - t * s,
            e1 == e - d * s,
            m == 2 * k.raw,
    ;
    assert(-(s * s) < s * e2 < s * s) by (nonlinear_arith)
        requires
            -s < e2 < s,
            s > 0,
    ;
    assert(-6 * (s * s) < m * e1 < 6 * (s * s)) by (nonlinear_arith)
        requires
            -2 * s <= m <= 2 * s,
            -3 * s < e1 < 3 * s,
            s > 0,
    ;
}

/// A reflection is the exact reflection `v - 2 n (v . n)` but for rounding:
/// at a normal whose components lie within one, each component of the
/// reflection of a vector within reach differs from that of the exact
/// reflection by less than seven billionths.
pub proof fn lemma_reflect_is_accurate(v: Vector3, n: Vector3)
    requires
        within_unit(n),
        within_reach(v),
    ensures
        ({
            let r = spec_reflect(v, n);
            let bound = 7 * (SCALE * SCALE);
            &&& -bound < r.x.raw * (SCALE * SCALE) - exact_reflection(v.x, n.x, v, n) < bound
            &&& -bound < r.y.raw * (SCALE * SCALE) - exact_reflection(v.y, n.y, v, n) < bound
            &&& -bound < r.z.raw * (SCALE * SCALE) - exact_reflection(v.z, n.z, v, n) < bound
        }),
{
    let d = v.spec_dot(n);
    lemma_reflect_component_is_accurate(v.x, n.x, v, n);
    lemma_reflect_component_is_accurate(v.y, n.y, v, n);
    lemma_reflect_component_is_accurate(v.z, n.z, v, n);
    assert(spec_reflect(v, n) == (Vector3 {
        x: reflect_component(v.x, n.x, d),
        y: reflect_component(v.y, n.y, d),
        z: reflect_component(v.z, n.z, d),
    }));
}

/// The components of `v` lie between minus a hundred million and a hundred
/// million, so that its reflection is within reach.
pub open spec fn within_close_reach(v: Vector3) -> bool {
    &&& -100_000_000_000_000_000 <= v.x.raw <= 100_000_000_000_000_000
    &&& -100_000_000_000_000_000 <= v.y.raw <= 100_000_000_000_000_000
    &&& -100_000_000_000_000_000 <= v.z.raw <= 100_000_000_000_000_000
}

/// `n` has the length one exactly: the squares of its raw components add up
/// to the square of [`SCALE`].
pub open spec fn is_exact_unit(n: Vector3) -> bool {
    exact_dot(n, n) == SCALE * SCALE
}

/// The reflection of a vector within close reach is within reach.
proof fn lemma_reflection_within_reach(c: Scalar, k: Scalar, v: Vector3, n: Vector3)
    requires
        within_unit(n),
        within_close_reach(v),
        -100_000_000_000_000_000 <= c.raw <= 100_000_000_000_000_000,
        -SCALE <= k.raw <= SCALE,
    ensures
        -1_000_000_000_000_000_000 <= reflect_component(c, k, v.spec_dot(n)).raw
            <= 1_000_000_000_000_000_000,
{
    let s = SCALE as int;
    let close = 100_000_000_000_000_000int;
    lemma_reflect_component_is_accurate(c, k, v, n);
    lemma_product_within(v.x.raw as int, n.x.raw as int, close);
    lemma_product_within(v.y.raw as int, n.y.raw as int, close);
    lemma_product_within(v.z.raw as int, n.z.raw as int, close);
    let e = exact_dot(v, n);
    assert(-(3 * close * s) <= e <= 3 * close * s);
    assert(-(6 * close * (s * s)) <= 2 * k.raw * e <= 6 * close * (s * s)) by (nonlinear_arith)
        requires
            -s <= k.raw <= s,
            -(3 * close * s) <= e <= 3 * close * s,
            s > 0,
            close > 0,
    ;
    assert(-(close * (s * s)) <= c.raw * (s * s) <= close * (s * s)) by (nonlinear_arith)
        requires
            -close <= c.raw <= close,
            s > 0,
    ;
    let r = reflect_component(c, k, v.spec_dot(n)).raw as int;
    assert(-(7 * close + 7) * (s * s) < r * (s * s) < (7 * close + 7) * (s * s))
        by (nonlinear_arith)
        requires
            -7 * (s * s) < r * (s * s) - (c.raw * (s * s) - 2 * k.raw * e) < 7 * (s * s),
            -(6 * close * (s * s)) <= 2 * k.raw * e <= 6 * close * (s * s),
            -(close * (s * s)) <= c.raw * (s * s) <= close * (s * s),
    ;
    assert(-(7 * close + 7) < r < 7 * close + 7) by (nonlinear_arith)
        requires
            -(7 * close + 7) * (s * s) < r * (s * s) < (7 * close + 7) * (s * s),
            s > 0,
    ;
}

/// What reflecting twice at an exact unit normal leaves of the errors of the
/// two reflections: in one component, the two errors of that component and
/// twice the component of the normal times the first errors along the
/// normal.
proof fn lemma_twice_identity(
    s: int,
    vk: int,
    nk: int,
    ak: int,
    rk: int,
    d: int,
    d1: int,
    along: int,
    e1k: int,
    e2k: int,
)
    requires
        // the first reflection, with its error
        ak * (s * s) == vk * (s * s) - 2 * nk * d + e1k,
        // the second reflection, with its error
        rk * (s * s) == ak * (s * s) - 2 * nk * d1 + e2k,
        // the dot product of the first reflection and the normal
        (s * s) * d1 == along - (s * s) * d,
    ensures
        (rk - vk) * (s * s * s * s) == (s * s) * e1k + (s * s) * e2k - 2 * nk * along,
{
    let q = s * s;
    assert((rk - vk) * (q * q) == q * e1k + q * e2k - 2 * nk * along) by (nonlinear_arith)
        requires
            ak * q == vk * q - 2 * nk * d + e1k,
            rk * q == ak * q - 2 * nk * d1 + e2k,
            q * d1 == along - q * d,
    ;
    assert(q * q == s * s * s * s) by (nonlinear_arith)
        requires
            q == s * s,
    ;
}

/// The dot product of a reflection and a normal is that of the vector and
/// the normal, negated, but for the errors of the reflection along the
/// normal and for twice what the squared length of the normal has over one,
/// `excess`, times the dot product.
proof fn lemma_reflected_dot(
    s: int,
    v: (int, int, int),
    n: (int, int, int),
    a: (int, int, int),
    e: (int, int, int),
    d: int,
    excess: int,
)
    requires
        n.0 * n.0 + n.1 * n.1 + n.2 * n.2 == s * s + excess,
        d == v.0 * n.0 + v.1 * n.1 + v.2 * n.2,
        a.0 * (s * s) == v.0 * (s * s) - 2 * n.0 * d + e.0,
        a.1 * (s * s) == v.1 * (s * s) - 2 * n.1 * d + e.1,
        a.2 * (s * s) == v.2 * (s * s) - 2 * n.2 * d + e.2,
    ensures
        (s * s) * (a.0 * n.0 + a.1 * n.1 + a.2 * n.2) == (n.0 * e.0 + n.1 * e.1 + n.2 * e.2) - 2
            * (excess * d) - (s * s) * d,
{
    let q = s * s;
    assert(n.0 * (a.0 * q) == n.0 * (v.0 * q) - 2 * (n.0 * n.0) * d + n.0 * e.0)
        by (nonlinear_arith)
        requires
            a.0 * q == v.0 * q - 2 * n.0 * d + e.0,
    ;
    assert(n.1 * (a.1 * q) == n.1 * (v.1 * q) - 2 * (n.1 * n.1) * d + n.1 * e.1)
        by (nonlinear_arith)
        requires
            a.1 * q == v.1 * q - 2 * n.1 * d + e.1,
    ;
    assert(n.2 * (a.2 * q) == n.2 * (v.2 * q) - 2 * (n.2 * n.2) * d + n.2 * e.2)
        by (nonlinear_arith)
        requires
            a.2 * q == v.2 * q - 2 * n.2 * d + e.2,
    ;
    let along_x = a.0 * n.0;
    let along_y = a.1 * n.1;
    let along_z = a.2 * n.2;
    assert(q * (along_x + along_y + along_z) == q * along_x + q * along_y + q * along_z) by (nonlinear_arith);
    assert(q * along_x == n.0 * (a.0 * q)) by (nonlinear_arith)
        requires
            along_x == a.0 * n.0,
    ;
    assert(q * along_y == n.1 * (a.1 * q)) by (nonlinear_arith)
        requires
            along_y == a.1 * n.1,
    ;
    assert(q * along_z == n.2 * (a.2 * q)) by (nonlinear_arith)
        requires
            along_z == a.2 * n.2,
    ;
    let w0 = v.0 * n.0;
    let w1 = v.1 * n.1;
    let w2 = v.2 * n.2;
    assert(q * (w0 + w1 + w2) == q * w0 + q * w1 + q * w2) by (nonlinear_arith);
    assert(q * w0 == n.0 * (v.0 * q)) by (nonlinear_arith)
        requires
            w0 == v.0 * n.0,
    ;
    assert(q * w1 == n.1 * (v.1 * q)) by (nonlinear_arith)
        requires
            w1 == v.1 * n.1,
    ;
    assert(q * w2 == n.2 * (v.2 * q)) by (nonlinear_arith)
        requires
            w2 == v.2 * n.2,
    ;
    let m0 = n.0 * n.0;
    let m1 = n.1 * n.1;
    let m2 = n.2 * n.2;
    assert(2 * m0 * d + 2 * m1 * d + 2 * m2 * d == 2 * (m0 + m1 + m2) * d) by (nonlinear_arith);
    assert(m0 + m1 + m2 == q + excess);
    assert(2 * (m0 + m1 + m2) * d == 2 * (q * d) + 2 * (excess * d)) by (nonlinear_arith)
        requires
            m0 + m1 + m2 == q + excess,
    ;
    assert(w0 + w1 + w2 == d);
    assert(q * (w0 + w1 + w2) == q * d);
    let lhs = n.0 * (a.0 * q) + n.1 * (a.1 * q) + n.2 * (a.2 * q);
    assert(lhs == (n.0 * (v.0 * q) + n.1 * (v.1 * q) + n.2 * (v.2 * q)) - (2 * m0 * d + 2 * m1 * d
        + 2 * m2 * d) + (n.0 * e.0 + n.1 * e.1 + n.2 * e.2));
    assert(lhs == q * d - 2 * (q * d) - 2 * (excess * d) + (n.0 * e.0 + n.1 * e.1 + n.2 * e.2));
    assert(q * (along_x + along_y + along_z) == lhs);
}

/// A reflection has along the normal what the vector has, negated, but for
/// rounding: at a normal of the exact length one, the exact dot product of
/// the reflection and the normal differs from the negated exact dot product
/// of the vector and the normal by less than twenty-one billionths (both in
/// units of `1 / SCALE^2`).
pub proof fn lemma_reflect_mirrors_dot(v: Vector3, n: Vector3)
    requires
        within_unit(n),
        is_exact_unit(n),
        within_reach(v),
    ensures
        -21 * SCALE < exact_dot(spec_reflect(v, n), n) + exact_dot(v, n) < 21 * SCALE,
{
    let s = SCALE as int;
    let q = s * s;
    let once = spec_reflect(v, n);
    let d = v.spec_dot(n);
    assert(once == (Vector3 {
        x: reflect_component(v.x, n.x, d),
        y: reflect_component(v.y, n.y, d),
        z: reflect_component(v.z, n.z, d),
    }));
    lemma_reflect_is_accurate(v, n);
    let e = (
        once.x.raw * q - exact_reflection(v.x, n.x, v, n),
        once.y.raw * q - exact_reflection(v.y, n.y, v, n),
        once.z.raw * q - exact_reflection(v.z, n.z, v, n),
    );
    let dv = exact_dot(v, n);
    let d1 = exact_dot(once, n);
    let along = n.x.raw * e.0 + n.y.raw * e.1 + n.z.raw * e.2;
    lemma_reflected_dot(
        s,
        (v.x.raw as int, v.y.raw as int, v.z.raw as int),
        (n.x.raw as int, n.y.raw as int, n.z.raw as int),
        (once.x.raw as int, once.y.raw as int, once.z.raw as int),
        e,
        dv,
        0,
    );
    assert(0 * dv == 0) by (nonlinear_arith);
    assert(-21 * (q * s) < along < 21 * (q * s)) by (nonlinear_arith)
        requires
            along == n.x.raw * e.0 + n.y.raw * e.1 + n.z.raw * e.2,
            -s <= n.x.raw <= s,
            -s <= n.y.raw <= s,
            -s <= n.z.raw <= s,
            -7 * q < e.0 < 7 * q,
            -7 * q < e.1 < 7 * q,
            -7 * q < e.2 < 7 * q,
            q > 0,
            s > 0,
    ;
    let sum = d1 + dv;
    assert(q * sum == along) by (nonlinear_arith)
        requires
            q * d1 == along - q * dv,
            sum == d1 + dv,
    ;
    assert(-21 * s < sum < 21 * s) by (nonlinear_arith)
        requires
            q * sum == along,
            -21 * (q * s) < along < 21 * (q * s),
            q > 0,
    ;
}

/// One component of a vector reflected twice differs from that of the
/// vector by less than fifty-six billionths and twice the `slack`, where
/// the slack bounds what the length of the normal adds to the errors along
/// it.
proof fn lemma_reflect_twice_component(
    s: int,
    vk: int,
    nk: int,
    rk: int,
    e1k: int,
    e2k: int,
    along: int,
    slack: int,
)
    requires
        s > 0,
        slack >= 0,
        -s <= nk <= s,
        -7 * (s * s) < e1k < 7 * (s * s),
        -7 * (s * s) < e2k < 7 * (s * s),
        -(21 + slack) * (s * s * s) < along < (21 + slack) * (s * s * s),
        (rk - vk) * (s * s * s * s) == (s * s) * e1k + (s * s) * e2k - 2 * nk * along,
    ensures
        -(56 + 2 * slack) < rk - vk < 56 + 2 * slack,
{
    let q = s * s;
    let f = s * s * s * s;
    assert(f == q * q && f > 0 && s * s * s == q * s && q > 0) by (nonlinear_arith)
        requires
            q == s * s,
            f == s * s * s * s,
            s > 0,
    ;
    assert(-7 * f < q * e1k < 7 * f) by (nonlinear_arith)
        requires
            -7 * q < e1k < 7 * q,
            f == q * q,
            q > 0,
    ;
    assert(-7 * f < q * e2k < 7 * f) by (nonlinear_arith)
        requires
            -7 * q < e2k < 7 * q,
            f == q * q,
            q > 0,
    ;
    let most = 21 + slack;
    assert(-(2 * most) * f < 2 * nk * along < (2 * most) * f) by (nonlinear_arith)
        requires
            -s <= nk <= s,
            -most * (q * s) < along < most * (q * s),
            most > 0,
            f == q * q,
            q == s * s,
            s > 0,
    ;
    let diff = rk - vk;
    let bound = 56 + 2 * slack;
    assert((2 * most) * f + 14 * f == bound * f) by (nonlinear_arith)
        requires
            most == 21 + slack,
            bound == 56 + 2 * slack,
    ;
    assert(-(2 * most) * f == -((2 * most) * f)) by (nonlinear_arith);
    assert(-(bound * f) < diff * f < bound * f);
    assert(-bound < diff < bound) by (nonlinear_arith)
        requires
            -(bound * f) < diff * f < bound * f,
            f > 0,
    ;
}

/// `n` has the length one within `tolerance`: the squares of its raw
/// components add up to the square of [`SCALE`] and no more than
/// `tolerance` over or under it.
pub open spec fn is_unit_within(n: Vector3, tolerance: int) -> bool {
    -tolerance <= exact_dot(n, n) - SCALE * SCALE <= tolerance
}

/// Reflecting twice at a normal that is a unit vector within a tolerance
/// gives the vector back but for rounding and for what the normal lacks:
/// no component of a vector whose components lie within `reach`, reflected
/// twice, differs from that of the vector by fifty-six billionths and twice
/// the `slack` or more, where the slack is six times the tolerance times
/// the reach, in units of the square of [`SCALE`], or more.
pub proof fn lemma_reflect_twice_within(
    v: Vector3,
    n: Vector3,
    tolerance: int,
    reach: int,
    slack: int,
)
    requires
        within_unit(n),
        is_unit_within(n, tolerance),
        0 <= tolerance,
        0 <= reach <= 100_000_000_000_000_000,
        -reach <= v.x.raw <= reach,
        -reach <= v.y.raw <= reach,
        -reach <= v.z.raw <= reach,
        6 * (tolerance * reach) <= slack * (SCALE * SCALE),
    ensures
        ({
            let twice = spec_reflect(spec_reflect(v, n), n);
            &&& -(56 + 2 * slack) < twice.x.raw - v.x.raw < 56 + 2 * slack
            &&& -(56 + 2 * slack) < twice.y.raw - v.y.raw < 56 + 2 * slack
            &&& -(56 + 2 * slack) < twice.z.raw - v.z.raw < 56 + 2 * slack
        }),
{
    let s = SCALE as int;
    let once = spec_reflect(v, n);
    let twice = spec_reflect(once, n);
    let d = v.spec_dot(n);
    assert(once == (Vector3 {
        x: reflect_component(v.x, n.x, d),
        y: reflect_component(v.y, n.y, d),
        z: reflect_component(v.z, n.z, d),
    }));
    assert(within_close_reach(v));
    lemma_reflection_within_reach(v.x, n.x, v, n);
    lemma_reflection_within_reach(v.y, n.y, v, n);
    lemma_reflection_within_reach(v.z, n.z, v, n);
    assert(within_reach(v));
    assert(within_reach(once));
    lemma_reflect_is_accurate(v, n);
    lemma_reflect_is_accurate(once, n);
    let e1 = (
        once.x.raw * (s * s) - exact_reflection(v.x, n.x, v, n),
        once.y.raw * (s * s) - exact_reflection(v.y, n.y, v, n),
        once.z.raw * (s * s) - exact_reflection(v.z, n.z, v, n),
    );
    let e2 = (
        twice.x.raw * (s * s) - exact_reflection(once.x, n.x, once, n),
        twice.y.raw * (s * s) - exact_reflection(once.y, n.y, once, n),
        twice.z.raw * (s * s) - exact_reflection(once.z, n.z, once, n),
    );
    let dv = exact_dot(v, n);
    let d1 = exact_dot(once, n);
    let excess = exact_dot(n, n) - s * s;
    let errors = n.x.raw * e1.0 + n.y.raw * e1.1 + n.z.raw * e1.2;
    lemma_reflected_dot(
        s,
        (v.x.raw as int, v.y.raw as int, v.z.raw as int),
        (n.x.raw as int, n.y.raw as int, n.z.raw as int),
        (once.x.raw as int, once.y.raw as int, once.z.raw as int),
        e1,
        dv,
        excess,
    );
    assert(-21 * (s * s * s) < errors < 21 * (s * s * s)) by (nonlinear_arith)
        requires
            errors == n.x.raw * e1.0 + n.y.raw * e1.1 + n.z.raw * e1.2,
            -s <= n.x.raw <= s,
            -s <= n.y.raw <= s,
            -s <= n.z.raw <= s,
            -7 * (s * s) < e1.0 < 7 * (s * s),
            -7 * (s * s) < e1.1 < 7 * (s * s),
            -7 * (s * s) < e1.2 < 7 * (s * s),
            s > 0,
    ;
    // what the length of the normal adds
    lemma_product_within(v.x.raw as int, n.x.raw as int, reach);
    lemma_product_within(v.y.raw as int, n.y.raw as int, reach);
    lemma_product_within(v.z.raw as int, n.z.raw as int, reach);
    assert(-(3 * (reach * s)) <= dv <= 3 * (reach * s)) by (nonlinear_arith)
        requires
            dv == v.x.raw * n.x.raw + v.y.raw * n.y.raw + v.z.raw * n.z.raw,
            -(reach * s) <= v.x.raw * n.x.raw <= reach * s,
            -(reach * s) <= v.y.raw * n.y.raw <= reach * s,
            -(reach * s) <= v.z.raw * n.z.raw <= reach * s,
    ;
    let added = 2 * (excess * dv);
    assert(-(6 * (tolerance * reach)) * s <= added <= (6 * (tolerance * reach)) * s)
        by (nonlinear_arith)
        requires
            added == 2 * (excess * dv),
            -tolerance <= excess <= tolerance,
            -(3 * (reach * s)) <= dv <= 3 * (reach * s),
            reach >= 0,
            s > 0,
    ;
    assert((6 * (tolerance * reach)) * s <= slack * (s * s * s)) by (nonlinear_arith)
        requires
            6 * (tolerance * reach) <= slack * (s * s),
            s > 0,
    ;
    assert(slack >= 0) by (nonlinear_arith)
        requires
            0 <= 6 * (tolerance * reach) <= slack * (s * s),
            s > 0,
    ;
    let along = errors - added;
    assert((21 + slack) * (s * s * s) == 21 * (s * s * s) + slack * (s * s * s))
        by (nonlinear_arith);
    assert(-(21 + slack) * (s * s * s) == -((21 + slack) * (s * s * s))) by (nonlinear_arith);
    lemma_twice_identity(
        s, v.x.raw as int, n.x.raw as int, once.x.raw as int, twice.x.raw as int, dv, d1, along,
        e1.0, e2.0,
    );
    lemma_twice_identity(
        s, v.y.raw as int, n.y.raw as int, once.y.raw as int, twice.y.raw as int, dv, d1, along,
        e1.1, e2.1,
    );
    lemma_twice_identity(
        s, v.z.raw as int, n.z.raw as int, once.z.raw as int, twice.z.raw as int, dv, d1, along,
        e1.2, e2.2,
    );
    lemma_reflect_twice_component(
        s, v.x.raw as int, n.x.raw as int, twice.x.raw as int, e1.0, e2.0, along, slack,
    );
    lemma_reflect_twice_component(
        s, v.y.raw as int, n.y.raw as int, twice.y.raw as int, e1.1, e2.1, along, slack,
    );
    lemma_reflect_twice_component(
        s, v.z.raw as int, n.z.raw as int, twice.z.raw as int, e1.2, e2.2, along, slack,
    );
}

/// The square of one component of a vector scaled to unit length, times
/// the square of the length, is the square of the component in billionths
/// or less, by no more than twice the square of the length in billionths.
proof fn lemma_unit_component_square(c: int, len: int)
    requires
        0 < len,
        -len <= c <= len,
    ensures
        ({
            let u = crate::vector::unit_component(c, len);
            &&& -SCALE <= u <= SCALE
            &&& (c * c) * (SCALE * SCALE) - 2 * ((len * len) * SCALE) <= (u * u) * (len * len)
                <= (c * c) * (SCALE * SCALE)
        }),
{
    let s = SCALE as int;
    let u = crate::vector::unit_component(c, len);
    let size = if c >= 0 {
        c
    } else {
        -c
    };
    let exact = size * s;
    let t = trunc_div(exact, len);
    assert(0 <= exact <= len * s) by (nonlinear_arith)
        requires
            exact == size * s,
            0 <= size <= len,
            s > 0,
    ;
    assert(c * s == exact || c * s == -exact) by (nonlinear_arith)
        requires
            exact == size * s,
            size == c || size == -c,
    ;
    assert(u == t || u == -t);
    crate::scalar::lemma_rounded_quotient(exact, len);
    crate::slab::lemma_trunc_div_sign(exact, len);
    let rounded = t * len;
    if t > s {
        assert(t * len > len * s) by (nonlinear_arith)
            requires
                t > s,
                len > 0,
        ;
    }
    assert(u * u == t * t) by (nonlinear_arith)
        requires
            u == t || u == -t,
    ;
    assert((u * u) * (len * len) == rounded * rounded) by (nonlinear_arith)
        requires
            u * u == t * t,
            rounded == t * len,
    ;
    assert(c * c == size * size) by (nonlinear_arith)
        requires
            size == c || size == -c,
    ;
    assert((c * c) * (s * s) == exact * exact) by (nonlinear_arith)
        requires
            c * c == size * size,
            exact == size * s,
    ;
    assert(0 <= rounded) by (nonlinear_arith)
        requires
            rounded == t * len,
            t >= 0,
            len > 0,
    ;
    assert(rounded * rounded <= exact * exact) by (nonlinear_arith)
        requires
            0 <= rounded <= exact,
    ;
    assert(2 * (exact * len) <= 2 * ((len * len) * s)) by (nonlinear_arith)
        requires
            0 <= exact <= len * s,
            len > 0,
    ;
    if exact >= len {
        assert(rounded * rounded >= exact * exact - 2 * (exact * len)) by (nonlinear_arith)
            requires
                rounded >= exact - len,
                exact - len >= 0,
                len > 0,
        ;
    } else {
        assert(exact * exact <= exact * len) by (nonlinear_arith)
            requires
                0 <= exact < len,
        ;
        assert(0 <= rounded * rounded) by (nonlinear_arith);
    }
}

/// A vector of length one or more, scaled to unit length, is a unit vector
/// within six billionths of the square of its length: its components lie
/// within one, and the squares of its raw components add up to the square
/// of [`SCALE`] and no more than six times [`SCALE`] over or under it.
pub proof fn lemma_normalized_is_nearly_unit(v: Vector3)
    requires
        v.exact_length() >= SCALE,
    ensures
        within_unit(v.spec_normalized()),
        is_unit_within(v.spec_normalized(), 6 * SCALE),
{
    let s = SCALE as int;
    let x = v.x.raw as int;
    let y = v.y.raw as int;
    let z = v.z.raw as int;
    let total = v.norm_squared();
    crate::vector::lemma_square_bounds(v.x.raw);
    crate::vector::lemma_square_bounds(v.y.raw);
    crate::vector::lemma_square_bounds(v.z.raw);
    let top: int = 0x1_0000_0000_0000_0000;
    assert(top * top == 0x1_0000_0000_0000_0000_0000_0000_0000_0000) by (nonlinear_arith)
        requires
            top == 0x1_0000_0000_0000_0000,
    ;
    lemma_floor_sqrt_exists(total, top);
    let len = v.exact_length();
    crate::vector::lemma_length_dominates(x, y, z, len);
    lemma_unit_component_square(x, len);
    lemma_unit_component_square(y, len);
    lemma_unit_component_square(z, len);
    let n = v.spec_normalized();
    let a = crate::vector::unit_component(x, len);
    let b = crate::vector::unit_component(y, len);
    let c = crate::vector::unit_component(z, len);
    assert(n.x.raw == a && n.y.raw == b && n.z.raw == c);
    let sum = exact_dot(n, n);
    assert(sum == a * a + b * b + c * c);
    let area = len * len;
    let q = s * s;
    assert(sum * area == (a * a) * area + (b * b) * area + (c * c) * area) by (nonlinear_arith)
        requires
            sum == a * a + b * b + c * c,
    ;
    assert(total * q == (x * x) * q + (y * y) * q + (z * z) * q) by (nonlinear_arith)
        requires
            total == x * x + y * y + z * z,
    ;
    assert(total * q - 6 * (area * s) <= sum * area <= total * q);
    assert(area > 0 && area * q <= total * q) by (nonlinear_arith)
        requires
            area == len * len,
            area <= total,
            len >= s,
            s > 0,
            q == s * s,
    ;
    // from below
    assert(sum * area >= (q - 6 * s) * area) by (nonlinear_arith)
        requires
            sum * area >= total * q - 6 * (area * s),
            area * q <= total * q,
    ;
    assert(sum >= q - 6 * s) by (nonlinear_arith)
        requires
            sum * area >= (q - 6 * s) * area,
            area > 0,
    ;
    // from above
    if sum >= q + 2 * s + 1 {
        assert(total * q < (len + 1) * (len + 1) * q) by (nonlinear_arith)
            requires
                total < (len + 1) * (len + 1),
                q > 0,
        ;
        assert((len + 1) * (len + 1) * q <= (q + 2 * s + 1) * area) by (nonlinear_arith)
            requires
                area == len * len,
                q == s * s,
                len >= s,
                s > 0,
        ;
        assert(sum * area >= (q + 2 * s + 1) * area) by (nonlinear_arith)
            requires
                sum >= q + 2 * s + 1,
                area > 0,
        ;
    }
    assert(q > 0) by (nonlinear_arith)
        requires
            q == s * s,
            s > 0,
    ;
}

/// Reflecting twice at a unit normal gives the vector back but for
/// rounding: at a normal of the exact length one, no component of a vector
/// within close reach, reflected twice, differs from that of the vector by
/// fifty-six billionths or more.
pub proof fn lemma_reflect_twice(v: Vector3, n: Vector3)
    requires
        within_unit(n),
        is_exact_unit(n),
        within_close_reach(v),
    ensures
        ({
            let twice = spec_reflect(spec_reflect(v, n), n);
            &&& -56 < twice.x.raw - v.x.raw < 56
            &&& -56 < twice.y.raw - v.y.raw < 56
            &&& -56 < twice.z.raw - v.z.raw < 56
        }),
{
    assert(0 * 100_000_000_000_000_000int == 0 && 6 * 0 == 0 && 0 * (SCALE * SCALE) == 0)
        by (nonlinear_arith);
    lemma_reflect_twice_within(v, n, 0, 100_000_000_000_000_000, 0);
}

/// The square of `e + x` where `e` is the exact value and `x` the error.
proof fn lemma_square_with_error(a: int, q: int, e: int, x: int, bound: int)
    requires
        a * q == e + x,
        q > 0,
        bound >= 0,
        -bound * q <= e <= bound * q,
        -7 * q < x < 7 * q,
    ensures
        (q * q) * (a * a) == e * e + 2 * e * x + x * x,
        -14 * bound * (q * q) <= 2 * e * x <= 14 * bound * (q * q),
        0 <= x * x < 49 * (q * q),
{
    assert((a * q) * (a * q) == (q * q) * (a * a)) by (nonlinear_arith);
    assert((e + x) * (e + x) == e * e + 2 * e * x + x * x) by (nonlinear_arith);
    assert(-14 * bound * (q * q) <= 2 * e * x <= 14 * bound * (q * q)) by (nonlinear_arith)
        requires
            -bound * q <= e <= bound * q,
            -7 * q < x < 7 * q,
            q > 0,
            bound >= 0,
    ;
    assert(0 <= x * x < 49 * (q * q)) by (nonlinear_arith)
        requires
            -7 * q < x < 7 * q,
            q > 0,
    ;
}

/// The square of one component of an exact reflection, multiplied out.
proof fn lemma_square_of_exact_component(v: int, n: int, q: int, d: int, e: int)
    requires
        e == v * q - 2 * n * d,
    ensures
        e * e == (q * q) * (v * v) - 4 * (q * d) * (v * n) + 4 * (d * d) * (n * n),
{
    let a = v * q;
    let t = n * d;
    assert(2 * n * d == 2 * t) by (nonlinear_arith)
        requires
            t == n * d,
    ;
    assert((a - 2 * t) * (a - 2 * t) == a * a - 4 * (a * t) + 4 * (t * t)) by (nonlinear_arith);
    assert(a * a == (q * q) * (v * v)) by (nonlinear_arith)
        requires
            a == v * q,
    ;
    assert(a * t == (q * d) * (v * n)) by (nonlinear_arith)
        requires
            a == v * q,
            t == n * d,
    ;
    assert(t * t == (d * d) * (n * n)) by (nonlinear_arith)
        requires
            t == n * d,
    ;
    let qd = q * d;
    let vn = v * n;
    let dd = d * d;
    let nn = n * n;
    assert(4 * qd * vn == 4 * (qd * vn)) by (nonlinear_arith);
    assert(4 * dd * nn == 4 * (dd * nn)) by (nonlinear_arith);
    assert(e == a - 2 * t);
    assert(e * e == (a - 2 * t) * (a - 2 * t));
}

/// The squares of the components of the exact reflection add up to those
/// of the vector and four times the square of the dot product times what
/// the squared length of the normal has over one, `excess`.
proof fn lemma_exact_reflection_keeps_length(
    q: int,
    v: (int, int, int),
    n: (int, int, int),
    d: int,
    e: (int, int, int),
    excess: int,
)
    requires
        n.0 * n.0 + n.1 * n.1 + n.2 * n.2 == q + excess,
        d == v.0 * n.0 + v.1 * n.1 + v.2 * n.2,
        e.0 == v.0 * q - 2 * n.0 * d,
        e.1 == v.1 * q - 2 * n.1 * d,
        e.2 == v.2 * q - 2 * n.2 * d,
    ensures
        e.0 * e.0 + e.1 * e.1 + e.2 * e.2 == (q * q) * (v.0 * v.0 + v.1 * v.1 + v.2 * v.2) + 4
            * ((d * d) * excess),
{
    let dd = d * d;
    let qd = q * d;
    lemma_square_of_exact_component(v.0, n.0, q, d, e.0);
    lemma_square_of_exact_component(v.1, n.1, q, d, e.1);
    lemma_square_of_exact_component(v.2, n.2, q, d, e.2);
    let w0 = v.0 * n.0;
    let w1 = v.1 * n.1;
    let w2 = v.2 * n.2;
    let m0 = n.0 * n.0;
    let m1 = n.1 * n.1;
    let m2 = n.2 * n.2;
    let u0 = v.0 * v.0;
    let u1 = v.1 * v.1;
    let u2 = v.2 * v.2;
    let qq = q * q;
    assert(4 * qd * w0 + 4 * qd * w1 + 4 * qd * w2 == 4 * qd * (w0 + w1 + w2))
        by (nonlinear_arith);
    assert(4 * dd * m0 + 4 * dd * m1 + 4 * dd * m2 == 4 * dd * (m0 + m1 + m2))
        by (nonlinear_arith);
    assert(qq * u0 + qq * u1 + qq * u2 == qq * (u0 + u1 + u2)) by (nonlinear_arith);
    assert(4 * qd * d == 4 * dd * q) by (nonlinear_arith)
        requires
            dd == d * d,
            qd == q * d,
    ;
    assert(w0 + w1 + w2 == d);
    assert(m0 + m1 + m2 == q + excess);
    assert(4 * qd * (w0 + w1 + w2) == 4 * qd * d);
    assert(4 * dd * (m0 + m1 + m2) == 4 * dd * q + 4 * (dd * excess)) by (nonlinear_arith)
        requires
            m0 + m1 + m2 == q + excess,
    ;
}

/// A reflection at a unit normal has the length of what is reflected but
/// for rounding: at a normal of the exact length one, the squared length of
/// the reflection of a vector whose components lie within `reach` differs
/// from that of the vector by less than `84 * reach + 147`, in raw units
/// squared.
pub proof fn lemma_reflect_keeps_length(v: Vector3, n: Vector3, reach: int)
    requires
        within_unit(n),
        is_exact_unit(n),
        0 <= reach <= 100_000_000_000_000_000,
        -reach <= v.x.raw <= reach,
        -reach <= v.y.raw <= reach,
        -reach <= v.z.raw <= reach,
    ensures
        -(84 * reach + 147) < spec_reflect(v, n).norm_squared() - v.norm_squared() < 84 * reach
            + 147,
{
    let s = SCALE as int;
    let q = s * s;
    let once = spec_reflect(v, n);
    let d = v.spec_dot(n);
    assert(once == (Vector3 {
        x: reflect_component(v.x, n.x, d),
        y: reflect_component(v.y, n.y, d),
        z: reflect_component(v.z, n.z, d),
    }));
    lemma_reflect_is_accurate(v, n);
    let dv = exact_dot(v, n);
    let e = (
        exact_reflection(v.x, n.x, v, n),
        exact_reflection(v.y, n.y, v, n),
        exact_reflection(v.z, n.z, v, n),
    );
    let x = (once.x.raw * q - e.0, once.y.raw * q - e.1, once.z.raw * q - e.2);
    lemma_exact_reflection_keeps_length(
        q,
        (v.x.raw as int, v.y.raw as int, v.z.raw as int),
        (n.x.raw as int, n.y.raw as int, n.z.raw as int),
        dv,
        e,
        0,
    );
    assert((dv * dv) * 0 == 0) by (nonlinear_arith);
    // the exact reflection is no longer than the vector: each of its
    // components lies within the length of the vector, and so within
    // the root of three times the reach
    let total = v.x.raw * v.x.raw + v.y.raw * v.y.raw + v.z.raw * v.z.raw;
    assert(0 <= total <= 3 * (reach * reach)) by (nonlinear_arith)
        requires
            total == v.x.raw * v.x.raw + v.y.raw * v.y.raw + v.z.raw * v.z.raw,
            -reach <= v.x.raw <= reach,
            -reach <= v.y.raw <= reach,
            -reach <= v.z.raw <= reach,
    ;
    lemma_component_within_total(e.0, e.1, e.2, q, total, reach);
    lemma_component_within_total(e.1, e.0, e.2, q, total, reach);
    lemma_component_within_total(e.2, e.0, e.1, q, total, reach);
    lemma_square_with_error(once.x.raw as int, q, e.0, x.0, 2 * reach);
    lemma_square_with_error(once.y.raw as int, q, e.1, x.1, 2 * reach);
    lemma_square_with_error(once.z.raw as int, q, e.2, x.2, 2 * reach);
    let qq = q * q;
    let a2 = once.x.raw * once.x.raw + once.y.raw * once.y.raw + once.z.raw * once.z.raw;
    assert(qq * a2 == qq * (once.x.raw * once.x.raw) + qq * (once.y.raw * once.y.raw) + qq * (
    once.z.raw * once.z.raw)) by (nonlinear_arith)
        requires
            a2 == once.x.raw * once.x.raw + once.y.raw * once.y.raw + once.z.raw * once.z.raw,
    ;
    let off = 2 * e.0 * x.0 + 2 * e.1 * x.1 + 2 * e.2 * x.2 + x.0 * x.0 + x.1 * x.1 + x.2 * x.2;
    assert(qq * a2 == qq * total + off);
    assert(-(84 * reach) * qq <= off < (84 * reach + 147) * qq) by (nonlinear_arith)
        requires
            off == 2 * e.0 * x.0 + 2 * e.1 * x.1 + 2 * e.2 * x.2 + x.0 * x.0 + x.1 * x.1 + x.2
                * x.2,
            -14 * (2 * reach) * qq <= 2 * e.0 * x.0 <= 14 * (2 * reach) * qq,
            -14 * (2 * reach) * qq <= 2 * e.1 * x.1 <= 14 * (2 * reach) * qq,
            -14 * (2 * reach) * qq <= 2 * e.2 * x.2 <= 14 * (2 * reach) * qq,
            0 <= x.0 * x.0 < 49 * qq,
            0 <= x.1 * x.1 < 49 * qq,
            0 <= x.2 * x.2 < 49 * qq,
    ;
    let diff = a2 - total;
    assert(qq * diff == off) by (nonlinear_arith)
        requires
            qq * a2 == qq * total + off,
            diff == a2 - total,
    ;
    assert(qq > 0) by (nonlinear_arith)
        requires
            q == s * s,
            qq == q * q,
            s > 0,
    ;
    assert(-(84 * reach + 147) < diff < 84 * reach + 147) by (nonlinear_arith)
        requires
            qq * diff == off,
            -(84 * reach) * qq <= off < (84 * reach + 147) * qq,
            qq > 0,
    ;
}

/// A reflection at a normal that is a unit vector within a tolerance has
/// the length of what is reflected but for rounding and for what the normal
/// lacks: the squared length of the reflection of a vector whose components
/// lie within `reach` differs from that of the vector by less than
/// `294 * reach + 147` and the `slack`, in raw units squared, where the
/// slack is thirty-six times the tolerance times the square of the reach,
/// in units of the square of [`SCALE`], or more.
pub proof fn lemma_reflect_keeps_length_within(
    v: Vector3,
    n: Vector3,
    tolerance: int,
    reach: int,
    slack: int,
)
    requires
        within_unit(n),
        is_unit_within(n, tolerance),
        0 <= tolerance,
        0 <= reach <= 100_000_000_000_000_000,
        -reach <= v.x.raw <= reach,
        -reach <= v.y.raw <= reach,
        -reach <= v.z.raw <= reach,
        36 * (tolerance * (reach * reach)) <= slack * (SCALE * SCALE),
    ensures
        -(294 * reach + 147 + slack) < spec_reflect(v, n).norm_squared() - v.norm_squared() < 294
            * reach + 147 + slack,
{
    let s = SCALE as int;
    let q = s * s;
    let once = spec_reflect(v, n);
    let d = v.spec_dot(n);
    assert(once == (Vector3 {
        x: reflect_component(v.x, n.x, d),
        y: reflect_component(v.y, n.y, d),
        z: reflect_component(v.z, n.z, d),
    }));
    lemma_reflect_is_accurate(v, n);
    let dv = exact_dot(v, n);
    let excess = exact_dot(n, n) - q;
    let e = (
        exact_reflection(v.x, n.x, v, n),
        exact_reflection(v.y, n.y, v, n),
        exact_reflection(v.z, n.z, v, n),
    );
    let x = (once.x.raw * q - e.0, once.y.raw * q - e.1, once.z.raw * q - e.2);
    lemma_exact_reflection_keeps_length(
        q,
        (v.x.raw as int, v.y.raw as int, v.z.raw as int),
        (n.x.raw as int, n.y.raw as int, n.z.raw as int),
        dv,
        e,
        excess,
    );
    lemma_product_within(v.x.raw as int, n.x.raw as int, reach);
    lemma_product_within(v.y.raw as int, n.y.raw as int, reach);
    lemma_product_within(v.z.raw as int, n.z.raw as int, reach);
    let most = 3 * (reach * s);
    assert(-most <= dv <= most);
    lemma_exact_component_within(v.x.raw as int, n.x.raw as int, dv, e.0, reach);
    lemma_exact_component_within(v.y.raw as int, n.y.raw as int, dv, e.1, reach);
    lemma_exact_component_within(v.z.raw as int, n.z.raw as int, dv, e.2, reach);
    lemma_square_with_error(once.x.raw as int, q, e.0, x.0, 7 * reach);
    lemma_square_with_error(once.y.raw as int, q, e.1, x.1, 7 * reach);
    lemma_square_with_error(once.z.raw as int, q, e.2, x.2, 7 * reach);
    let qq = q * q;
    let total = v.x.raw * v.x.raw + v.y.raw * v.y.raw + v.z.raw * v.z.raw;
    let a2 = once.x.raw * once.x.raw + once.y.raw * once.y.raw + once.z.raw * once.z.raw;
    assert(qq * a2 == qq * (once.x.raw * once.x.raw) + qq * (once.y.raw * once.y.raw) + qq * (
    once.z.raw * once.z.raw)) by (nonlinear_arith)
        requires
            a2 == once.x.raw * once.x.raw + once.y.raw * once.y.raw + once.z.raw * once.z.raw,
    ;
    let off = 2 * e.0 * x.0 + 2 * e.1 * x.1 + 2 * e.2 * x.2 + x.0 * x.0 + x.1 * x.1 + x.2 * x.2;
    let added = 4 * ((dv * dv) * excess);
    assert(qq * a2 == qq * total + added + off);
    assert(-(294 * reach) * qq <= off < (294 * reach + 147) * qq) by (nonlinear_arith)
        requires
            off == 2 * e.0 * x.0 + 2 * e.1 * x.1 + 2 * e.2 * x.2 + x.0 * x.0 + x.1 * x.1 + x.2
                * x.2,
            -14 * (7 * reach) * qq <= 2 * e.0 * x.0 <= 14 * (7 * reach) * qq,
            -14 * (7 * reach) * qq <= 2 * e.1 * x.1 <= 14 * (7 * reach) * qq,
            -14 * (7 * reach) * qq <= 2 * e.2 * x.2 <= 14 * (7 * reach) * qq,
            0 <= x.0 * x.0 < 49 * qq,
            0 <= x.1 * x.1 < 49 * qq,
            0 <= x.2 * x.2 < 49 * qq,
    ;
    // what the length of the normal adds
    let square = dv * dv;
    assert(0 <= square <= most * most) by (nonlinear_arith)
        requires
            square == dv * dv,
            -most <= dv <= most,
    ;
    assert(most * most == 9 * ((reach * reach) * q)) by (nonlinear_arith)
        requires
            most == 3 * (reach * s),
            q == s * s,
    ;
    assert(-(tolerance * (most * most)) <= square * excess <= tolerance * (most * most))
        by (nonlinear_arith)
        requires
            0 <= square <= most * most,
            -tolerance <= excess <= tolerance,
    ;
    assert(tolerance * (9 * ((reach * reach) * q)) == (9 * (tolerance * (reach * reach))) * q)
        by (nonlinear_arith);
    assert(4 * ((9 * (tolerance * (reach * reach))) * q) <= slack * qq) by (nonlinear_arith)
        requires
            36 * (tolerance * (reach * reach)) <= slack * q,
            qq == q * q,
            q >= 0,
    ;
    assert(-(slack * qq) <= added <= slack * qq);
    let diff = a2 - total;
    let bound = 294 * reach + 147 + slack;
    assert(qq * diff == added + off) by (nonlinear_arith)
        requires
            qq * a2 == qq * total + added + off,
            diff == a2 - total,
    ;
    assert(qq > 0) by (nonlinear_arith)
        requires
            q == s * s,
            qq == q * q,
            s > 0,
    ;
    assert(bound * qq == (294 * reach) * qq + 147 * qq + slack * qq) by (nonlinear_arith)
        requires
            bound == 294 * reach + 147 + slack,
    ;
    assert((294 * reach + 147) * qq == (294 * reach) * qq + 147 * qq) by (nonlinear_arith);
    assert(-(294 * reach) * qq == -((294 * reach) * qq)) by (nonlinear_arith);
    assert(-(bound * qq) < qq * diff < bound * qq);
    assert(-bound < diff < bound) by (nonlinear_arith)
        requires
            -(bound * qq) < qq * diff < bound * qq,
            qq > 0,
    ;
}

/// One component of the exact reflection of a vector whose components lie
/// within `reach` lies within seven times the reach.
proof fn lemma_exact_component_within(c: int, k: int, d: int, e: int, reach: int)
    requires
        0 <= reach,
        -reach <= c <= reach,
        -SCALE <= k <= SCALE,
        -(3 * (reach * SCALE)) <= d <= 3 * (reach * SCALE),
        e == c * (SCALE * SCALE) - 2 * k * d,
    ensures
        -(7 * reach) * (SCALE * SCALE) <= e <= (7 * reach) * (SCALE * SCALE),
{
    let s = SCALE as int;
    let q = s * s;
    assert(-(reach * q) <= c * q <= reach * q) by (nonlinear_arith)
        requires
            -reach <= c <= reach,
            q >= 0,
    ;
    assert(-(6 * (reach * q)) <= 2 * k * d <= 6 * (reach * q)) by (nonlinear_arith)
        requires
            -s <= k <= s,
            -(3 * (reach * s)) <= d <= 3 * (reach * s),
            q == s * s,
            s > 0,
            reach >= 0,
    ;
    assert((7 * reach) * q == 7 * (reach * q) && -(7 * reach) * q == -(7 * (reach * q)))
        by (nonlinear_arith);
}

/// The reflection of a unit vector at a unit normal is a unit vector but
/// for rounding: where both have the exact length one, the length of the
/// reflection differs from one by no more than forty-three billionths.
pub proof fn lemma_reflect_of_unit_is_unit(v: Vector3, n: Vector3)
    requires
        within_unit(n),
        is_exact_unit(n),
        is_exact_unit(v),
    ensures
        SCALE - 43 <= spec_reflect(v, n).spec_length().raw <= SCALE + 42,
{
    let s = SCALE as int;
    let x = v.x.raw as int;
    let y = v.y.raw as int;
    let z = v.z.raw as int;
    assert(x * x >= 0 && y * y >= 0 && z * z >= 0) by (nonlinear_arith);
    assert(-s <= x <= s) by (nonlinear_arith)
        requires
            x * x <= s * s,
            s > 0,
    ;
    assert(-s <= y <= s) by (nonlinear_arith)
        requires
            y * y <= s * s,
            s > 0,
    ;
    assert(-s <= z <= s) by (nonlinear_arith)
        requires
            z * z <= s * s,
            s > 0,
    ;
    lemma_reflect_keeps_length(v, n, s);
    let total = spec_reflect(v, n).norm_squared();
    assert(v.norm_squared() == s * s);
    assert((s - 43) * (s - 43) <= total < (s + 43) * (s + 43)) by (nonlinear_arith)
        requires
            s == 1_000_000_000,
            -(84 * s + 147) < total - s * s < 84 * s + 147,
    ;
    lemma_floor_sqrt_exists(total, s + 43);
    let root = floor_sqrt(total);
    if root < s - 43 {
        assert((root + 1) * (root + 1) <= (s - 43) * (s - 43)) by (nonlinear_arith)
            requires
                0 <= root < s - 43,
        ;
    }
    if root > s + 42 {
        assert(root * root >= (s + 43) * (s + 43)) by (nonlinear_arith)
            requires
                root > s + 42,
                s > 0,
        ;
    }
}

/// A number whose square, with two more squares, is `q * q * total` lies
/// within `2 * reach * q` when `total` is at most three times the square of
/// `reach`.
proof fn lemma_component_within_total(e: int, f: int, g: int, q: int, total: int, reach: int)
    requires
        e * e + f * f + g * g == (q * q) * total,
        0 <= total <= 3 * (reach * reach),
        q > 0,
        reach >= 0,
    ensures
        -(2 * reach) * q <= e <= (2 * reach) * q,
{
    let b = 2 * reach * q;
    let rq = (reach * reach) * (q * q);
    assert(b >= 0) by (nonlinear_arith)
        requires
            b == 2 * reach * q,
            q > 0,
            reach >= 0,
    ;
    assert(rq >= 0) by (nonlinear_arith)
        requires
            rq == (reach * reach) * (q * q),
    ;
    assert(e * e <= (q * q) * total) by (nonlinear_arith)
        requires
            e * e + f * f + g * g == (q * q) * total,
    ;
    assert((q * q) * total <= 3 * rq) by (nonlinear_arith)
        requires
            0 <= total <= 3 * (reach * reach),
            rq == (reach * reach) * (q * q),
    ;
    assert(b * b == 4 * rq) by (nonlinear_arith)
        requires
            b == 2 * reach * q,
            rq == (reach * reach) * (q * q),
    ;
    assert(e * e <= b * b);
    if e > b {
        assert(e * e > b * b) by (nonlinear_arith)
            requires
                e > b,
                b >= 0,
        ;
    }
    if e < -b {
        assert(e * e > b * b) by (nonlinear_arith)
            requires
                e < -b,
                b >= 0,
        ;
    }
    assert(-b <= e <= b);
    assert(-(2 * reach) * q == -b && (2 * reach) * q == b) by (nonlinear_arith)
        requires
            b == 2 * reach * q,
    ;
}

/// The most that a ray is bent at a surface between two media of the same
/// index, by the rounding of the square of the cosine and of its root: the
/// square root of a billion billionths, rounded up.
pub const BEND_LIMIT: i64 = 31_623;

/// The root of the rounded square of a cosine falls short of the cosine by
/// no more than [`BEND_LIMIT`].
pub proof fn lemma_root_of_square(cosine: Scalar)
    requires
        0 <= cosine.raw <= SCALE,
    ensures
        0 <= cosine.raw - cosine.spec_mul(cosine).spec_sqrt().raw <= BEND_LIMIT,
{
    let s = SCALE as int;
    let c = cosine.raw as int;
    assert(0 <= c * c <= s * s) by (nonlinear_arith)
        requires
            0 <= c <= s,
    ;
    let c2 = cosine.spec_mul(cosine).raw as int;
    assert(c2 == (c * c) / s);
    lemma_trunc_div_error(c * c, s);
    assert(0 <= c * c - c2 * s < s) by {
        vstd::arithmetic::div_mod::lemma_fundamental_div_mod(c * c, s);
        vstd::arithmetic::div_mod::lemma_mod_bound(c * c, s);
        assert(s * c2 == c2 * s) by (nonlinear_arith);
    }
    assert(0 <= c2 <= s) by (nonlinear_arith)
        requires
            0 <= c * c - c2 * s < s,
            0 <= c * c <= s * s,
            s > 0,
    ;
    if c2 <= 0 {
        assert(c <= 31_622) by (nonlinear_arith)
            requires
                c * c < 1_000_000_000,
                c >= 0,
        ;
    } else {
        let n = c2 * s;
        // the floor of the root exists: it lies between zero and the cosine
        let r = floor_sqrt(n);
        lemma_floor_sqrt_exists(n, c);
        assert(is_floor_sqrt(n, r));
        if r > c {
            assert(r * r > c * c) by (nonlinear_arith)
                requires
                    r >= c + 1,
                    c >= 0,
            ;
        }
        if r < c - 31_623 {
            assert((r + 1) * (r + 1) <= (c - 31_623) * (c - 31_623)) by (nonlinear_arith)
                requires
                    0 <= r,
                    r + 1 <= c - 31_623,
            ;
            assert((c - 31_623) * (c - 31_623) == c * c - 63_246 * c + 1_000_014_129)
                by (nonlinear_arith);
        }
    }
}

/// A number whose root is at most `top` has a floor of its square root.
pub proof fn lemma_floor_sqrt_exists(n: int, top: int)
    requires
        0 <= n <= top * top,
        0 <= top,
    ensures
        is_floor_sqrt(n, floor_sqrt(n)),
    decreases top,
{
    if top * top <= n {
        assert(is_floor_sqrt(n, top)) by (nonlinear_arith)
            requires
                top * top == n,
                top >= 0,
        ;
    } else if top == 0 {
        assert(top * top == 0) by (nonlinear_arith)
            requires
                top == 0,
        ;
    } else if (top - 1) * (top - 1) <= n {
        assert(is_floor_sqrt(n, top - 1));
    } else {
        lemma_floor_sqrt_exists(n, top - 1);
    }
}

/// One component of what the bend adds to a ray is at most [`BEND_LIMIT`].
proof fn lemma_bend_component(incident: Scalar, normal: Scalar, bend: Scalar)
    requires
        -SCALE <= normal.raw <= SCALE,
        0 <= bend.raw <= BEND_LIMIT,
    ensures
        -BEND_LIMIT <= incident.spec_add(normal.spec_mul(bend)).raw - incident.raw <= BEND_LIMIT,
{
    lemma_product_within(bend.raw as int, normal.raw as int, BEND_LIMIT as int);
    assert(normal.raw * bend.raw == bend.raw * normal.raw) by (nonlinear_arith);
}

/// A surface between two media of the same index bends a ray by rounding
/// alone: with a refractive index of one, and a normal whose components lie
/// within one, no component of the refracted direction differs from that of
/// the incident one by more than [`BEND_LIMIT`] billionths.
pub proof fn lemma_no_bending_but_for_rounding(incident: Vector3, normal: Vector3)
    requires
        within_unit(normal),
    ensures
        !spec_total_internal_reflection(incident, normal, Scalar::spec_one()),
        ({
            let bent = spec_refract(incident, normal, Scalar::spec_one());
            &&& -BEND_LIMIT <= bent.x.raw - incident.x.raw <= BEND_LIMIT
            &&& -BEND_LIMIT <= bent.y.raw - incident.y.raw <= BEND_LIMIT
            &&& -BEND_LIMIT <= bent.z.raw - incident.z.raw <= BEND_LIMIT
        }),
{
    let one = Scalar::spec_one();
    let eta = spec_eta(incident, normal, one);
    let cosi = spec_cos_positive(incident, normal);
    let c = cosi.raw as int;
    let k = spec_refraction_term(incident, normal, one);
    lemma_mul_by_unit(SCALE as int);
    assert(eta == one);
    assert(0 <= c <= SCALE);
    lemma_root_of_square(cosi);
    let c2 = cosi.spec_mul(cosi);
    assert(0 <= c2.raw <= SCALE) by {
        assert(0 <= c * c <= SCALE * SCALE) by (nonlinear_arith)
            requires
                0 <= c <= SCALE,
        ;
        lemma_product_within(c, c, SCALE as int);
        vstd::arithmetic::div_mod::lemma_div_pos_is_pos(c * c, SCALE as int);
    }
    lemma_mul_by_unit(SCALE - c2.raw);
    assert(one.spec_mul(one) == one);
    assert(one.spec_mul(one.spec_sub(c2)) == one.spec_sub(c2));
    assert(k == c2);
    lemma_mul_by_unit(c);
    assert(eta.spec_mul(cosi) == cosi);
    let bend = eta.spec_mul(cosi).spec_sub(k.spec_sqrt());
    assert(0 <= bend.raw <= BEND_LIMIT);
    let n = if spec_is_exiting(incident, normal) {
        normal.spec_neg()
    } else {
        normal
    };
    assert(within_unit(n));
    lemma_mul_by_unit(incident.x.raw as int);
    lemma_mul_by_unit(incident.y.raw as int);
    lemma_mul_by_unit(incident.z.raw as int);
    assert(incident.spec_scale(eta) == incident);
    lemma_bend_component(incident.x, n.x, bend);
    lemma_bend_component(incident.y, n.y, bend);
    lemma_bend_component(incident.z, n.z, bend);
}

} // verus!
