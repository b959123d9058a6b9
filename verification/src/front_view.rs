//! A box seen from the front.
//!
//! A box of edge one and a half stands at the origin, and a camera looks at
//! it from five units up the z axis, with the y axis upward. Whatever the
//! size of the image, up to ten thousand pixels each way:
//!
//! - the primary ray through the middle of an image strikes the front face
//!   of the box, for a perspective scale up to one, if the width and the
//!   height are even or the image has twelve rows or more
//!   ([`lemma_middle_pixel_hits`], [`lemma_middle_pixel_shows_the_box`]);
//! - the primary rays through the top and the bottom row of an image of
//!   four rows or more pass above and below the box, for a perspective scale
//!   from four tenths to one, and these pixels have the colour of the sky
//!   ([`lemma_edge_rows_are_sky`]).
//!
//! The bounds are needed. The rounding of the reciprocal of the width leaves
//! the middle ray a little off the axis, by an amount that grows with the
//! width; in an image of odd width or height the middle pixel lies half a
//! pixel off the middle, which is much in an image of few rows. In an image
//! of two rows the bottom row is the middle one, and with a narrow field of
//! view the box fills the image.

use vstd::prelude::*;
use crate::bvh::{brute_force_nearest, hits_of};
use crate::camera::Camera;
use crate::cube::Cube;
use crate::material::spec_vector3_to_color;
use crate::ray_intersect::nearest_of;
use crate::render::{RenderConfig, spec_primary_direction, spec_rendered_pixel, spec_screen_x,
    spec_screen_y};
use crate::shading::{SceneView, ShadingParams};
use crate::sky::spec_procedural_sky;
use crate::scalar::{Scalar, SCALE, trunc_div, floor_sqrt, is_floor_sqrt, lemma_floor_sqrt_unique,
    lemma_mul_by_unit, lemma_rounded_quotient, lemma_trunc_div_bound};
use crate::slab::{slab_far, slab_near, slab_root, spec_inverse_direction, lemma_slab_along,
    lemma_trunc_div_monotonic};
use crate::snell::lemma_floor_sqrt_exists;
use crate::vector::Vector3;

verus! {

/// Where the upper faces of the box lie on their axes, in raw units: at half
/// the edge.
pub const HALF_EDGE: i64 = 750_000_000;

/// Where the lower faces of the box lie on their axes, in raw units.
pub const LOWER_FACE: i64 = -750_000_000;

/// The distance of the eye from the centre of the box, in raw units.
pub const EYE_DISTANCE: i64 = 5_000_000_000;

/// The most that a steep direction has across the z axis, in raw units.
pub const STEEP_ACROSS: i64 = 100_000_000;

/// The least that a steep direction has down the z axis, in raw units.
pub const STEEP_ALONG: i64 = 990_000_000;

/// The box has its corners at three quarters below and above the origin on
/// each axis.
pub open spec fn is_front_box(cube: Cube) -> bool {
    &&& cube.min_bounds.x.raw == LOWER_FACE
    &&& cube.min_bounds.y.raw == LOWER_FACE
    &&& cube.min_bounds.z.raw == LOWER_FACE
    &&& cube.max_bounds.x.raw == HALF_EDGE
    &&& cube.max_bounds.y.raw == HALF_EDGE
    &&& cube.max_bounds.z.raw == HALF_EDGE
}

/// The box of edge one and a half around the origin is the box in front.
pub proof fn lemma_front_box(material: crate::material::Material)
    ensures
        is_front_box(
            Cube::spec_new(
                Vector3 { x: Scalar { raw: 0 }, y: Scalar { raw: 0 }, z: Scalar { raw: 0 } },
                Scalar { raw: 1_500_000_000 },
                material,
            ),
        ),
{
    let s = SCALE as int;
    let edge: int = 1_500_000_000;
    let half: int = 750_000_000;
    assert(edge * s == (2 * s) * half) by (nonlinear_arith)
        requires
            edge == 2 * half,
    ;
    vstd::arithmetic::div_mod::lemma_div_multiples_vanish(half, 2 * s);
    assert(trunc_div(edge * s, 2 * s) == half);
    assert(crate::cube::spec_half(Scalar { raw: 1_500_000_000 }).raw == half);
}

/// Where the eye stands: on the z axis, five units from the origin.
pub open spec fn front_eye() -> Vector3 {
    Vector3 { x: Scalar { raw: 0 }, y: Scalar { raw: 0 }, z: Scalar { raw: EYE_DISTANCE } }
}

/// The direction runs down the z axis, with no more than a tenth across it.
pub open spec fn is_steep(direction: Vector3) -> bool {
    &&& -STEEP_ACROSS <= direction.x.raw <= STEEP_ACROSS
    &&& -STEEP_ACROSS <= direction.y.raw <= STEEP_ACROSS
    &&& -SCALE <= direction.z.raw <= -STEEP_ALONG
}

/// The reciprocal of a scalar of at most a tenth in magnitude is ten or
/// more in magnitude, and has its sign.
proof fn lemma_recip_of_small(c: Scalar)
    requires
        -STEEP_ACROSS <= c.raw <= STEEP_ACROSS,
        c.raw != 0,
    ensures
        c.raw > 0 ==> 10 * SCALE <= c.spec_recip().raw <= SCALE * SCALE,
        c.raw < 0 ==> -(SCALE * SCALE) <= c.spec_recip().raw <= -10 * SCALE,
{
    let s = SCALE as int;
    let d = c.raw as int;
    let k = trunc_div(s * s, d);
    assert(s * s == 1_000_000_000_000_000_000) by (nonlinear_arith)
        requires
            s == 1_000_000_000,
    ;
    lemma_trunc_div_bound(s * s, d);
    lemma_rounded_quotient(s * s, d);
    if d > 0 {
        if k + 1 <= 10 * s {
            assert((k + 1) * d <= s * s) by (nonlinear_arith)
                requires
                    k + 1 <= 10 * s,
                    0 < d <= 100_000_000,
                    s == 1_000_000_000,
            ;
            assert((k + 1) * d == k * d + d) by (nonlinear_arith);
        }
    } else {
        if k - 1 >= -10 * s {
            assert((k - 1) * d <= s * s) by (nonlinear_arith)
                requires
                    k - 1 >= -10 * s,
                    -100_000_000 <= d < 0,
                    s == 1_000_000_000,
            ;
            assert((k - 1) * d == k * d - d) by (nonlinear_arith);
        }
    }
}

/// A product of raw values, rounded, is at least `bound` when the exact
/// product is at least `bound` wholes, and at most `bound` likewise.
proof fn lemma_rounded_product(a: int, b: int, bound: int)
    ensures
        a * b >= bound * SCALE ==> trunc_div(a * b, SCALE as int) >= bound,
        a * b <= bound * SCALE ==> trunc_div(a * b, SCALE as int) <= bound,
{
    lemma_mul_by_unit(bound);
    if a * b >= bound * SCALE {
        lemma_trunc_div_monotonic(bound * SCALE, a * b, SCALE as int);
    }
    if a * b <= bound * SCALE {
        lemma_trunc_div_monotonic(a * b, bound * SCALE, SCALE as int);
    }
}

/// A ray that starts in the middle between the side faces of the box and
/// has no more than a tenth across them is between them from seven and a
/// half units behind its origin to seven and a half ahead, or longer.
pub proof fn lemma_slab_beside(c: Scalar)
    requires
        -STEEP_ACROSS <= c.raw <= STEEP_ACROSS,
    ensures
        slab_near(
            Scalar { raw: LOWER_FACE },
            Scalar { raw: HALF_EDGE },
            Scalar { raw: 0 },
            c.spec_recip(),
        ).raw <= -7_500_000_000,
        slab_far(
            Scalar { raw: LOWER_FACE },
            Scalar { raw: HALF_EDGE },
            Scalar { raw: 0 },
            c.spec_recip(),
        ).raw >= 7_500_000_000,
{
    let lo = Scalar { raw: LOWER_FACE };
    let hi = Scalar { raw: HALF_EDGE };
    let origin = Scalar { raw: 0 };
    let inv = c.spec_recip();
    if c.raw == 0 {
        assert(c == Scalar::spec_zero());
        lemma_slab_along(lo, hi, origin);
    } else {
        lemma_recip_of_small(c);
        let k = inv.raw as int;
        let h = HALF_EDGE as int;
        assert(SCALE * SCALE == 1_000_000_000_000_000_000) by (nonlinear_arith)
            requires
                SCALE == 1_000_000_000,
        ;
        let low = slab_root(lo, origin, inv, false);
        let high = slab_root(hi, origin, inv, true);
        assert(low.raw == crate::scalar::raw_mul(-h, k));
        assert(high.raw == crate::scalar::raw_mul(h, k));
        if c.raw > 0 {
            assert(h * k >= 7_500_000_000 * SCALE && (-h) * k <= -7_500_000_000 * SCALE)
                by (nonlinear_arith)
                requires
                    h == 750_000_000,
                    k >= 10 * SCALE,
                    SCALE == 1_000_000_000,
            ;
        } else {
            assert(h * k <= -7_500_000_000 * SCALE && (-h) * k >= 7_500_000_000 * SCALE)
                by (nonlinear_arith)
                requires
                    h == 750_000_000,
                    k <= -10 * SCALE,
                    SCALE == 1_000_000_000,
            ;
        }
        lemma_rounded_product(h, k, 7_500_000_000);
        lemma_rounded_product(h, k, -7_500_000_000);
        lemma_rounded_product(-h, k, 7_500_000_000);
        lemma_rounded_product(-h, k, -7_500_000_000);
    }
}

/// A steep ray from the eye is between the front and the back face of the
/// box from a parameter of four and a quarter to four and three tenths up
/// to one of five and three quarters or more.
pub proof fn lemma_slab_ahead(c: Scalar)
    requires
        -SCALE <= c.raw <= -STEEP_ALONG,
    ensures
        4_250_000_000 <= slab_near(
            Scalar { raw: LOWER_FACE },
            Scalar { raw: HALF_EDGE },
            Scalar { raw: EYE_DISTANCE },
            c.spec_recip(),
        ).raw <= 4_300_000_000,
        slab_far(
            Scalar { raw: LOWER_FACE },
            Scalar { raw: HALF_EDGE },
            Scalar { raw: EYE_DISTANCE },
            c.spec_recip(),
        ).raw >= 5_750_000_000,
{
    let s = SCALE as int;
    let lo = Scalar { raw: LOWER_FACE };
    let hi = Scalar { raw: HALF_EDGE };
    let origin = Scalar { raw: EYE_DISTANCE };
    let inv = c.spec_recip();
    let d = c.raw as int;
    let k = trunc_div(s * s, d);
    assert(s * s == 1_000_000_000_000_000_000) by (nonlinear_arith)
        requires
            s == 1_000_000_000,
    ;
    lemma_rounded_quotient(s * s, d);
    if k >= -s + 1 {
        assert(k * d <= s * s + d) by (nonlinear_arith)
            requires
                k >= -s + 1,
                -s <= d < 0,
                s == 1_000_000_000,
        ;
    }
    if k <= -1_010_101_011 {
        assert(k * d > s * s) by (nonlinear_arith)
            requires
                k <= -1_010_101_011,
                d <= -990_000_000,
                s == 1_000_000_000,
        ;
    }
    assert(-1_010_101_010 <= k <= -s);
    assert(inv.raw == k);
    let low = slab_root(lo, origin, inv, false);
    let high = slab_root(hi, origin, inv, true);
    assert(low.raw == crate::scalar::raw_mul(-5_750_000_000, k));
    assert(high.raw == crate::scalar::raw_mul(-4_250_000_000, k));
    assert((-5_750_000_000) * k >= 5_750_000_000 * s) by (nonlinear_arith)
        requires
            k <= -s,
    ;
    assert(4_250_000_000 * s <= (-4_250_000_000) * k <= 4_300_000_000 * s) by (nonlinear_arith)
        requires
            -1_010_101_010 <= k <= -s,
            s == 1_000_000_000,
    ;
    lemma_rounded_product(-5_750_000_000, k, 5_750_000_000);
    lemma_rounded_product(-4_250_000_000, k, 4_250_000_000);
    lemma_rounded_product(-4_250_000_000, k, 4_300_000_000);
}

/// A steep ray from the eye strikes the front face of the box, at a
/// distance between four and a quarter and four and three tenths.
pub proof fn lemma_steep_ray_hits(cube: Cube, direction: Vector3)
    requires
        is_front_box(cube),
        is_steep(direction),
    ensures
        cube.spec_is_hit(front_eye(), direction),
        cube.spec_hit(front_eye(), direction).is_intersecting,
        4_250_000_000 <= cube.spec_hit(front_eye(), direction).distance.raw <= 4_300_000_000,
        cube.spec_hit(front_eye(), direction).normal == (Vector3 {
            x: Scalar { raw: 0 },
            y: Scalar { raw: 0 },
            z: Scalar { raw: SCALE },
        }),
{
    lemma_slab_beside(direction.x);
    lemma_slab_beside(direction.y);
    lemma_slab_ahead(direction.z);
    let inv = spec_inverse_direction(direction);
    let eye = front_eye();
    let near_x = slab_near(cube.min_bounds.x, cube.max_bounds.x, eye.x, inv.x);
    let near_y = slab_near(cube.min_bounds.y, cube.max_bounds.y, eye.y, inv.y);
    let near_z = slab_near(cube.min_bounds.z, cube.max_bounds.z, eye.z, inv.z);
    assert(cube.min_bounds.x == Scalar { raw: LOWER_FACE });
    assert(cube.min_bounds.y == Scalar { raw: LOWER_FACE });
    assert(cube.min_bounds.z == Scalar { raw: LOWER_FACE });
    assert(cube.max_bounds.x == Scalar { raw: HALF_EDGE });
    assert(cube.max_bounds.y == Scalar { raw: HALF_EDGE });
    assert(cube.max_bounds.z == Scalar { raw: HALF_EDGE });
    assert(cube.spec_entry(eye, direction) == near_z);
    assert(cube.spec_exit(eye, direction).raw >= 5_750_000_000);
    assert(cube.spec_hits_on_entry(eye, direction));
    assert(cube.spec_entry_axis(eye, direction) == 2);
}

/// A quotient `x * s / len` with `0 < s <= len`, rounded toward zero, is no
/// larger in magnitude than `x`.
proof fn lemma_quotient_within(x: int, s: int, len: int)
    requires
        0 < s <= len,
    ensures
        x >= 0 ==> 0 <= trunc_div(x * s, len) <= x,
        x <= 0 ==> x <= trunc_div(x * s, len) <= 0,
{
    if x >= 0 {
        assert(0 <= x * s <= x * len) by (nonlinear_arith)
            requires
                x >= 0,
                0 < s <= len,
        ;
        lemma_trunc_div_monotonic(0, x * s, len);
        lemma_trunc_div_monotonic(x * s, x * len, len);
        vstd::arithmetic::div_mod::lemma_div_multiples_vanish(x, len);
        assert(len * x == x * len) by (nonlinear_arith);
    } else {
        assert(x * len <= x * s <= 0) by (nonlinear_arith)
            requires
                x <= 0,
                0 < s <= len,
        ;
        lemma_trunc_div_monotonic(x * s, 0, len);
        lemma_trunc_div_monotonic(x * len, x * s, len);
        vstd::arithmetic::div_mod::lemma_div_multiples_vanish(-x, len);
        assert(len * (-x) == -(x * len)) by (nonlinear_arith);
    }
}

/// A vector that points down the z axis with no more than a tenth across
/// it is steep when it is scaled to unit length.
pub proof fn lemma_normalized_is_steep(p: Vector3)
    requires
        -STEEP_ACROSS <= p.x.raw <= STEEP_ACROSS,
        -STEEP_ACROSS <= p.y.raw <= STEEP_ACROSS,
        p.z.raw == -SCALE,
    ensures
        is_steep(p.spec_normalized()),
{
    let s = SCALE as int;
    let x = p.x.raw as int;
    let y = p.y.raw as int;
    let n = p.norm_squared();
    assert(0 <= x * x <= 10_000_000_000_000_000 && 0 <= y * y <= 10_000_000_000_000_000)
        by (nonlinear_arith)
        requires
            -100_000_000 <= x <= 100_000_000,
            -100_000_000 <= y <= 100_000_000,
    ;
    assert(s * s == 1_000_000_000_000_000_000) by (nonlinear_arith)
        requires
            s == 1_000_000_000,
    ;
    assert((-s) * (-s) == s * s) by (nonlinear_arith);
    assert(n == x * x + y * y + s * s);
    let top: int = 1_010_000_000;
    assert(top * top == 1_020_100_000_000_000_000) by (nonlinear_arith)
        requires
            top == 1_010_000_000,
    ;
    lemma_floor_sqrt_exists(n, top);
    let len = floor_sqrt(n);
    if len < s {
        assert((len + 1) * (len + 1) <= s * s) by (nonlinear_arith)
            requires
                0 <= len < s,
        ;
    }
    if len > top {
        assert(len * len > top * top) by (nonlinear_arith)
            requires
                len > top,
                top > 0,
        ;
    }
    assert(s <= len <= top);
    lemma_quotient_within(x, s, len);
    lemma_quotient_within(y, s, len);
    let q = (s * s) / len;
    assert((-s) * s == -(s * s)) by (nonlinear_arith);
    assert(trunc_div((-s) * s, len) == -q);
    lemma_rounded_quotient(s * s, len);
    assert(trunc_div(s * s, len) == q);
    if q > s {
        assert(q * len > s * s) by (nonlinear_arith)
            requires
                q > s,
                len >= s,
                s > 0,
        ;
    }
    if q < 990_000_000 {
        assert(q * len + len <= s * s) by (nonlinear_arith)
            requires
                q + 1 <= 990_000_000,
                0 < len <= 1_010_000_000,
                s == 1_000_000_000,
        ;
    }
}

/// The scalar zero, the scalar one and its negative multiply exactly.
proof fn lemma_unit_products(a: Scalar)
    requires
        -SCALE <= a.raw <= SCALE,
    ensures
        a.spec_mul(Scalar { raw: SCALE }) == a,
        a.spec_mul(Scalar { raw: 0 }).raw == 0,
        a.spec_mul(Scalar::spec_one().spec_neg()).raw == -a.raw,
        (Scalar { raw: 0 }).spec_mul(a).raw == 0,
{
    lemma_mul_by_unit(a.raw as int);
}

/// The camera that looks at the origin from the eye, with the y axis
/// upward, has the axes of the world as its basis: a vector of camera space
/// with components within one is the same vector in the world.
pub proof fn lemma_front_basis(camera: Camera, p: Vector3)
    requires
        camera.looks_from(
            front_eye(),
            Vector3 { x: Scalar { raw: 0 }, y: Scalar { raw: 0 }, z: Scalar { raw: 0 } },
            Vector3 { x: Scalar { raw: 0 }, y: Scalar { raw: SCALE }, z: Scalar { raw: 0 } },
        ),
        -SCALE <= p.x.raw <= SCALE,
        -SCALE <= p.y.raw <= SCALE,
        -SCALE <= p.z.raw <= SCALE,
    ensures
        camera.spec_basis_change(p) == p,
{
    let s = SCALE as int;
    let zero = Scalar { raw: 0 };
    let one = Scalar { raw: SCALE };
    let minus = Scalar::spec_one().spec_neg();
    let origin = Vector3 { x: zero, y: zero, z: zero };
    let hint = Vector3 { x: zero, y: one, z: zero };
    let toward = origin.spec_sub(front_eye());
    assert(s * s == 1_000_000_000_000_000_000) by (nonlinear_arith)
        requires
            s == 1_000_000_000,
    ;
    let far: int = 5_000_000_000;
    assert(toward.z.raw == -far && toward.x.raw == 0 && toward.y.raw == 0);
    assert((-far) * (-far) == far * far && far * far == 25 * (s * s) && (far + 1) * (far + 1)
        > far * far) by (nonlinear_arith)
        requires
            far == 5 * s,
            s > 0,
    ;
    assert(toward.norm_squared() == far * far);
    assert(is_floor_sqrt(far * far, far));
    lemma_floor_sqrt_exists(far * far, far);
    lemma_floor_sqrt_unique(far * far, far, floor_sqrt(far * far));
    assert(toward.exact_length() == far);
    assert((-far) * s == -(far * s) && far * s == far * s) by (nonlinear_arith);
    vstd::arithmetic::div_mod::lemma_div_multiples_vanish(s, far);
    assert(trunc_div((-far) * s, far) == -s);
    assert(trunc_div(0 * s, far) == 0) by (nonlinear_arith)
        requires
            far > 0,
    ;
    let forward = toward.spec_normalized();
    assert(forward == (Vector3 { x: zero, y: zero, z: minus }));
    lemma_unit_products(zero);
    lemma_unit_products(one);
    lemma_unit_products(minus);
    let side = forward.spec_cross(hint);
    assert(side == (Vector3 { x: one, y: zero, z: zero }));
    assert(side.norm_squared() == s * s);
    assert((s + 1) * (s + 1) > s * s) by (nonlinear_arith)
        requires
            s > 0,
    ;
    assert(is_floor_sqrt(s * s, s));
    lemma_floor_sqrt_exists(s * s, s);
    lemma_floor_sqrt_unique(s * s, s, floor_sqrt(s * s));
    vstd::arithmetic::div_mod::lemma_div_multiples_vanish(s, s);
    assert(trunc_div(s * s, s) == s);
    assert(trunc_div(0 * s, s) == 0) by (nonlinear_arith)
        requires
            s > 0,
    ;
    let right = side.spec_normalized();
    assert(right == (Vector3 { x: one, y: zero, z: zero }));
    let up = right.spec_cross(forward);
    assert(up == (Vector3 { x: zero, y: one, z: zero }));
    assert(camera.forward == forward && camera.right == right && camera.up == up);
    lemma_unit_products(p.x);
    lemma_unit_products(p.y);
    lemma_unit_products(p.z);
}

/// `column` and `row` name the pixel in the middle of an image of `width`
/// by `height` pixels, each between two and ten thousand: half the width and
/// half the height, rounded down. An image of odd width or height has twelve
/// rows or more.
pub open spec fn is_middle(width: i32, height: i32, column: i32, row: i32) -> bool {
    &&& 2 <= width <= 10_000
    &&& 2 <= height <= 10_000
    &&& width - 1 <= 2 * column <= width
    &&& height - 1 <= 2 * row <= height
    &&& ((2 * column == width && 2 * row == height) || height >= 12)
}

/// What the place in the middle of `count` columns or rows falls short of
/// one, `gap`, is not negative; times the count it is at most one and the
/// square of the count, and for an even count the gap is at most the count.
proof fn lemma_middle_gap(count: int, place: int, gap: int, part: int)
    requires
        2 <= count <= 10_000,
        count - 1 <= 2 * place <= count,
        2 * place * (SCALE - count) <= part * count <= 2 * place * SCALE,
        gap == SCALE - part,
    ensures
        0 <= gap,
        gap * count <= SCALE + count * count,
        2 * place == count ==> gap <= count,
{
    let s = SCALE as int;
    assert(part * count + gap * count == s * count) by (nonlinear_arith)
        requires
            gap == s - part,
    ;
    assert(2 * place * s <= count * s) by (nonlinear_arith)
        requires
            2 * place <= count,
            s > 0,
    ;
    assert(gap >= 0) by (nonlinear_arith)
        requires
            gap * count >= 0,
            count > 0,
    ;
    assert(2 * place * (s - count) >= (count - 1) * (s - count)) by (nonlinear_arith)
        requires
            2 * place >= count - 1,
            s - count > 0,
    ;
    assert((count - 1) * (s - count) == count * s - s - count * count + count)
        by (nonlinear_arith);
    if 2 * place == count {
        assert(2 * place * (s - count) == count * s - count * count) by (nonlinear_arith)
            requires
                2 * place == count,
        ;
        assert(gap <= count) by (nonlinear_arith)
            requires
                gap * count <= count * count,
                count > 0,
        ;
    }
}

/// The screen coordinates of the pixel in the middle of an image are small:
/// for a perspective scale of at most one, both are within a tenth.
pub proof fn lemma_middle_of_screen(
    width: i32,
    height: i32,
    column: i32,
    row: i32,
    perspective_scale: Scalar,
)
    requires
        is_middle(width, height, column, row),
        0 <= perspective_scale.raw <= SCALE,
    ensures
        ({
            let config = RenderConfig::spec_new(width, height, perspective_scale);
            &&& -STEEP_ACROSS <= spec_screen_x(column, config).raw <= 0
            &&& 0 <= spec_screen_y(row, config).raw <= STEEP_ACROSS
        }),
{
    let s = SCALE as int;
    let config = RenderConfig::spec_new(width, height, perspective_scale);
    let k = perspective_scale.raw as int;
    let w = width as int;
    let h = height as int;
    lemma_place(w, column as int);
    lemma_place(h, row as int);
    let across = Scalar::spec_from_int(2).spec_mul(Scalar::spec_from_int(column)).spec_mul(
        config.inv_width,
    ).spec_sub(Scalar::spec_one());
    let down = Scalar::spec_one().spec_sub(
        Scalar::spec_from_int(2).spec_mul(Scalar::spec_from_int(row)).spec_mul(config.inv_height),
    );
    let left = -across.raw as int;
    let b = down.raw as int;
    lemma_middle_gap(w, column as int, left, s - left);
    lemma_middle_gap(h, row as int, b, s - b);
    let aspect = config.aspect_ratio.raw as int;
    assert(s * s == 1_000_000_000_000_000_000) by (nonlinear_arith)
        requires
            s == 1_000_000_000,
    ;
    assert(0 <= (w * s) * s <= 10_000 * (s * s) && 2 * s <= h * s <= 10_000 * s)
        by (nonlinear_arith)
        requires
            2 <= w <= 10_000,
            2 <= h <= 10_000,
            s == 1_000_000_000,
    ;
    let ratio = trunc_div((w * s) * s, h * s);
    lemma_trunc_div_bound((w * s) * s, h * s);
    lemma_rounded_quotient((w * s) * s, h * s);
    crate::slab::lemma_trunc_div_sign((w * s) * s, h * s);
    if ratio > 5_000 * s {
        assert(ratio * (h * s) > (w * s) * s) by (nonlinear_arith)
            requires
                ratio > 5_000 * s,
                h >= 2,
                w <= 10_000,
                s == 1_000_000_000,
        ;
    }
    assert(aspect == ratio);
    assert(aspect * h <= w * s) by (nonlinear_arith)
        requires
            aspect * (h * s) <= (w * s) * s,
            s > 0,
    ;
    let product = left * aspect;
    assert(0 <= product) by (nonlinear_arith)
        requires
            product == left * aspect,
            left >= 0,
            aspect >= 0,
    ;
    if 2 * column == width {
        assert(product * h <= 10_000 * (10_000 * s)) by (nonlinear_arith)
            requires
                product == left * aspect,
                0 <= left <= w,
                w <= 10_000,
                0 <= aspect,
                aspect * h <= w * s,
                h > 0,
                s > 0,
        ;
        assert(product <= 50_000_000 * s) by (nonlinear_arith)
            requires
                product * h <= 10_000 * (10_000 * s),
                h >= 2,
                product >= 0,
                s == 1_000_000_000,
        ;
    } else {
        assert(w * w <= 100_000_000) by (nonlinear_arith)
            requires
                2 <= w <= 10_000,
        ;
        assert((left * w) * (aspect * h) <= 1_100_000_000 * (w * s)) by (nonlinear_arith)
            requires
                0 <= left * w <= 1_100_000_000,
                0 <= aspect * h <= w * s,
        ;
        assert((left * w) * (aspect * h) == (product * h) * w) by (nonlinear_arith)
            requires
                product == left * aspect,
        ;
        assert(1_100_000_000 * (w * s) == (1_100_000_000 * s) * w) by (nonlinear_arith);
        assert(product * h <= 1_100_000_000 * s) by (nonlinear_arith)
            requires
                (product * h) * w <= (1_100_000_000 * s) * w,
                w > 0,
        ;
        assert(product <= 100_000_000 * s) by (nonlinear_arith)
            requires
                product * h <= 1_100_000_000 * s,
                h >= 12,
                product >= 0,
                s == 1_000_000_000,
        ;
    }
    let a = across.raw as int;
    assert(a * aspect == -product) by (nonlinear_arith)
        requires
            product == left * aspect,
            left == -a,
    ;
    assert(0 * s == 0 && -100_000_000 * s == -(100_000_000 * s)) by (nonlinear_arith);
    lemma_rounded_product(a, aspect, -100_000_000);
    lemma_rounded_product(a, aspect, 0);
    let wide = across.spec_mul(config.aspect_ratio).raw as int;
    assert(-100_000_000 <= wide <= 0);
    assert(-100_000_000 * s <= wide * k <= 0 * s) by (nonlinear_arith)
        requires
            -100_000_000 <= wide <= 0,
            0 <= k <= s,
            s == 1_000_000_000,
    ;
    lemma_rounded_product(wide, k, -100_000_000);
    lemma_rounded_product(wide, k, 0);
    if 2 * row != height {
        assert(h * h <= 100_000_000) by (nonlinear_arith)
            requires
                2 <= h <= 10_000,
        ;
        assert(b <= 100_000_000) by (nonlinear_arith)
            requires
                b * h <= 1_100_000_000,
                h >= 12,
                b >= 0,
        ;
    }
    assert(0 * s <= b * k <= 100_000_000 * s) by (nonlinear_arith)
        requires
            0 <= b <= 100_000_000,
            0 <= k <= s,
            s == 1_000_000_000,
    ;
    lemma_rounded_product(b, k, 0);
    lemma_rounded_product(b, k, 100_000_000);
}

/// The primary ray through the pixel in the middle of the image strikes the
/// front face of the box, at a distance between four and a quarter and four
/// and three tenths: for every image between two and ten thousand pixels
/// each way, of even width and height or of twelve rows or more, and every
/// perspective scale from zero to one.
pub proof fn lemma_middle_pixel_hits(
    cube: Cube,
    camera: Camera,
    width: i32,
    height: i32,
    column: i32,
    row: i32,
    perspective_scale: Scalar,
)
    requires
        is_front_box(cube),
        camera.looks_from(
            front_eye(),
            Vector3 { x: Scalar { raw: 0 }, y: Scalar { raw: 0 }, z: Scalar { raw: 0 } },
            Vector3 { x: Scalar { raw: 0 }, y: Scalar { raw: SCALE }, z: Scalar { raw: 0 } },
        ),
        is_middle(width, height, column, row),
        0 <= perspective_scale.raw <= SCALE,
    ensures
        ({
            let config = RenderConfig::spec_new(width, height, perspective_scale);
            let direction = spec_primary_direction(column, row, camera, config);
            let hit = cube.spec_hit(camera.eye, direction);
            &&& is_steep(direction)
            &&& hit.is_intersecting
            &&& 4_250_000_000 <= hit.distance.raw <= 4_300_000_000
            &&& hit.normal == (Vector3 {
                x: Scalar { raw: 0 },
                y: Scalar { raw: 0 },
                z: Scalar { raw: SCALE },
            })
        }),
{
    let config = RenderConfig::spec_new(width, height, perspective_scale);
    lemma_middle_of_screen(width, height, column, row, perspective_scale);
    let through = Vector3 {
        x: spec_screen_x(column, config),
        y: spec_screen_y(row, config),
        z: Scalar::spec_one().spec_neg(),
    };
    lemma_normalized_is_steep(through);
    let unit = through.spec_normalized();
    lemma_front_basis(camera, unit);
    lemma_steep_ray_hits(cube, unit);
}

/// The direction runs down the z axis and rises or falls by eighteen
/// hundredths or more of what it advances: more than the box subtends at
/// the eye.
pub open spec fn is_sloping(direction: Vector3) -> bool {
    &&& -SCALE <= direction.z.raw <= -100
    &&& -SCALE <= direction.y.raw <= SCALE
    &&& (100 * direction.y.raw >= -18 * direction.z.raw || -100 * direction.y.raw >= -18
        * direction.z.raw)
}

/// Where a sloping ray from the eye leaves the slab between the lower and
/// the upper face of the box: the parameter is not negative, and its
/// product with the slope is at most the half edge.
proof fn lemma_slab_left(c: Scalar, slope: int)
    requires
        0 < slope <= SCALE,
        c.raw == slope || c.raw == -slope,
    ensures
        ({
            let far = slab_far(
                Scalar { raw: LOWER_FACE },
                Scalar { raw: HALF_EDGE },
                Scalar { raw: 0 },
                c.spec_recip(),
            );
            0 <= far.raw && far.raw * slope <= HALF_EDGE * SCALE
        }),
{
    let s = SCALE as int;
    let h = HALF_EDGE as int;
    let lo = Scalar { raw: LOWER_FACE };
    let hi = Scalar { raw: HALF_EDGE };
    let origin = Scalar { raw: 0 };
    let inv = c.spec_recip();
    let d = c.raw as int;
    let k = trunc_div(s * s, d);
    assert(s * s == 1_000_000_000_000_000_000) by (nonlinear_arith)
        requires
            s == 1_000_000_000,
    ;
    lemma_trunc_div_bound(s * s, d);
    lemma_rounded_quotient(s * s, d);
    assert(inv.raw == k);
    let low = slab_root(lo, origin, inv, false);
    let high = slab_root(hi, origin, inv, true);
    assert(low.raw == crate::scalar::raw_mul(-h, k));
    assert(high.raw == crate::scalar::raw_mul(h, k));
    // the magnitude of the reciprocal
    let m = if d > 0 {
        k
    } else {
        -k
    };
    if d > 0 {
        crate::slab::lemma_trunc_div_sign(s * s, d);
        assert(m * slope <= s * s);
    } else {
        assert(k <= 0) by (nonlinear_arith)
            requires
                0 <= s * s - k * d < -d,
                d < 0,
                s * s >= 0,
        ;
        assert(m * slope == k * d) by (nonlinear_arith)
            requires
                m == -k,
                slope == -d,
        ;
    }
    assert(0 <= m <= s * s);
    let far = trunc_div(h * m, s);
    assert(0 <= h * m <= h * (s * s)) by (nonlinear_arith)
        requires
            0 <= m <= s * s,
            h > 0,
    ;
    crate::slab::lemma_trunc_div_sign(h * m, s);
    lemma_rounded_quotient(h * m, s);
    lemma_trunc_div_bound(h * m, s);
    assert(far <= 750_000_000_000_000_000) by (nonlinear_arith)
        requires
            far * s <= h * m,
            h * m <= h * (s * s),
            h == 750_000_000,
            s == 1_000_000_000,
    ;
    assert((-h) * m == -(h * m) && h * (-m) == -(h * m) && (-h) * (-m) == h * m)
        by (nonlinear_arith);
    assert(trunc_div(-(h * m), s) == -far);
    assert(low.raw == far || low.raw == -far);
    assert(high.raw == far || high.raw == -far);
    assert(low.raw == -high.raw);
    assert(slab_far(lo, hi, origin, inv).raw == far);
    assert(far * slope <= h * s) by (nonlinear_arith)
        requires
            far * s <= h * m,
            m * slope <= s * s,
            0 <= far,
            0 <= m,
            0 < slope,
            0 < s,
            0 < h,
    ;
}

/// Where a ray from the eye that advances by `advance` enters the slab
/// between the front and the back face of the box: the parameter is not
/// negative, and four times its product with the advance exceeds seventeen
/// times the square of the scale less twenty-one times the advance.
proof fn lemma_slab_reached(c: Scalar, advance: int)
    requires
        100 <= advance <= SCALE,
        c.raw == -advance,
    ensures
        ({
            let near = slab_near(
                Scalar { raw: LOWER_FACE },
                Scalar { raw: HALF_EDGE },
                Scalar { raw: EYE_DISTANCE },
                c.spec_recip(),
            );
            0 <= near.raw && 4 * (near.raw * advance) > 17 * (SCALE * SCALE) - 21 * advance
        }),
{
    let s = SCALE as int;
    let lo = Scalar { raw: LOWER_FACE };
    let hi = Scalar { raw: HALF_EDGE };
    let origin = Scalar { raw: EYE_DISTANCE };
    let inv = c.spec_recip();
    let d = c.raw as int;
    let k = trunc_div(s * s, d);
    assert(s * s == 1_000_000_000_000_000_000) by (nonlinear_arith)
        requires
            s == 1_000_000_000,
    ;
    lemma_trunc_div_bound(s * s, d);
    lemma_rounded_quotient(s * s, d);
    assert(k <= 0) by (nonlinear_arith)
        requires
            0 <= s * s - k * d < -d,
            d < 0,
            s * s >= 0,
    ;
    let u = -k;
    assert(u * advance == k * d) by (nonlinear_arith)
        requires
            u == -k,
            advance == -d,
    ;
    assert(u <= 10_000_000_000_000_000) by (nonlinear_arith)
        requires
            u * advance <= s * s,
            advance >= 100,
            s * s == 1_000_000_000_000_000_000,
            u >= 0,
    ;
    assert(inv.raw == k);
    let low = slab_root(lo, origin, inv, false);
    let high = slab_root(hi, origin, inv, true);
    assert(low.raw == crate::scalar::raw_mul(-5_750_000_000, k));
    assert(high.raw == crate::scalar::raw_mul(-4_250_000_000, k));
    assert((-5_750_000_000) * k == 5_750_000_000 * u && (-4_250_000_000) * k == 4_250_000_000
        * u) by (nonlinear_arith)
        requires
            u == -k,
    ;
    assert(0 <= 4_250_000_000 * u <= 5_750_000_000 * u && 5_750_000_000 * u
        <= 57_500_000_000_000_000_000_000_000) by (nonlinear_arith)
        requires
            0 <= u <= 10_000_000_000_000_000,
    ;
    let t = trunc_div(4_250_000_000 * u, s);
    let further = trunc_div(5_750_000_000 * u, s);
    lemma_trunc_div_monotonic(4_250_000_000 * u, 5_750_000_000 * u, s);
    lemma_trunc_div_monotonic(0, 4_250_000_000 * u, s);
    lemma_rounded_quotient(4_250_000_000 * u, s);
    lemma_rounded_quotient(5_750_000_000 * u, s);
    assert(further <= 57_500_000_000_000_000) by (nonlinear_arith)
        requires
            further * s <= 5_750_000_000 * u,
            5_750_000_000 * u <= 57_500_000_000_000_000_000_000_000,
            s == 1_000_000_000,
    ;
    assert(high.raw == t && low.raw == further);
    assert(slab_near(lo, hi, origin, inv).raw == t);
    assert(4 * (t * advance) > 17 * (s * s) - 21 * advance) by (nonlinear_arith)
        requires
            4_250_000_000 * u - t * s < s,
            u * advance > s * s - advance,
            s == 1_000_000_000,
            advance > 0,
            t >= 0,
            u >= 0,
    ;
}

/// A sloping ray from the eye passes above or below the box.
pub proof fn lemma_sloping_ray_misses(cube: Cube, direction: Vector3)
    requires
        is_front_box(cube),
        is_sloping(direction),
    ensures
        !cube.spec_is_hit(front_eye(), direction),
        cube.spec_hit(front_eye(), direction) == crate::ray_intersect::Intersect::spec_empty(),
{
    let s = SCALE as int;
    let eye = front_eye();
    let inv = spec_inverse_direction(direction);
    let advance = -direction.z.raw as int;
    let slope = if direction.y.raw >= 0 {
        direction.y.raw as int
    } else {
        -direction.y.raw as int
    };
    assert(100 * slope >= 18 * advance);
    lemma_slab_left(direction.y, slope);
    lemma_slab_reached(direction.z, advance);
    assert(cube.min_bounds.y == Scalar { raw: LOWER_FACE });
    assert(cube.min_bounds.z == Scalar { raw: LOWER_FACE });
    assert(cube.max_bounds.y == Scalar { raw: HALF_EDGE });
    assert(cube.max_bounds.z == Scalar { raw: HALF_EDGE });
    let far = slab_far(cube.min_bounds.y, cube.max_bounds.y, eye.y, inv.y).raw as int;
    let near = slab_near(cube.min_bounds.z, cube.max_bounds.z, eye.z, inv.z).raw as int;
    assert(s * s == 1_000_000_000_000_000_000) by (nonlinear_arith)
        requires
            s == 1_000_000_000,
    ;
    if far >= near {
        assert(100 * (far * slope) >= 18 * (near * advance)) by (nonlinear_arith)
            requires
                far >= near,
                near >= 0,
                100 * slope >= 18 * advance,
                advance > 0,
                slope > 0,
        ;
    }
    assert(far < near);
    assert(cube.spec_entry(eye, direction).raw >= near);
    assert(cube.spec_exit(eye, direction).raw <= far);
}

/// A component that is no longer than the vector has at most the magnitude
/// one when the vector is scaled to unit length, and keeps its sign.
proof fn lemma_unit_component_within(c: int, len: int)
    requires
        0 < len,
        -len <= c <= len,
    ensures
        c >= 0 ==> 0 <= crate::vector::unit_component(c, len) <= SCALE,
        c <= 0 ==> -SCALE <= crate::vector::unit_component(c, len) <= 0,
{
    let s = SCALE as int;
    if c > 0 {
        lemma_quotient_within(s, c, len);
        assert(s * c == c * s) by (nonlinear_arith);
    } else if c < 0 {
        lemma_quotient_within(s, -c, len);
        assert(s * (-c) == -(c * s)) by (nonlinear_arith);
    } else {
        assert(0 * s == 0) by (nonlinear_arith);
    }
}

/// A vector that points down the z axis and has nineteen hundredths or more
/// upward or downward is sloping when it is scaled to unit length.
pub proof fn lemma_normalized_is_sloping(p: Vector3)
    requires
        -2_500_000_000_000 <= p.x.raw <= 2_500_000_000_000,
        190_000_000 <= p.y.raw <= SCALE || -SCALE <= p.y.raw <= -190_000_000,
        p.z.raw == -SCALE,
    ensures
        is_sloping(p.spec_normalized()),
        -SCALE <= p.spec_normalized().x.raw <= SCALE,
{
    let s = SCALE as int;
    let x = p.x.raw as int;
    let y = p.y.raw as int;
    let n = p.norm_squared();
    assert(0 <= x * x <= 6_250_000_000_000_000_000_000_000 && 0 <= y * y
        <= 1_000_000_000_000_000_000) by (nonlinear_arith)
        requires
            -2_500_000_000_000 <= x <= 2_500_000_000_000,
            -1_000_000_000 <= y <= 1_000_000_000,
    ;
    assert(s * s == 1_000_000_000_000_000_000) by (nonlinear_arith)
        requires
            s == 1_000_000_000,
    ;
    assert((-s) * (-s) == s * s) by (nonlinear_arith);
    assert(n == x * x + y * y + s * s);
    let top: int = 2_501_000_000_000;
    assert(top * top == 6_255_001_000_000_000_000_000_000) by (nonlinear_arith)
        requires
            top == 2_501_000_000_000,
    ;
    lemma_floor_sqrt_exists(n, top);
    let len = floor_sqrt(n);
    if len < s {
        assert((len + 1) * (len + 1) <= s * s) by (nonlinear_arith)
            requires
                0 <= len < s,
        ;
    }
    if len > top {
        assert(len * len > top * top) by (nonlinear_arith)
            requires
                len > top,
                top > 0,
        ;
    }
    assert(s <= len <= top);
    crate::vector::lemma_length_dominates(x, y, -s, len);
    lemma_unit_component_within(x, len);
    lemma_unit_component_within(y, len);
    // what the unit vector advances
    let q = (s * s) / len;
    assert((-s) * s == -(s * s)) by (nonlinear_arith);
    assert(trunc_div((-s) * s, len) == -q);
    lemma_rounded_quotient(s * s, len);
    assert(trunc_div(s * s, len) == q);
    if q > s {
        assert(q * len > s * s) by (nonlinear_arith)
            requires
                q > s,
                len >= s,
                s > 0,
        ;
    }
    if q < 100 {
        assert(q * len + len <= s * s) by (nonlinear_arith)
            requires
                q + 1 <= 100,
                0 < len <= 2_501_000_000_000,
                s == 1_000_000_000,
        ;
    }
    // what it rises or falls
    let rise = if y >= 0 {
        y
    } else {
        -y
    };
    let t = trunc_div(rise * s, len);
    assert(0 <= rise * s) by (nonlinear_arith)
        requires
            rise >= 0,
            s > 0,
    ;
    lemma_rounded_quotient(rise * s, len);
    assert(y * s == rise * s || y * s == -(rise * s)) by (nonlinear_arith)
        requires
            rise == y || rise == -y,
    ;
    assert(crate::vector::unit_component(y, len) == if y >= 0 {
        t
    } else {
        -t
    });
    assert(100 * (t * len) > 18 * (q * len)) by (nonlinear_arith)
        requires
            rise * s - t * len < len,
            rise >= 190_000_000,
            q * len <= s * s,
            q >= 100,
            len > 0,
            s == 1_000_000_000,
    ;
    assert(100 * t >= 18 * q) by (nonlinear_arith)
        requires
            100 * (t * len) > 18 * (q * len),
            len > 0,
    ;
}

/// Twice the place of a column or row, as a scalar, times the rounded
/// reciprocal of the number of columns or rows: between nothing and two,
/// and short of twice the place over the number by no more than two raw
/// units for each place.
proof fn lemma_place(count: int, place: int)
    requires
        1 <= count <= 10_000,
        0 <= place < count,
    ensures
        ({
            let part = Scalar::spec_from_int(2).spec_mul(
                Scalar::spec_from_int(place as i32),
            ).spec_mul(Scalar::spec_from_int(count as i32).spec_recip());
            &&& 0 <= part.raw <= 2 * SCALE
            &&& 2 * place * (SCALE - count) <= part.raw * count <= 2 * place * SCALE
        }),
{
    let s = SCALE as int;
    let two = Scalar::spec_from_int(2);
    let at = Scalar::spec_from_int(place as i32);
    let whole = Scalar::spec_from_int(count as i32);
    assert(two.raw == 2 * s);
    assert(at.raw == place * s && whole.raw == count * s) by (nonlinear_arith)
        requires
            0 <= place <= 10_000,
            1 <= count <= 10_000,
            s == 1_000_000_000,
            at.raw == ((place as i32) as int * s) as i64,
            whole.raw == ((count as i32) as int * s) as i64,
    ;
    assert((2 * s) * (place * s) == ((2 * place) * s) * s) by (nonlinear_arith);
    lemma_mul_by_unit((2 * place) * s);
    assert(0 <= (2 * place) * s <= 20_000 * s) by (nonlinear_arith)
        requires
            0 <= place <= 10_000,
            s > 0,
    ;
    let twice = two.spec_mul(at);
    assert(twice.raw == (2 * place) * s);
    assert(s * s == 1_000_000_000_000_000_000) by (nonlinear_arith)
        requires
            s == 1_000_000_000,
    ;
    assert(s <= count * s <= 10_000 * s) by (nonlinear_arith)
        requires
            1 <= count <= 10_000,
            s > 0,
    ;
    let inv = trunc_div(s * s, count * s);
    lemma_trunc_div_bound(s * s, count * s);
    lemma_rounded_quotient(s * s, count * s);
    crate::slab::lemma_trunc_div_sign(s * s, count * s);
    assert(whole.spec_recip().raw == inv);
    assert(inv * (count * s) == (count * inv) * s) by (nonlinear_arith);
    assert(s - count < count * inv <= s) by (nonlinear_arith)
        requires
            0 <= s * s - (count * inv) * s < count * s,
            s > 0,
    ;
    assert(0 <= inv <= s) by (nonlinear_arith)
        requires
            count * inv <= s,
            count >= 1,
            inv >= 0,
    ;
    let exact = (2 * place) * inv;
    assert(((2 * place) * s) * inv == exact * s) by (nonlinear_arith)
        requires
            exact == (2 * place) * inv,
    ;
    lemma_mul_by_unit(exact);
    assert(0 <= exact && exact * count == (2 * place) * (count * inv)) by (nonlinear_arith)
        requires
            exact == (2 * place) * inv,
            place >= 0,
            inv >= 0,
    ;
    assert(2 * place * (s - count) <= (2 * place) * (count * inv) <= 2 * place * s)
        by (nonlinear_arith)
        requires
            s - count < count * inv <= s,
            place >= 0,
    ;
    if exact > 2 * s {
        assert(exact * count > 2 * place * s) by (nonlinear_arith)
            requires
                exact > 2 * s,
                0 <= place < count,
                s > 0,
        ;
    }
}

/// The screen coordinates of a pixel in the top or the bottom row of an
/// image: for an image of four to ten thousand rows and up to ten thousand
/// columns, and a perspective scale between four tenths and one, the pixel
/// lies nineteen hundredths or more above or below the middle, and no more
/// than two thousand five hundred beside it.
pub proof fn lemma_edge_of_screen(
    width: i32,
    height: i32,
    column: i32,
    row: i32,
    perspective_scale: Scalar,
)
    requires
        1 <= width <= 10_000,
        4 <= height <= 10_000,
        0 <= column < width,
        row == 0 || row == height - 1,
        400_000_000 <= perspective_scale.raw <= SCALE,
    ensures
        ({
            let config = RenderConfig::spec_new(width, height, perspective_scale);
            let across = spec_screen_x(column, config).raw;
            let down = spec_screen_y(row, config).raw;
            &&& -2_500_000_000_000 <= across <= 2_500_000_000_000
            &&& (190_000_000 <= down <= SCALE || -SCALE <= down <= -190_000_000)
        }),
{
    let s = SCALE as int;
    let config = RenderConfig::spec_new(width, height, perspective_scale);
    let k = perspective_scale.raw as int;
    let w = width as int;
    let h = height as int;
    lemma_place(w, column as int);
    lemma_place(h, row as int);
    let across = Scalar::spec_from_int(2).spec_mul(Scalar::spec_from_int(column)).spec_mul(
        config.inv_width,
    ).spec_sub(Scalar::spec_one());
    let down = Scalar::spec_one().spec_sub(
        Scalar::spec_from_int(2).spec_mul(Scalar::spec_from_int(row)).spec_mul(config.inv_height),
    );
    let a = across.raw as int;
    let b = down.raw as int;
    assert(-s <= a <= s);
    assert(s * s == 1_000_000_000_000_000_000) by (nonlinear_arith)
        requires
            s == 1_000_000_000,
    ;
    // the aspect ratio is at most two thousand five hundred
    assert(0 <= (w * s) * s <= 10_000 * (s * s) && 4 * s <= h * s <= 10_000 * s)
        by (nonlinear_arith)
        requires
            1 <= w <= 10_000,
            4 <= h <= 10_000,
            s == 1_000_000_000,
    ;
    let aspect = trunc_div((w * s) * s, h * s);
    lemma_trunc_div_bound((w * s) * s, h * s);
    lemma_rounded_quotient((w * s) * s, h * s);
    crate::slab::lemma_trunc_div_sign((w * s) * s, h * s);
    if aspect > 2_500 * s {
        assert(aspect * (h * s) > (w * s) * s) by (nonlinear_arith)
            requires
                aspect > 2_500 * s,
                h >= 4,
                w <= 10_000,
                s == 1_000_000_000,
        ;
    }
    assert(config.aspect_ratio.raw == aspect);
    assert(-2_500_000_000_000 * s <= a * aspect <= 2_500_000_000_000 * s) by (nonlinear_arith)
        requires
            -s <= a <= s,
            0 <= aspect <= 2_500 * s,
            s == 1_000_000_000,
    ;
    lemma_rounded_product(a, aspect, -2_500_000_000_000);
    lemma_rounded_product(a, aspect, 2_500_000_000_000);
    let wide = across.spec_mul(config.aspect_ratio).raw as int;
    assert(-2_500_000_000_000 <= wide <= 2_500_000_000_000);
    assert(-2_500_000_000_000 * s <= wide * k <= 2_500_000_000_000 * s) by (nonlinear_arith)
        requires
            -2_500_000_000_000 <= wide <= 2_500_000_000_000,
            0 <= k <= s,
            s == 1_000_000_000,
    ;
    lemma_rounded_product(wide, k, -2_500_000_000_000);
    lemma_rounded_product(wide, k, 2_500_000_000_000);
    if row == 0 {
        let part = s - b;
        assert(part == 0) by (nonlinear_arith)
            requires
                0 <= part * h <= 0,
                h > 0,
        ;
        lemma_mul_by_unit(k);
    } else {
        let part = s - b;
        assert(part * h + b * h == s * h) by (nonlinear_arith)
            requires
                part == s - b,
        ;
        assert(-s * h <= b * h <= -499_980_000 * h) by (nonlinear_arith)
            requires
                2 * (h - 1) * (s - h) <= part * h <= 2 * (h - 1) * s,
                part * h + b * h == s * h,
                4 <= h <= 10_000,
                s == 1_000_000_000,
        ;
        assert(-s <= b <= -499_980_000) by (nonlinear_arith)
            requires
                -s * h <= b * h <= -499_980_000 * h,
                h > 0,
        ;
        assert(-s * s <= b * k <= -190_000_000 * s) by (nonlinear_arith)
            requires
                -s <= b <= -499_980_000,
                400_000_000 <= k <= s,
                s == 1_000_000_000,
        ;
        lemma_rounded_product(b, k, -1_000_000_000);
        lemma_rounded_product(b, k, -190_000_000);
    }
}

/// In a scene of one box the nearest hit of a ray is its hit on that box.
pub proof fn lemma_single_box_nearest(scene: SceneView, origin: Vector3, direction: Vector3)
    requires
        scene.cubes.len() == 1,
        scene.leaves.len() == 1,
        scene.leaves[0] == 0,
    ensures
        brute_force_nearest(scene.cubes, scene.leaves, origin, direction)
            == scene.cubes[0].spec_hit(origin, direction),
{
    let hits = hits_of(scene.cubes, scene.leaves, origin, direction);
    assert(hits.len() == 1);
    assert(hits.drop_last().len() == 0);
    assert(nearest_of(hits.drop_last()) == crate::ray_intersect::Intersect::spec_empty());
    assert(hits.last() == scene.cubes[0].spec_hit(origin, direction));
    assert(nearest_of(hits) == nearest_of(hits.drop_last()).spec_nearer(hits.last()));
}

/// The top and the bottom row of an image of the box show nothing but sky:
/// for every image of four to ten thousand rows and up to ten thousand
/// columns, and every perspective scale between four tenths and one, the
/// primary ray through a pixel of these rows passes the box, and the pixel
/// has the colour of the sky in the direction of that ray. The four corners
/// of the image are among these pixels.
pub proof fn lemma_edge_rows_are_sky(
    scene: SceneView,
    camera: Camera,
    width: i32,
    height: i32,
    column: i32,
    row: i32,
    perspective_scale: Scalar,
    params: ShadingParams,
)
    requires
        scene.cubes.len() == 1,
        scene.leaves.len() == 1,
        scene.leaves[0] == 0,
        is_front_box(scene.cubes[0]),
        camera.looks_from(
            front_eye(),
            Vector3 { x: Scalar { raw: 0 }, y: Scalar { raw: 0 }, z: Scalar { raw: 0 } },
            Vector3 { x: Scalar { raw: 0 }, y: Scalar { raw: SCALE }, z: Scalar { raw: 0 } },
        ),
        1 <= width <= 10_000,
        4 <= height <= 10_000,
        0 <= column < width,
        row == 0 || row == height - 1,
        400_000_000 <= perspective_scale.raw <= SCALE,
    ensures
        ({
            let config = RenderConfig::spec_new(width, height, perspective_scale);
            let direction = spec_primary_direction(column, row, camera, config);
            &&& is_sloping(direction)
            &&& !scene.cubes[0].spec_hit(camera.eye, direction).is_intersecting
            &&& spec_rendered_pixel(scene, camera, config, params, column as int, row as int)
                == spec_vector3_to_color(
                spec_procedural_sky(scene.textures, scene.sky, direction),
            )
        }),
{
    let config = RenderConfig::spec_new(width, height, perspective_scale);
    lemma_edge_of_screen(width, height, column, row, perspective_scale);
    let through = Vector3 {
        x: spec_screen_x(column, config),
        y: spec_screen_y(row, config),
        z: Scalar::spec_one().spec_neg(),
    };
    lemma_normalized_is_sloping(through);
    let unit = through.spec_normalized();
    lemma_front_basis(camera, unit);
    lemma_sloping_ray_misses(scene.cubes[0], unit);
    lemma_single_box_nearest(scene, camera.eye, unit);
    reveal(spec_rendered_pixel);
    assert((column as int) as i32 == column && (row as int) as i32 == row);
}

/// In a scene of the box alone, what the primary ray through the pixel in
/// the middle of the image finds first is the front face of the box.
pub proof fn lemma_middle_pixel_shows_the_box(
    scene: SceneView,
    camera: Camera,
    width: i32,
    height: i32,
    column: i32,
    row: i32,
    perspective_scale: Scalar,
)
    requires
        scene.cubes.len() == 1,
        scene.leaves.len() == 1,
        scene.leaves[0] == 0,
        is_front_box(scene.cubes[0]),
        camera.looks_from(
            front_eye(),
            Vector3 { x: Scalar { raw: 0 }, y: Scalar { raw: 0 }, z: Scalar { raw: 0 } },
            Vector3 { x: Scalar { raw: 0 }, y: Scalar { raw: SCALE }, z: Scalar { raw: 0 } },
        ),
        is_middle(width, height, column, row),
        0 <= perspective_scale.raw <= SCALE,
    ensures
        ({
            let config = RenderConfig::spec_new(width, height, perspective_scale);
            let direction = spec_primary_direction(column, row, camera, config);
            let hit = brute_force_nearest(scene.cubes, scene.leaves, camera.eye, direction);
            &&& hit.is_intersecting
            &&& hit == scene.cubes[0].spec_hit(camera.eye, direction)
            &&& hit.normal == (Vector3 {
                x: Scalar { raw: 0 },
                y: Scalar { raw: 0 },
                z: Scalar { raw: SCALE },
            })
        }),
{
    let config = RenderConfig::spec_new(width, height, perspective_scale);
    let direction = spec_primary_direction(column, row, camera, config);
    lemma_middle_pixel_hits(scene.cubes[0], camera, width, height, column, row, perspective_scale);
    lemma_single_box_nearest(scene, camera.eye, direction);
}

} // verus!
