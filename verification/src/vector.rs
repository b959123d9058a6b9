//! Three-component vectors of fixed-point scalars, used for points,
//! directions and linear-light colours alike.

use vstd::prelude::*;
use crate::scalar::{Scalar, SCALE, clamp_i64, floor_sqrt, is_floor_sqrt, isqrt, trunc_div,
    lemma_product_fits, lemma_trunc_div_bound};

verus! {

/// A vector of three scalars.
#[derive(Clone, Copy, Debug, PartialEq, Eq, Structural)]
pub struct Vector3 {
    pub x: Scalar,
    pub y: Scalar,
    pub z: Scalar,
}

/// The sum of the squares of three raw values.
pub open spec fn sum_of_squares(x: int, y: int, z: int) -> int {
    x * x + y * y + z * z
}

/// One component of a vector scaled to unit length: `c / len`, or `c` itself
/// when the length is zero.
pub open spec fn unit_component(c: int, len: int) -> int {
    if len == 0 {
        c
    } else {
        trunc_div(c * SCALE, len)
    }
}

/// The length of the vector `(a, b)` in the plane, rounded down and clamped.
pub open spec fn spec_plane_length(a: Scalar, b: Scalar) -> Scalar {
    Scalar { raw: clamp_i64(floor_sqrt(sum_of_squares(a.raw as int, b.raw as int, 0))) as i64 }
}

/// The square of a raw value fits into 127 bits.
pub proof fn lemma_square_bounds(x: i64)
    ensures
        0 <= x * x <= 0x4000_0000_0000_0000_0000_0000_0000_0000,
{
    lemma_product_fits(x, x);
    assert(0 <= x * x) by (nonlinear_arith);
}

/// The exact length of a vector is at least the magnitude of each component.
pub proof fn lemma_length_dominates(x: int, y: int, z: int, len: int)
    requires
        is_floor_sqrt(sum_of_squares(x, y, z), len),
    ensures
        -len <= x <= len,
        -len <= y <= len,
        -len <= z <= len,
{
    let n = sum_of_squares(x, y, z);
    assert(x * x <= n && y * y <= n && z * z <= n) by (nonlinear_arith)
        requires
            n == x * x + y * y + z * z,
    ;
    lemma_square_below(x, len, n);
    lemma_square_below(y, len, n);
    lemma_square_below(z, len, n);
}

/// A number whose square lies below the square of `len + 1` lies within
/// `len` of zero.
proof fn lemma_square_below(c: int, len: int, n: int)
    requires
        c * c <= n,
        0 <= len,
        n < (len + 1) * (len + 1),
    ensures
        -len <= c <= len,
{
    if c > len {
        assert(c * c >= (len + 1) * (len + 1)) by (nonlinear_arith)
            requires
                c >= len + 1,
                len >= 0,
        ;
    } else if c < -len {
        assert(c * c >= (len + 1) * (len + 1)) by (nonlinear_arith)
            requires
                -c >= len + 1,
                len >= 0,
        ;
    }
}

/// A component divided by a length that dominates it lies between minus one
/// and one.
pub proof fn lemma_unit_component_range(c: int, len: int)
    requires
        len > 0,
        -len <= c <= len,
    ensures
        -SCALE <= unit_component(c, len) <= SCALE,
{
    if c >= 0 {
        assert((c * SCALE) / len <= SCALE && (c * SCALE) / len >= 0) by (nonlinear_arith)
            requires
                0 <= c <= len,
                len > 0,
                SCALE == 1_000_000_000,
        ;
    } else {
        assert(((-c) * SCALE) / len <= SCALE && ((-c) * SCALE) / len >= 0) by (nonlinear_arith)
            requires
                0 <= -c <= len,
                len > 0,
                SCALE == 1_000_000_000,
        ;
        assert(-(c * SCALE) == (-c) * SCALE) by (nonlinear_arith);
    }
}

impl Vector3 {
    /// The vector with the given components.
    pub open spec fn spec_new(x: Scalar, y: Scalar, z: Scalar) -> Vector3 {
        Vector3 { x, y, z }
    }

    /// The zero vector.
    pub open spec fn spec_zero() -> Vector3 {
        Vector3 { x: Scalar::spec_zero(), y: Scalar::spec_zero(), z: Scalar::spec_zero() }
    }

    /// The vector of three ones.
    pub open spec fn spec_one() -> Vector3 {
        Vector3 { x: Scalar::spec_one(), y: Scalar::spec_one(), z: Scalar::spec_one() }
    }

    /// The componentwise sum.
    pub open spec fn spec_add(self, o: Vector3) -> Vector3 {
        Vector3 { x: self.x.spec_add(o.x), y: self.y.spec_add(o.y), z: self.z.spec_add(o.z) }
    }

    /// The componentwise difference.
    pub open spec fn spec_sub(self, o: Vector3) -> Vector3 {
        Vector3 { x: self.x.spec_sub(o.x), y: self.y.spec_sub(o.y), z: self.z.spec_sub(o.z) }
    }

    /// The componentwise negation.
    pub open spec fn spec_neg(self) -> Vector3 {
        Vector3 { x: self.x.spec_neg(), y: self.y.spec_neg(), z: self.z.spec_neg() }
    }

    /// Each component multiplied by `k`.
    pub open spec fn spec_scale(self, k: Scalar) -> Vector3 {
        Vector3 { x: self.x.spec_mul(k), y: self.y.spec_mul(k), z: self.z.spec_mul(k) }
    }

    /// The componentwise product.
    pub open spec fn spec_mul(self, o: Vector3) -> Vector3 {
        Vector3 { x: self.x.spec_mul(o.x), y: self.y.spec_mul(o.y), z: self.z.spec_mul(o.z) }
    }

    /// The dot product, the three products added from the first on.
    pub open spec fn spec_dot(self, o: Vector3) -> Scalar {
        self.x.spec_mul(o.x).spec_add(self.y.spec_mul(o.y)).spec_add(self.z.spec_mul(o.z))
    }

    /// The cross product.
    pub open spec fn spec_cross(self, o: Vector3) -> Vector3 {
        Vector3 {
            x: self.y.spec_mul(o.z).spec_sub(self.z.spec_mul(o.y)),
            y: self.z.spec_mul(o.x).spec_sub(self.x.spec_mul(o.z)),
            z: self.x.spec_mul(o.y).spec_sub(self.y.spec_mul(o.x)),
        }
    }

    /// The exact sum of the squared raw components.
    pub open spec fn norm_squared(self) -> int {
        sum_of_squares(self.x.raw as int, self.y.raw as int, self.z.raw as int)
    }

    /// The Euclidean length in raw units, rounded down, before clamping.
    pub open spec fn exact_length(self) -> int {
        floor_sqrt(self.norm_squared())
    }

    /// The Euclidean length, rounded down and clamped.
    pub open spec fn spec_length(self) -> Scalar {
        Scalar { raw: clamp_i64(self.exact_length()) as i64 }
    }

    /// The vector divided by its length; the zero vector stays zero.
    pub open spec fn spec_normalized(self) -> Vector3 {
        let len = self.exact_length();
        Vector3 {
            x: Scalar { raw: unit_component(self.x.raw as int, len) as i64 },
            y: Scalar { raw: unit_component(self.y.raw as int, len) as i64 },
            z: Scalar { raw: unit_component(self.z.raw as int, len) as i64 },
        }
    }

    /// The vector with the given components.
    pub fn new(x: Scalar, y: Scalar, z: Scalar) -> (r: Vector3)
        ensures
            r == Vector3::spec_new(x, y, z),
    {
        Vector3 { x, y, z }
    }

    /// The zero vector.
    pub fn zero() -> (r: Vector3)
        ensures
            r == Vector3::spec_zero(),
    {
        Vector3 { x: Scalar::zero(), y: Scalar::zero(), z: Scalar::zero() }
    }

    /// The vector of three ones.
    pub fn one() -> (r: Vector3)
        ensures
            r == Vector3::spec_one(),
    {
        Vector3 { x: Scalar::one(), y: Scalar::one(), z: Scalar::one() }
    }

    /// The componentwise sum.
    pub fn add(self, o: Vector3) -> (r: Vector3)
        ensures
            r == self.spec_add(o),
    {
        Vector3 { x: self.x.add(o.x), y: self.y.add(o.y), z: self.z.add(o.z) }
    }

    /// The componentwise difference.
    pub fn sub(self, o: Vector3) -> (r: Vector3)
        ensures
            r == self.spec_sub(o),
    {
        Vector3 { x: self.x.sub(o.x), y: self.y.sub(o.y), z: self.z.sub(o.z) }
    }

    /// The componentwise negation.
    pub fn neg(self) -> (r: Vector3)
        ensures
            r == self.spec_neg(),
    {
        Vector3 { x: self.x.neg(), y: self.y.neg(), z: self.z.neg() }
    }

    /// Each component multiplied by `k`.
    pub fn scale(self, k: Scalar) -> (r: Vector3)
        ensures
            r == self.spec_scale(k),
    {
        Vector3 { x: self.x.mul(k), y: self.y.mul(k), z: self.z.mul(k) }
    }

    /// The componentwise product.
    pub fn mul(self, o: Vector3) -> (r: Vector3)
        ensures
            r == self.spec_mul(o),
    {
        Vector3 { x: self.x.mul(o.x), y: self.y.mul(o.y), z: self.z.mul(o.z) }
    }

    /// The dot product.
    pub fn dot(self, o: Vector3) -> (r: Scalar)
        ensures
            r == self.spec_dot(o),
    {
        self.x.mul(o.x).add(self.y.mul(o.y)).add(self.z.mul(o.z))
    }

    /// The cross product.
    pub fn cross(self, o: Vector3) -> (r: Vector3)
        ensures
            r == self.spec_cross(o),
    {
        Vector3 {
            x: self.y.mul(o.z).sub(self.z.mul(o.y)),
            y: self.z.mul(o.x).sub(self.x.mul(o.z)),
            z: self.x.mul(o.y).sub(self.y.mul(o.x)),
        }
    }

    /// The exact length in raw units, which may exceed the range of a scalar.
    fn wide_length(self) -> (len: u64)
        ensures
            len as int == self.exact_length(),
            is_floor_sqrt(self.norm_squared(), len as int),
    {
        proof {
            lemma_square_bounds(self.x.raw);
            lemma_square_bounds(self.y.raw);
            lemma_square_bounds(self.z.raw);
        }
        let xx: u128 = ((self.x.raw as i128) * (self.x.raw as i128)) as u128;
        let yy: u128 = ((self.y.raw as i128) * (self.y.raw as i128)) as u128;
        let zz: u128 = ((self.z.raw as i128) * (self.z.raw as i128)) as u128;
        isqrt(xx + yy + zz)
    }

    /// The Euclidean length, rounded down and clamped.
    pub fn length(self) -> (r: Scalar)
        ensures
            r == self.spec_length(),
    {
        let len: u64 = self.wide_length();
        if len > i64::MAX as u64 {
            Scalar { raw: i64::MAX }
        } else {
            Scalar { raw: len as i64 }
        }
    }

    /// The vector divided by its length; the zero vector stays zero.
    pub fn normalized(self) -> (r: Vector3)
        ensures
            r == self.spec_normalized(),
    {
        let len: u64 = self.wide_length();
        if len == 0 {
            self
        } else {
            proof {
                lemma_length_dominates(
                    self.x.raw as int,
                    self.y.raw as int,
                    self.z.raw as int,
                    len as int,
                );
            }
            Vector3 {
                x: Scalar { raw: divide_component(self.x.raw, len) },
                y: Scalar { raw: divide_component(self.y.raw, len) },
                z: Scalar { raw: divide_component(self.z.raw, len) },
            }
        }
    }
}

/// The length of the vector `(a, b)` in the plane.
pub fn plane_length(a: Scalar, b: Scalar) -> (r: Scalar)
    ensures
        r == spec_plane_length(a, b),
{
    proof {
        lemma_square_bounds(a.raw);
        lemma_square_bounds(b.raw);
    }
    let aa: u128 = ((a.raw as i128) * (a.raw as i128)) as u128;
    let bb: u128 = ((b.raw as i128) * (b.raw as i128)) as u128;
    let wide: u64 = isqrt(aa + bb);
    if wide > i64::MAX as u64 {
        Scalar { raw: i64::MAX }
    } else {
        Scalar { raw: wide as i64 }
    }
}

/// One component of a vector divided by the length of the vector.
fn divide_component(c: i64, len: u64) -> (r: i64)
    requires
        len > 0,
        -len <= c <= len,
    ensures
        r == unit_component(c as int, len as int),
{
    proof {
        lemma_product_fits(c, SCALE);
        lemma_unit_component_range(c as int, len as int);
        lemma_trunc_div_bound(c as int * SCALE as int, len as int);
    }
    let wide: i128 = (c as i128) * (SCALE as i128);
    (wide / (len as i128)) as i64
}

} // verus!
