//! Fixed-point scalars.
//!
//! A [`Scalar`] holds a signed 64-bit count of billionths. Every operation is
//! total: a result that does not fit is clamped to the nearest representable
//! value, and a quotient is rounded toward zero.

use vstd::prelude::*;

verus! {

/// The number of raw units in one whole.
pub const SCALE: i64 = 1_000_000_000;

/// A fixed-point number: `raw` billionths.
#[derive(Clone, Copy, Debug, PartialEq, Eq, Structural)]
pub struct Scalar {
    pub raw: i64,
}

/// The value of `x` clamped into the range of `i64`.
pub open spec fn clamp_i64(x: int) -> int {
    if x < i64::MIN {
        i64::MIN as int
    } else if x > i64::MAX {
        i64::MAX as int
    } else {
        x
    }
}

/// The quotient of `x` by `d`, rounded toward zero.
pub open spec fn trunc_div(x: int, d: int) -> int {
    if x >= 0 {
        x / d
    } else {
        -((-x) / d)
    }
}

/// The sum of two raw values.
pub open spec fn raw_add(a: int, b: int) -> int {
    clamp_i64(a + b)
}

/// The difference of two raw values.
pub open spec fn raw_sub(a: int, b: int) -> int {
    clamp_i64(a - b)
}

/// The negation of a raw value.
pub open spec fn raw_neg(a: int) -> int {
    clamp_i64(-a)
}

/// The absolute value of a raw value.
pub open spec fn raw_abs(a: int) -> int {
    if a < 0 {
        clamp_i64(-a)
    } else {
        a
    }
}

/// The product of two raw values, in raw units.
pub open spec fn raw_mul(a: int, b: int) -> int {
    clamp_i64(trunc_div(a * b, SCALE as int))
}

/// The quotient of two raw values, in raw units. Division by zero gives the
/// extreme value with the sign of the dividend, and zero for `0 / 0`.
pub open spec fn raw_div(a: int, b: int) -> int {
    if b == 0 {
        if a > 0 {
            i64::MAX as int
        } else if a < 0 {
            i64::MIN as int
        } else {
            0
        }
    } else {
        clamp_i64(trunc_div(a * SCALE, b))
    }
}

/// The largest `r >= 0` with `r * r <= n`.
pub open spec fn is_floor_sqrt(n: int, r: int) -> bool {
    0 <= r && r * r <= n && n < (r + 1) * (r + 1)
}

/// The floor of the square root of `n`, for `n >= 0`.
pub open spec fn floor_sqrt(n: int) -> int {
    choose|r: int| is_floor_sqrt(n, r)
}

/// The square root of a raw value, in raw units; zero for a negative value.
pub open spec fn raw_sqrt(a: int) -> int {
    if a <= 0 {
        0
    } else {
        floor_sqrt(a * SCALE)
    }
}

/// `x` raised to the power `n`, each product rounded as in [`raw_mul`].
pub open spec fn raw_pow(x: int, n: nat) -> int
    decreases n,
{
    if n == 0 {
        SCALE as int
    } else {
        raw_mul(raw_pow(x, (n - 1) as nat), x)
    }
}

/// The product of two raw values fits into 128 bits.
pub proof fn lemma_product_fits(a: i64, b: i64)
    ensures
        -0x4000_0000_0000_0000_0000_0000_0000_0000 <= a * b
            <= 0x4000_0000_0000_0000_0000_0000_0000_0000,
{
    assert(-0x4000_0000_0000_0000_0000_0000_0000_0000 <= a * b
        <= 0x4000_0000_0000_0000_0000_0000_0000_0000) by (nonlinear_arith)
        requires
            -0x8000_0000_0000_0000 <= a < 0x8000_0000_0000_0000,
            -0x8000_0000_0000_0000 <= b < 0x8000_0000_0000_0000,
    ;
}

/// At most one number is the floor of the square root of `n`.
pub proof fn lemma_floor_sqrt_unique(n: int, r: int, s: int)
    requires
        is_floor_sqrt(n, r),
        is_floor_sqrt(n, s),
    ensures
        r == s,
{
    if r < s {
        assert((r + 1) * (r + 1) <= s * s) by (nonlinear_arith)
            requires
                0 <= r,
                r + 1 <= s,
        ;
    } else if s < r {
        assert((s + 1) * (s + 1) <= r * r) by (nonlinear_arith)
            requires
                0 <= s,
                s + 1 <= r,
        ;
    }
}

/// Clamps a wide intermediate result into a raw value.
pub fn clamp_wide(x: i128) -> (r: i64)
    ensures
        r == clamp_i64(x as int),
{
    if x > i64::MAX as i128 {
        i64::MAX
    } else if x < i64::MIN as i128 {
        i64::MIN
    } else {
        x as i64
    }
}

/// The floor of the square root of `n`.
pub fn isqrt(n: u128) -> (r: u64)
    ensures
        is_floor_sqrt(n as int, r as int),
        r as int == floor_sqrt(n as int),
{
    let mut lo: u128 = 0;
    let mut hi: u128 = 0x1_0000_0000_0000_0000;
    proof {
        assert(0x1_0000_0000_0000_0000int * 0x1_0000_0000_0000_0000int
            == 0x1_0000_0000_0000_0000_0000_0000_0000_0000int);
    }
    while hi - lo > 1
        invariant
            lo < hi <= 0x1_0000_0000_0000_0000,
            lo * lo <= n,
            n < hi * hi,
        decreases hi - lo,
    {
        let mid: u128 = lo + (hi - lo) / 2;
        assert(mid * mid < 0x1_0000_0000_0000_0000_0000_0000_0000_0000int) by (nonlinear_arith)
            requires
                0 <= mid < 0x1_0000_0000_0000_0000,
        ;
        if mid * mid <= n {
            lo = mid;
        } else {
            hi = mid;
        }
    }
    proof {
        assert(hi == lo + 1);
        assert(is_floor_sqrt(n as int, lo as int));
        lemma_floor_sqrt_unique(n as int, lo as int, floor_sqrt(n as int));
    }
    lo as u64
}

impl Scalar {
    /// The number zero.
    pub open spec fn spec_zero() -> Scalar {
        Scalar { raw: 0 }
    }

    /// The number one.
    pub open spec fn spec_one() -> Scalar {
        Scalar { raw: SCALE }
    }

    /// The whole number `n`.
    pub open spec fn spec_from_int(n: i32) -> Scalar {
        Scalar { raw: (n as int * SCALE) as i64 }
    }

    /// The quotient of the whole numbers `num` and `den`.
    pub open spec fn spec_ratio(num: i32, den: i32) -> Scalar {
        Scalar::spec_from_int(num).spec_div(Scalar::spec_from_int(den))
    }

    /// The sum, clamped.
    pub open spec fn spec_add(self, o: Scalar) -> Scalar {
        Scalar { raw: raw_add(self.raw as int, o.raw as int) as i64 }
    }

    /// The difference, clamped.
    pub open spec fn spec_sub(self, o: Scalar) -> Scalar {
        Scalar { raw: raw_sub(self.raw as int, o.raw as int) as i64 }
    }

    /// The negation, clamped.
    pub open spec fn spec_neg(self) -> Scalar {
        Scalar { raw: raw_neg(self.raw as int) as i64 }
    }

    /// The absolute value, clamped.
    pub open spec fn spec_abs(self) -> Scalar {
        Scalar { raw: raw_abs(self.raw as int) as i64 }
    }

    /// The product, rounded toward zero and clamped.
    pub open spec fn spec_mul(self, o: Scalar) -> Scalar {
        Scalar { raw: raw_mul(self.raw as int, o.raw as int) as i64 }
    }

    /// The quotient, rounded toward zero and clamped; for a zero divisor the
    /// extreme value with the sign of the dividend, and zero for `0 / 0`.
    pub open spec fn spec_div(self, o: Scalar) -> Scalar {
        Scalar { raw: raw_div(self.raw as int, o.raw as int) as i64 }
    }

    /// The reciprocal `1 / self`.
    pub open spec fn spec_recip(self) -> Scalar {
        Scalar::spec_one().spec_div(self)
    }

    /// The square root, rounded down; zero for a negative number.
    pub open spec fn spec_sqrt(self) -> Scalar {
        Scalar { raw: raw_sqrt(self.raw as int) as i64 }
    }

    /// The power `self^n`, each product rounded.
    pub open spec fn spec_pow(self, n: u32) -> Scalar {
        Scalar { raw: raw_pow(self.raw as int, n as nat) as i64 }
    }

    /// The smaller of the two.
    pub open spec fn spec_min(self, o: Scalar) -> Scalar {
        if self.raw <= o.raw {
            self
        } else {
            o
        }
    }

    /// The larger of the two.
    pub open spec fn spec_max(self, o: Scalar) -> Scalar {
        if self.raw >= o.raw {
            self
        } else {
            o
        }
    }

    /// `self < o`.
    pub open spec fn spec_lt(self, o: Scalar) -> bool {
        self.raw < o.raw
    }

    /// `self <= o`.
    pub open spec fn spec_le(self, o: Scalar) -> bool {
        self.raw <= o.raw
    }

    /// `self > o`.
    pub open spec fn spec_gt(self, o: Scalar) -> bool {
        self.raw > o.raw
    }

    /// The scalar with the given raw value.
    pub fn from_raw(raw: i64) -> (r: Scalar)
        ensures
            r.raw == raw,
    {
        Scalar { raw }
    }

    /// The number zero.
    pub fn zero() -> (r: Scalar)
        ensures
            r == Scalar::spec_zero(),
    {
        Scalar { raw: 0 }
    }

    /// The number one.
    pub fn one() -> (r: Scalar)
        ensures
            r == Scalar::spec_one(),
    {
        Scalar { raw: SCALE }
    }

    /// The whole number `n`.
    pub fn from_int(n: i32) -> (r: Scalar)
        ensures
            r == Scalar::spec_from_int(n),
            r.raw == n * SCALE,
    {
        Scalar { raw: (n as i64) * SCALE }
    }

    /// The quotient of the whole numbers `num` and `den`, rounded toward zero;
    /// for `den == 0` as in [`Scalar::div`].
    pub fn ratio(num: i32, den: i32) -> (r: Scalar)
        ensures
            r == Scalar::spec_ratio(num, den),
    {
        Scalar::from_int(num).div(Scalar::from_int(den))
    }

    /// The sum, clamped.
    pub fn add(self, o: Scalar) -> (r: Scalar)
        ensures
            r == self.spec_add(o),
    {
        Scalar { raw: clamp_wide(self.raw as i128 + o.raw as i128) }
    }

    /// The difference, clamped.
    pub fn sub(self, o: Scalar) -> (r: Scalar)
        ensures
            r == self.spec_sub(o),
    {
        Scalar { raw: clamp_wide(self.raw as i128 - o.raw as i128) }
    }

    /// The negation, clamped.
    pub fn neg(self) -> (r: Scalar)
        ensures
            r == self.spec_neg(),
    {
        Scalar { raw: clamp_wide(-(self.raw as i128)) }
    }

    /// The absolute value, clamped.
    pub fn abs(self) -> (r: Scalar)
        ensures
            r == self.spec_abs(),
    {
        if self.raw < 0 {
            Scalar { raw: clamp_wide(-(self.raw as i128)) }
        } else {
            self
        }
    }

    /// The product, rounded toward zero and clamped.
    pub fn mul(self, o: Scalar) -> (r: Scalar)
        ensures
            r == self.spec_mul(o),
    {
        proof {
            lemma_product_fits(self.raw, o.raw);
        }
        let wide: i128 = (self.raw as i128) * (o.raw as i128);
        Scalar { raw: clamp_wide(wide / (SCALE as i128)) }
    }

    /// The quotient, rounded toward zero and clamped. A zero divisor gives the
    /// extreme value with the sign of the dividend, and zero for `0 / 0`.
    pub fn div(self, o: Scalar) -> (r: Scalar)
        ensures
            r == self.spec_div(o),
    {
        if o.raw == 0 {
            if self.raw > 0 {
                Scalar { raw: i64::MAX }
            } else if self.raw < 0 {
                Scalar { raw: i64::MIN }
            } else {
                Scalar { raw: 0 }
            }
        } else {
            proof {
                lemma_product_fits(self.raw, SCALE);
            }
            let wide: i128 = (self.raw as i128) * (SCALE as i128);
            proof {
                lemma_trunc_div_bound(wide as int, o.raw as int);
            }
            Scalar { raw: clamp_wide(wide / (o.raw as i128)) }
        }
    }

    /// The reciprocal `1 / self`.
    pub fn recip(self) -> (r: Scalar)
        ensures
            r == self.spec_recip(),
    {
        Scalar::one().div(self)
    }

    /// The square root, rounded down; zero for a negative number.
    pub fn sqrt(self) -> (r: Scalar)
        ensures
            r == self.spec_sqrt(),
    {
        if self.raw <= 0 {
            Scalar { raw: 0 }
        } else {
            proof {
                lemma_product_fits(self.raw, SCALE);
            }
            let wide: u128 = (self.raw as u128) * (SCALE as u128);
            let root: u64 = isqrt(wide);
            proof {
                let r = root as int;
                if r > i64::MAX {
                    assert(r * r >= 0x8000_0000_0000_0000 * 0x8000_0000_0000_0000) by (nonlinear_arith)
                        requires
                            r >= 0x8000_0000_0000_0000,
                    ;
                    assert(self.raw * SCALE < 0x8000_0000_0000_0000 * 0x8000_0000_0000_0000)
                        by (nonlinear_arith)
                        requires
                            0 < self.raw < 0x8000_0000_0000_0000,
                            SCALE == 1_000_000_000,
                    ;
                }
            }
            Scalar { raw: root as i64 }
        }
    }

    /// The power `self^n` by repeated multiplication.
    pub fn pow(self, n: u32) -> (r: Scalar)
        ensures
            r == self.spec_pow(n),
    {
        let mut acc: Scalar = Scalar::one();
        let mut i: u32 = 0;
        while i < n
            invariant
                i <= n,
                acc.raw == raw_pow(self.raw as int, i as nat),
            decreases n - i,
        {
            acc = acc.mul(self);
            i = i + 1;
        }
        acc
    }

    /// The smaller of the two.
    pub fn min(self, o: Scalar) -> (r: Scalar)
        ensures
            r == self.spec_min(o),
    {
        if self.raw <= o.raw {
            self
        } else {
            o
        }
    }

    /// The larger of the two.
    pub fn max(self, o: Scalar) -> (r: Scalar)
        ensures
            r == self.spec_max(o),
    {
        if self.raw >= o.raw {
            self
        } else {
            o
        }
    }

    /// Whether `self < o`.
    pub fn lt(self, o: Scalar) -> (b: bool)
        ensures
            b == self.spec_lt(o),
    {
        self.raw < o.raw
    }

    /// Whether `self <= o`.
    pub fn le(self, o: Scalar) -> (b: bool)
        ensures
            b == self.spec_le(o),
    {
        self.raw <= o.raw
    }

    /// Whether `self > o`.
    pub fn gt(self, o: Scalar) -> (b: bool)
        ensures
            b == self.spec_gt(o),
    {
        self.raw > o.raw
    }
}

/// Multiplying by one, by minus one or by zero is exact.
pub proof fn lemma_mul_by_unit(a: int)
    ensures
        trunc_div(a * SCALE, SCALE as int) == a,
        trunc_div(a * (-SCALE), SCALE as int) == -a,
        trunc_div(SCALE * a, SCALE as int) == a,
        trunc_div((-SCALE) * a, SCALE as int) == -a,
        trunc_div(a * 0, SCALE as int) == 0,
        trunc_div(0 * a, SCALE as int) == 0,
{
    assert(a * SCALE == SCALE * a && a * (-SCALE) == -(a * SCALE) && (-SCALE) * a == -(a * SCALE)
        && (-a) * SCALE == -(a * SCALE) && a * 0 == 0 && 0 * a == 0) by (nonlinear_arith);
    if a >= 0 {
        vstd::arithmetic::div_mod::lemma_div_multiples_vanish(a, SCALE as int);
    } else {
        vstd::arithmetic::div_mod::lemma_div_multiples_vanish(-a, SCALE as int);
    }
}

/// A quotient rounded toward zero is no larger in magnitude than the dividend.
pub proof fn lemma_trunc_div_bound(x: int, d: int)
    requires
        d != 0,
    ensures
        x >= 0 ==> -x <= trunc_div(x, d) <= x,
        x < 0 ==> x <= trunc_div(x, d) <= -x,
{
    if x >= 0 {
        lemma_div_magnitude(x, d);
    } else {
        lemma_div_magnitude(-x, d);
    }
}

/// A quotient of a number that is not negative is no larger in magnitude
/// than the number.
proof fn lemma_div_magnitude(x: int, d: int)
    requires
        x >= 0,
        d != 0,
    ensures
        -x <= x / d <= x,
{
    assert(-x <= x / d <= x) by (nonlinear_arith)
        requires
            x >= 0,
            d != 0,
    ;
}

/// A quotient rounded toward zero, times the divisor, falls short of the
/// dividend by less than the divisor, on the side of zero.
pub proof fn lemma_rounded_quotient(x: int, d: int)
    requires
        d != 0,
    ensures
        x >= 0 && d > 0 ==> 0 <= x - trunc_div(x, d) * d < d,
        x >= 0 && d < 0 ==> 0 <= x - trunc_div(x, d) * d < -d,
        x <= 0 && d > 0 ==> -d < x - trunc_div(x, d) * d <= 0,
{
    if x >= 0 {
        assert(0 <= x - (x / d) * d && (d > 0 ==> x - (x / d) * d < d) && (d < 0 ==> x - (x / d)
            * d < -d)) by (nonlinear_arith)
            requires
                d != 0,
        ;
    } else if d > 0 {
        let q = (-x) / d;
        assert(0 <= (-x) - q * d < d) by (nonlinear_arith)
            requires
                q == (-x) / d,
                d > 0,
        ;
        assert((-q) * d == -(q * d)) by (nonlinear_arith);
    }
}

} // verus!
