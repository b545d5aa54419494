//! 16.16 fixed-point scalar arithmetic.
//!
//! A scalar is an `i64` counting 1/65536 steps; `FP_ONE` is 1.0.  Products
//! and quotients truncate toward zero, mirroring how a float tracer rounds
//! its intermediate values, and every operation states its result exactly
//! in terms of the spec-level helpers below.

use vstd::prelude::*;
use crate::FP_ONE;

verus! {

/// Truncating division (round toward zero), the rounding used throughout
/// the renderer.  Meaningful for `b >= 1`.
pub open spec fn tdiv(a: int, b: int) -> int {
    if a >= 0 {
        a / b
    } else {
        -((-a) / b)
    }
}

/// Absolute value over mathematical integers.
pub open spec fn abs_v(a: int) -> int {
    if a >= 0 {
        a
    } else {
        -a
    }
}

/// The integer square root, rounded down: the unique `r >= 0` with
/// `r * r <= n < (r + 1) * (r + 1)`.
pub open spec fn sqrt_down(n: int) -> int {
    choose|r: int| 0 <= r && #[trigger] (r * r) <= n && (r + 1) * (r + 1) > n
}

/// Fixed-point product: `a * b` rescaled by one unit, truncated toward zero.
pub open spec fn fp_mul_v(a: int, b: int) -> int {
    tdiv(a * b, FP_ONE as int)
}

/// Fixed-point quotient: `a / b` rescaled by one unit, truncated toward zero.
pub open spec fn fp_div_v(a: int, b: int) -> int {
    tdiv(a * FP_ONE, b)
}

/// Fixed-point square root of a nonnegative scalar.
pub open spec fn fp_sqrt_v(a: int) -> int {
    sqrt_down(a * FP_ONE)
}

/// Clamp a scalar into `[-FP_ONE, FP_ONE]`; used to pin components of unit
/// vectors that fixed-point rounding pushed a hair past one.
pub open spec fn clamp_unit_v(a: int) -> int {
    if a > FP_ONE {
        FP_ONE as int
    } else if a < -(FP_ONE as int) {
        -(FP_ONE as int)
    } else {
        a
    }
}

/// Largest magnitude accepted by `fp_mul` for either factor.
pub const FP_FACTOR_MAX: i64 = 0x8000_0000;

/// Largest magnitude accepted by `fp_div` for the dividend.
pub const FP_DIVIDEND_MAX: i64 = 0x4000_0000_0000;

/// Truncating division agrees with Euclidean division on a nonnegative
/// dividend and never grows the magnitude of the dividend.
pub proof fn lemma_tdiv_basics(a: int, b: int)
    requires
        b >= 1,
    ensures
        abs_v(tdiv(a, b)) <= abs_v(a),
        a >= 0 ==> tdiv(a, b) >= 0 && b * tdiv(a, b) <= a && a < b * (tdiv(a, b) + 1),
        a <= 0 ==> tdiv(a, b) <= 0 && b * tdiv(a, b) >= a && a > b * (tdiv(a, b) - 1),
        abs_v(tdiv(a, b)) * b <= abs_v(a),
{
    assert(abs_v(tdiv(a, b)) * b == b * abs_v(tdiv(a, b))) by (nonlinear_arith);
    assert(b * (-tdiv(a, b)) == -(b * tdiv(a, b))) by (nonlinear_arith);
    if a >= 0 {
        lemma_ediv_bounds(a, b);
        if a == 0 {
            assert(tdiv(0, b) == 0);
            assert(b * (0 - 1) == -b) by (nonlinear_arith);
            assert(a > b * (tdiv(a, b) - 1));
        }
    } else {
        lemma_ediv_bounds(-a, b);
        let q = (-a) / b;
        assert(b * (q + 1) == b * q + b) by (nonlinear_arith);
        assert(b * (-q - 1) == -(b * q) - b) by (nonlinear_arith);
        assert(b * (-q) == -(b * q)) by (nonlinear_arith);
        assert(a > b * (tdiv(a, b) - 1));
    }
}

/// Bounds of Euclidean division for a nonnegative dividend.
proof fn lemma_ediv_bounds(a: int, b: int)
    requires
        a >= 0,
        b >= 1,
    ensures
        0 <= a / b <= a,
        b * (a / b) <= a,
        a < b * (a / b + 1),
{
    vstd::arithmetic::div_mod::lemma_fundamental_div_mod(a, b);
    vstd::arithmetic::div_mod::lemma_remainder_upper(a, b);
    vstd::arithmetic::div_mod::lemma_remainder_lower(a, b);
    vstd::arithmetic::div_mod::lemma_div_pos_is_pos(a, b);
    vstd::arithmetic::div_mod::lemma_div_nonincreasing(a, b);
    assert(b * (a / b + 1) == b * (a / b) + b) by (nonlinear_arith);
}

/// Truncating division is monotone in the dividend.
pub proof fn lemma_tdiv_mono(a1: int, a2: int, b: int)
    requires
        b >= 1,
        a1 <= a2,
    ensures
        tdiv(a1, b) <= tdiv(a2, b),
{
    lemma_tdiv_basics(a1, b);
    lemma_tdiv_basics(a2, b);
    if a1 >= 0 {
        vstd::arithmetic::div_mod::lemma_div_is_ordered(a1, a2, b);
    } else if a2 <= 0 {
        vstd::arithmetic::div_mod::lemma_div_is_ordered(-a2, -a1, b);
    } else {
        assert(tdiv(a1, b) <= 0);
        assert(tdiv(a2, b) >= 0);
    }
}

/// Dividing a quantity no larger than `c * b` by `b` yields at most `c`.
pub proof fn lemma_tdiv_upper(a: int, b: int, c: int)
    requires
        b >= 1,
        c >= 0,
        a <= c * b,
    ensures
        tdiv(a, b) <= c,
{
    lemma_tdiv_mono(a, c * b, b);
    assert(tdiv(c * b, b) == c) by {
        vstd::arithmetic::div_mod::lemma_div_multiples_vanish(c, b);
        assert(c * b == b * c) by (nonlinear_arith);
        assert(c * b >= 0) by (nonlinear_arith)
            requires
                c >= 0,
                b >= 1,
        ;
    }
}

/// A quotient whose dividend reaches `c * b` has magnitude at least `c`.
pub proof fn lemma_tdiv_lower_mag(a: int, b: int, c: int)
    requires
        b >= 1,
        c >= 0,
        abs_v(a) >= c * b,
    ensures
        abs_v(tdiv(a, b)) >= c,
{
    lemma_tdiv_basics(a, b);
    if a >= 0 {
        let q = tdiv(a, b);
        assert(b * (q + 1) == b * q + b) by (nonlinear_arith);
        assert(q + 1 > c) by (nonlinear_arith)
            requires
                b * (q + 1) > a,
                a >= c * b,
                b >= 1,
        ;
    } else {
        let q = (-a) / b;
        lemma_ediv_bounds(-a, b);
        assert(b * (q + 1) == b * q + b) by (nonlinear_arith);
        assert(q + 1 > c) by (nonlinear_arith)
            requires
                b * (q + 1) > -a,
                -a >= c * b,
                b >= 1,
        ;
    }
}

/// A quotient whose dividend stays within `c * b` has magnitude at most `c`.
pub proof fn lemma_tdiv_abs_upper(a: int, b: int, c: int)
    requires
        b >= 1,
        c >= 0,
        abs_v(a) <= c * b,
    ensures
        abs_v(tdiv(a, b)) <= c,
{
    if a >= 0 {
        lemma_tdiv_basics(a, b);
        lemma_tdiv_upper(a, b, c);
    } else {
        lemma_tdiv_basics(a, b);
        lemma_tdiv_upper(-a, b, c);
    }
}

/// The fixed-point product of two reflectances in `[0, 1]` is again in
/// `[0, 1]`.
pub proof fn lemma_fp_mul_unit_range(a: int, b: int)
    requires
        0 <= a <= FP_ONE,
        0 <= b <= FP_ONE,
    ensures
        0 <= fp_mul_v(a, b) <= FP_ONE,
        fp_mul_v(a, b) <= a,
        fp_mul_v(a, b) <= b,
{
    assert(0 <= a * b <= FP_ONE * (FP_ONE as int)) by (nonlinear_arith)
        requires
            0 <= a <= FP_ONE,
            0 <= b <= FP_ONE,
    ;
    assert(a * b <= a * (FP_ONE as int) && a * b <= b * (FP_ONE as int)) by (nonlinear_arith)
        requires
            0 <= a <= FP_ONE,
            0 <= b <= FP_ONE,
    ;
    lemma_tdiv_basics(a * b, FP_ONE as int);
    lemma_tdiv_upper(a * b, FP_ONE as int, a);
    lemma_tdiv_upper(a * b, FP_ONE as int, b);
    lemma_tdiv_upper(a * b, FP_ONE as int, FP_ONE as int);
}

/// The square root rounded down is uniquely determined.
pub proof fn lemma_sqrt_down_unique(n: int, r: int)
    requires
        0 <= r,
        r * r <= n,
        (r + 1) * (r + 1) > n,
    ensures
        sqrt_down(n) == r,
{
    assert(exists|q: int| 0 <= q && #[trigger] (q * q) <= n && (q + 1) * (q + 1) > n) by {
        assert(0 <= r && r * r <= n && (r + 1) * (r + 1) > n);
    }
    let s = sqrt_down(n);
    assert(0 <= s && s * s <= n && (s + 1) * (s + 1) > n);
    if s < r {
        assert((s + 1) * (s + 1) <= r * r) by (nonlinear_arith)
            requires
                0 <= s,
                s < r,
        ;
    }
    if r < s {
        assert((r + 1) * (r + 1) <= s * s) by (nonlinear_arith)
            requires
                0 <= r,
                r < s,
        ;
    }
}

/// Every nonnegative integer has a rounded-down square root, so
/// `sqrt_down` carries its defining property.
pub proof fn lemma_sqrt_down_exists(n: int)
    requires
        n >= 0,
    ensures
        sqrt_down(n) >= 0,
        sqrt_down(n) * sqrt_down(n) <= n,
        (sqrt_down(n) + 1) * (sqrt_down(n) + 1) > n,
    decreases n,
{
    if n == 0 {
        assert(0 * 0 <= 0 && (0 + 1) * (0 + 1) > 0) by (nonlinear_arith);
        lemma_sqrt_down_unique(0, 0);
    } else {
        lemma_sqrt_down_exists(n - 1);
        let q = sqrt_down(n - 1);
        if (q + 1) * (q + 1) <= n {
            assert((q + 2) * (q + 2) > n) by (nonlinear_arith)
                requires
                    (q + 1) * (q + 1) > n - 1,
                    q >= 0,
            ;
            lemma_sqrt_down_unique(n, q + 1);
        } else {
            lemma_sqrt_down_unique(n, q);
        }
    }
}

/// Magnitude of an `i64`, as a `u64`.
pub fn i64_abs(a: i64) -> (r: u64)
    ensures
        r == abs_v(a as int),
{
    if a >= 0 {
        a as u64
    } else {
        (-(a as i128)) as u64
    }
}

/// The integer square root of a `u128`, rounded down.
pub fn isqrt_u128(n: u128) -> (r: u128)
    ensures
        r * r <= n,
        (r + 1) * (r + 1) > n,
        r == sqrt_down(n as int),
        r < 0x1_0000_0000_0000_0000,
{
    let mut lo: u128 = 0;
    let mut hi: u128 = 0x1_0000_0000_0000_0000;
    while hi - lo > 1
        invariant
            lo < hi,
            hi <= 0x1_0000_0000_0000_0000,
            lo * lo <= n,
            hi * hi > n,
        decreases hi - lo,
    {
        let mid = lo + (hi - lo) / 2;
        assert(lo < mid < hi);
        assert(mid * mid < 0x1_0000_0000_0000_0000_0000_0000_0000_0000) by (nonlinear_arith)
            requires
                0 <= mid < 0x1_0000_0000_0000_0000,
        ;
        if mid * mid <= n {
            lo = mid;
        } else {
            hi = mid;
        }
    }
    proof {
        lemma_sqrt_down_unique(n as int, lo as int);
    }
    lo
}

/// Fixed-point product of two scalars.
pub fn fp_mul(a: i64, b: i64) -> (r: i64)
    requires
        abs_v(a as int) <= FP_FACTOR_MAX as int,
        abs_v(b as int) <= FP_FACTOR_MAX as int,
    ensures
        r == fp_mul_v(a as int, b as int),
        abs_v(r as int) * (FP_ONE as int) <= abs_v((a as int) * (b as int)),
{
    proof {
        assert(abs_v((a as int) * (b as int)) == abs_v(a as int) * abs_v(b as int))
            by (nonlinear_arith);
        assert(abs_v(a as int) * abs_v(b as int) <= 0x4000_0000_0000_0000) by (nonlinear_arith)
            requires
                abs_v(a as int) <= 0x8000_0000,
                abs_v(b as int) <= 0x8000_0000,
        ;
        lemma_tdiv_basics((a as int) * (b as int), FP_ONE as int);
    }
    proof {
        assert((a as int) < 0 != ((b as int) < 0) ==> (a as int) * (b as int) <= 0)
            by (nonlinear_arith);
        assert(!((a as int) < 0 != ((b as int) < 0)) ==> (a as int) * (b as int) >= 0)
            by (nonlinear_arith);
    }
    let neg = (a < 0) != (b < 0);
    let ma = i64_abs(a) as u128;
    let mb = i64_abs(b) as u128;
    assert(ma * mb <= 0x4000_0000_0000_0000) by (nonlinear_arith)
        requires
            0 <= ma <= 0x8000_0000,
            0 <= mb <= 0x8000_0000,
    ;
    let m = (ma * mb) / 65536;
    proof {
        lemma_ediv_bounds((ma as int) * (mb as int), FP_ONE as int);
    }
    if neg {
        -(m as i64)
    } else {
        m as i64
    }
}

/// Fixed-point quotient of a scalar by a positive scalar.
pub fn fp_div(a: i64, b: i64) -> (r: i64)
    requires
        b >= 1,
        abs_v(a as int) <= FP_DIVIDEND_MAX as int,
    ensures
        r == fp_div_v(a as int, b as int),
{
    proof {
        lemma_tdiv_basics((a as int) * (FP_ONE as int), b as int);
    }
    let neg = a < 0;
    let ma = i64_abs(a) as u128;
    let m = (ma * 65536) / (b as u128);
    proof {
        lemma_ediv_bounds((ma as int) * (FP_ONE as int), b as int);
    }
    if neg {
        -(m as i64)
    } else {
        m as i64
    }
}

/// Truncating division of wide intermediates, used by the intersection math.
pub fn tdiv_i128(a: i128, b: i128) -> (r: i128)
    requires
        b >= 1,
        a > i128::MIN,
    ensures
        r == tdiv(a as int, b as int),
{
    proof {
        lemma_tdiv_basics(a as int, b as int);
    }
    if a >= 0 {
        ((a as u128) / (b as u128)) as i128
    } else {
        -(((-a) as u128 / (b as u128)) as i128)
    }
}

/// Fixed-point square root of a nonnegative scalar.
pub fn fp_sqrt(a: i64) -> (r: i64)
    requires
        0 <= a,
    ensures
        r == fp_sqrt_v(a as int),
        0 <= r,
        (r as int) * (r as int) <= (a as int) * (FP_ONE as int),
        ((r as int) + 1) * ((r as int) + 1) > (a as int) * (FP_ONE as int),
{
    let wide = (a as u128) * 65536;
    let root = isqrt_u128(wide);
    proof {
        assert(root < 0x1_0000_0000_0000) by (nonlinear_arith)
            requires
                (root as int) * (root as int) <= wide as int,
                wide < 0x1_0000_0000_0000_0000_0000_0000,
                root >= 0,
        ;
    }
    root as i64
}

/// Clamp a scalar into `[-FP_ONE, FP_ONE]`.
pub fn clamp_unit(a: i64) -> (r: i64)
    ensures
        r == clamp_unit_v(a as int),
        -(FP_ONE as int) <= r <= FP_ONE as int,
{
    if a > FP_ONE {
        FP_ONE
    } else if a < -FP_ONE {
        -FP_ONE
    } else {
        a
    }
}

} // verus!
