//! Three-component fixed-point vectors: points, directions and colors.

use vstd::prelude::*;
use crate::FP_ONE;
use crate::fixed::{
    abs_v, clamp_unit_v, fp_mul_v, sqrt_down, tdiv, clamp_unit, fp_mul, fp_sqrt, tdiv_i128,
    lemma_tdiv_basics, lemma_tdiv_mono, lemma_sqrt_down_unique,
    FP_FACTOR_MAX,
};

verus! {

/// A vector of three 16.16 fixed-point scalars.
#[derive(Clone, Copy, Debug, PartialEq, Eq, Structural)]
pub struct Vec3 {
    pub x: i64,
    pub y: i64,
    pub z: i64,
}

/// Every component has magnitude at most `m`.
pub open spec fn bounded_v(v: Vec3, m: int) -> bool {
    abs_v(v.x as int) <= m && abs_v(v.y as int) <= m && abs_v(v.z as int) <= m
}

/// The unscaled sum of squared components (fixed-point units squared).
pub open spec fn sum_sq(v: Vec3) -> int {
    (v.x as int) * (v.x as int) + (v.y as int) * (v.y as int) + (v.z as int) * (v.z as int)
}

/// The unscaled inner product (fixed-point units squared).
pub open spec fn dot_wide(a: Vec3, b: Vec3) -> int {
    (a.x as int) * (b.x as int) + (a.y as int) * (b.y as int) + (a.z as int) * (b.z as int)
}

/// The fixed-point inner product: the wide product rescaled by one unit.
pub open spec fn dot_v(a: Vec3, b: Vec3) -> int {
    tdiv(dot_wide(a, b), FP_ONE as int)
}

/// The fixed-point squared length.
pub open spec fn len_sq_v(v: Vec3) -> int {
    tdiv(sum_sq(v), FP_ONE as int)
}

/// The fixed-point length: the square root of the squared length.
pub open spec fn len_v(v: Vec3) -> int {
    sqrt_down(len_sq_v(v) * FP_ONE)
}

/// One normalized component: rescaled by the length, clamped into one unit.
pub open spec fn norm_comp_v(c: int, len: int) -> int {
    clamp_unit_v(tdiv(c * FP_ONE, len))
}

/// The fixed-point cross product, one component.
pub open spec fn cross_comp_v(p: int, q: int) -> int {
    tdiv(p - q, FP_ONE as int)
}

/// The normalized vector: each component rescaled by the length and
/// clamped into one unit.
pub open spec fn normalize_v(v: Vec3) -> Vec3 {
    Vec3 {
        x: norm_comp_v(v.x as int, len_v(v)) as i64,
        y: norm_comp_v(v.y as int, len_v(v)) as i64,
        z: norm_comp_v(v.z as int, len_v(v)) as i64,
    }
}

/// A product of two magnitudes stays under the product of their bounds.
pub proof fn lemma_abs_mul_bound(a: int, b: int, ma: int, mb: int)
    by (nonlinear_arith)
    requires
        abs_v(a) <= ma,
        abs_v(b) <= mb,
    ensures
        abs_v(a * b) <= ma * mb,
{
}

/// Componentwise bounds push through the wide inner product.
pub proof fn lemma_dot_wide_bound(a: Vec3, b: Vec3, m: int)
    requires
        0 <= m,
        bounded_v(a, m),
        bounded_v(b, m),
    ensures
        abs_v(dot_wide(a, b)) <= 3 * m * m,
        abs_v(sum_sq(a)) <= 3 * m * m,
{
    lemma_abs_mul_bound(a.x as int, b.x as int, m, m);
    lemma_abs_mul_bound(a.y as int, b.y as int, m, m);
    lemma_abs_mul_bound(a.z as int, b.z as int, m, m);
    lemma_abs_mul_bound(a.x as int, a.x as int, m, m);
    lemma_abs_mul_bound(a.y as int, a.y as int, m, m);
    lemma_abs_mul_bound(a.z as int, a.z as int, m, m);
    assert(3 * m * m == m * m + m * m + m * m) by (nonlinear_arith);
}

/// Rescaling by a length of less than one unit cannot shrink a
/// component's magnitude, and clamping cannot push it below one unit.
pub proof fn lemma_norm_comp_keeps_magnitude(c: int, len: int)
    requires
        1 <= len <= FP_ONE - 1,
        abs_v(c) <= FP_ONE,
    ensures
        abs_v(norm_comp_v(c, len)) >= abs_v(c),
{
    lemma_tdiv_basics(c * (FP_ONE as int), len);
    let q = tdiv(c * (FP_ONE as int), len);
    if c >= 0 {
        assert(c * (FP_ONE as int) >= 0) by (nonlinear_arith)
            requires
                c >= 0,
        ;
        assert(q >= c) by (nonlinear_arith)
            requires
                len * (q + 1) > c * (FP_ONE as int),
                1 <= len <= FP_ONE - 1,
                c >= 0,
        ;
    } else {
        assert(c * (FP_ONE as int) <= 0) by (nonlinear_arith)
            requires
                c <= 0,
        ;
        assert(q <= c) by (nonlinear_arith)
            requires
                len * (q - 1) < c * (FP_ONE as int),
                1 <= len <= FP_ONE - 1,
                c < 0,
        ;
    }
}

/// The sum of squares is never negative.
pub proof fn lemma_sum_sq_nonneg(v: Vec3)
    by (nonlinear_arith)
    ensures
        sum_sq(v) >= 0,
        v.x == 0 && v.y == 0 && v.z == 0 <==> sum_sq(v) == 0,
{
}

impl Vec3 {
    /// Build a vector from its three components.
    pub fn new(x: i64, y: i64, z: i64) -> (r: Vec3)
        ensures
            r.x == x && r.y == y && r.z == z,
    {
        Vec3 { x, y, z }
    }

    /// The zero vector.
    pub fn zero() -> (r: Vec3)
        ensures
            r.x == 0 && r.y == 0 && r.z == 0,
    {
        Vec3 { x: 0, y: 0, z: 0 }
    }

    /// Componentwise sum.
    pub fn add(&self, o: &Vec3) -> (r: Vec3)
        requires
            abs_v(self.x + o.x) <= i64::MAX,
            abs_v(self.y + o.y) <= i64::MAX,
            abs_v(self.z + o.z) <= i64::MAX,
        ensures
            r.x == self.x + o.x && r.y == self.y + o.y && r.z == self.z + o.z,
    {
        Vec3 { x: self.x + o.x, y: self.y + o.y, z: self.z + o.z }
    }

    /// Componentwise difference.
    pub fn sub(&self, o: &Vec3) -> (r: Vec3)
        requires
            abs_v(self.x - o.x) <= i64::MAX,
            abs_v(self.y - o.y) <= i64::MAX,
            abs_v(self.z - o.z) <= i64::MAX,
        ensures
            r.x == self.x - o.x && r.y == self.y - o.y && r.z == self.z - o.z,
    {
        Vec3 { x: self.x - o.x, y: self.y - o.y, z: self.z - o.z }
    }

    /// Componentwise negation.
    pub fn neg(&self) -> (r: Vec3)
        requires
            self.x > i64::MIN && self.y > i64::MIN && self.z > i64::MIN,
        ensures
            r.x == -self.x && r.y == -self.y && r.z == -self.z,
    {
        Vec3 { x: -self.x, y: -self.y, z: -self.z }
    }

    /// Scale by a fixed-point scalar, each component truncated toward zero.
    pub fn scale(&self, s: i64) -> (r: Vec3)
        requires
            bounded_v(*self, FP_FACTOR_MAX as int),
            abs_v(s as int) <= FP_FACTOR_MAX as int,
        ensures
            r.x == fp_mul_v(self.x as int, s as int),
            r.y == fp_mul_v(self.y as int, s as int),
            r.z == fp_mul_v(self.z as int, s as int),
    {
        Vec3 { x: fp_mul(self.x, s), y: fp_mul(self.y, s), z: fp_mul(self.z, s) }
    }

    /// Componentwise fixed-point product; attenuation of a color by a color.
    pub fn mul_comp(&self, o: &Vec3) -> (r: Vec3)
        requires
            bounded_v(*self, FP_FACTOR_MAX as int),
            bounded_v(*o, FP_FACTOR_MAX as int),
        ensures
            r.x == fp_mul_v(self.x as int, o.x as int),
            r.y == fp_mul_v(self.y as int, o.y as int),
            r.z == fp_mul_v(self.z as int, o.z as int),
    {
        Vec3 { x: fp_mul(self.x, o.x), y: fp_mul(self.y, o.y), z: fp_mul(self.z, o.z) }
    }

    /// The fixed-point inner product.
    pub fn dot(&self, o: &Vec3) -> (r: i64)
        requires
            bounded_v(*self, 0x4_0000_0000),
            bounded_v(*o, 0x4_0000_0000),
        ensures
            r == dot_v(*self, *o),
            abs_v(r as int) * (FP_ONE as int) <= abs_v(dot_wide(*self, *o)),
    {
        proof {
            lemma_abs_mul_bound(self.x as int, o.x as int, 0x4_0000_0000, 0x4_0000_0000);
            lemma_abs_mul_bound(self.y as int, o.y as int, 0x4_0000_0000, 0x4_0000_0000);
            lemma_abs_mul_bound(self.z as int, o.z as int, 0x4_0000_0000, 0x4_0000_0000);
            lemma_tdiv_basics(dot_wide(*self, *o), FP_ONE as int);
        }
        let p = (self.x as i128) * (o.x as i128) + (self.y as i128) * (o.y as i128)
            + (self.z as i128) * (o.z as i128);
        let q = tdiv_i128(p, 65536);
        q as i64
    }

    /// The fixed-point squared length.
    pub fn length_squared(&self) -> (r: i64)
        requires
            bounded_v(*self, 0x4_0000_0000),
        ensures
            r == len_sq_v(*self),
            0 <= r,
            (r as int) * (FP_ONE as int) <= sum_sq(*self),
    {
        proof {
            lemma_sum_sq_nonneg(*self);
        }
        self.dot(self)
    }

    /// The fixed-point length.
    pub fn length(&self) -> (r: i64)
        requires
            bounded_v(*self, 0x4000_0000),
        ensures
            r == len_v(*self),
            0 <= r,
            (r as int) * (r as int) <= len_sq_v(*self) * (FP_ONE as int),
            ((r as int) + 1) * ((r as int) + 1) > len_sq_v(*self) * (FP_ONE as int),
    {
        proof {
            lemma_dot_wide_bound(*self, *self, 0x4000_0000);
            lemma_sum_sq_nonneg(*self);
        }
        let ls = self.length_squared();
        fp_sqrt(ls)
    }

    /// Normalize to (fixed-point) unit length.  Requires a vector of length
    /// at least one half; each component of the result is clamped into one
    /// unit to absorb the final rounding.
    pub fn normalize(&self) -> (r: Vec3)
        requires
            bounded_v(*self, 0x4000_0000),
            sum_sq(*self) >= 0x4000_0000,
        ensures
            r.x == norm_comp_v(self.x as int, len_v(*self)),
            r.y == norm_comp_v(self.y as int, len_v(*self)),
            r.z == norm_comp_v(self.z as int, len_v(*self)),
            r == normalize_v(*self),
            bounded_v(r, FP_ONE as int),
    {
        let len = self.length();
        proof {
            lemma_tdiv_mono(0x4000_0000, sum_sq(*self), FP_ONE as int);
            assert(len_sq_v(*self) >= 0x4000);
            assert(((len as int) + 1) * ((len as int) + 1) > 0x4000_0000 ==> len >= 0x8000)
                by (nonlinear_arith)
                requires
                    len >= 0,
            ;
            lemma_dot_wide_bound(*self, *self, 0x4000_0000);
            lemma_tdiv_basics((self.x as int) * (FP_ONE as int), len as int);
            lemma_tdiv_basics((self.y as int) * (FP_ONE as int), len as int);
            lemma_tdiv_basics((self.z as int) * (FP_ONE as int), len as int);
        }
        let nx = tdiv_i128((self.x as i128) * 65536, len as i128);
        let ny = tdiv_i128((self.y as i128) * 65536, len as i128);
        let nz = tdiv_i128((self.z as i128) * 65536, len as i128);
        Vec3 {
            x: clamp_unit(nx as i64),
            y: clamp_unit(ny as i64),
            z: clamp_unit(nz as i64),
        }
    }

    /// The fixed-point cross product.
    pub fn cross(&self, o: &Vec3) -> (r: Vec3)
        requires
            bounded_v(*self, 0x4000_0000),
            bounded_v(*o, 0x4000_0000),
        ensures
            r.x == cross_comp_v((self.y as int) * (o.z as int), (self.z as int) * (o.y as int)),
            r.y == cross_comp_v((self.z as int) * (o.x as int), (self.x as int) * (o.z as int)),
            r.z == cross_comp_v((self.x as int) * (o.y as int), (self.y as int) * (o.x as int)),
    {
        proof {
            lemma_abs_mul_bound(self.y as int, o.z as int, 0x4000_0000, 0x4000_0000);
            lemma_abs_mul_bound(self.z as int, o.y as int, 0x4000_0000, 0x4000_0000);
            lemma_abs_mul_bound(self.z as int, o.x as int, 0x4000_0000, 0x4000_0000);
            lemma_abs_mul_bound(self.x as int, o.z as int, 0x4000_0000, 0x4000_0000);
            lemma_abs_mul_bound(self.x as int, o.y as int, 0x4000_0000, 0x4000_0000);
            lemma_abs_mul_bound(self.y as int, o.x as int, 0x4000_0000, 0x4000_0000);
            lemma_tdiv_basics(
                (self.y as int) * (o.z as int) - (self.z as int) * (o.y as int),
                FP_ONE as int,
            );
            lemma_tdiv_basics(
                (self.z as int) * (o.x as int) - (self.x as int) * (o.z as int),
                FP_ONE as int,
            );
            lemma_tdiv_basics(
                (self.x as int) * (o.y as int) - (self.y as int) * (o.x as int),
                FP_ONE as int,
            );
        }
        let cx = tdiv_i128(
            (self.y as i128) * (o.z as i128) - (self.z as i128) * (o.y as i128),
            65536,
        );
        let cy = tdiv_i128(
            (self.z as i128) * (o.x as i128) - (self.x as i128) * (o.z as i128),
            65536,
        );
        let cz = tdiv_i128(
            (self.x as i128) * (o.y as i128) - (self.y as i128) * (o.x as i128),
            65536,
        );
        Vec3 { x: cx as i64, y: cy as i64, z: cz as i64 }
    }
}

} // verus!
