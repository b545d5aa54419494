//! Random sampling: the one place the tracer draws randomness.
//!
//! The single trusted item wraps `rand`'s integer range sampling; every
//! distribution built on top of it (points in the unit sphere or disc,
//! unit vectors, hemisphere directions) is verified for every drawn value.

use vstd::prelude::*;
use crate::FP_ONE;
use crate::vec3::{
    Vec3, bounded_v, sum_sq, dot_wide, len_sq_v, len_v, lemma_abs_mul_bound,
    lemma_norm_comp_keeps_magnitude, lemma_sum_sq_nonneg,
};

verus! {

/// Relies on `rand::Rng::gen_range` over an `i64` range: the drawn value
/// lies in the half-open range `[lo, hi)`; a non-empty range is required,
/// so the call cannot panic.
#[verifier::external_body]
fn rand_range_i64(lo: i64, hi: i64) -> (r: i64)
    requires
        lo < hi,
    ensures
        lo <= r < hi,
{
    rand::Rng::gen_range(&mut rand::thread_rng(), lo..hi)
}

/// A uniform draw from `[0, 1)` in fixed-point steps.
pub fn random_fraction() -> (r: i64)
    ensures
        0 <= r < FP_ONE,
{
    rand_range_i64(0, FP_ONE)
}

/// How many rejection-sampling attempts are made before falling back to a
/// fixed interior point.
pub const SAMPLE_ATTEMPTS: usize = 32;

/// A point of the open unit ball: every component within one unit and the
/// squared magnitude below one.
pub open spec fn in_unit_sphere(v: Vec3) -> bool {
    &&& bounded_v(v, FP_ONE as int)
    &&& sum_sq(v) < (FP_ONE as int) * (FP_ONE as int)
}

/// A uniform point of the unit ball, by rejection from the enclosing cube;
/// after too many rejections a fixed interior point is returned.
pub fn random_in_unit_sphere() -> (r: Vec3)
    ensures
        in_unit_sphere(r),
{
    let mut attempt: usize = 0;
    while attempt < SAMPLE_ATTEMPTS
        decreases SAMPLE_ATTEMPTS - attempt,
    {
        let x = rand_range_i64(-FP_ONE, FP_ONE);
        let y = rand_range_i64(-FP_ONE, FP_ONE);
        let z = rand_range_i64(-FP_ONE, FP_ONE);
        proof {
            lemma_abs_mul_bound(x as int, x as int, FP_ONE as int, FP_ONE as int);
            lemma_abs_mul_bound(y as int, y as int, FP_ONE as int, FP_ONE as int);
            lemma_abs_mul_bound(z as int, z as int, FP_ONE as int, FP_ONE as int);
        }
        let ls = x * x + y * y + z * z;
        if ls < FP_ONE * FP_ONE {
            return Vec3 { x, y, z };
        }
        attempt = attempt + 1;
    }
    let fb = Vec3 { x: 32768, y: 0, z: 0 };
    proof {
        assert(sum_sq(fb) == 0x4000_0000) by (nonlinear_arith)
            requires
                fb.x == 32768 && fb.y == 0 && fb.z == 0,
        ;
    }
    fb
}

/// A random direction of (fixed-point) unit length: a ball sample of
/// length at least one half, normalized; after too many rejections a fixed
/// axis direction is returned.  The result's squared length lies between
/// one quarter and three: rescaling never shrinks a component and the
/// clamp caps each at one unit.
pub fn random_unit_vector() -> (r: Vec3)
    ensures
        bounded_v(r, FP_ONE as int),
        0x4000_0000 <= sum_sq(r) <= 0x3_0000_0000,
{
    let mut attempt: usize = 0;
    while attempt < SAMPLE_ATTEMPTS
        decreases SAMPLE_ATTEMPTS - attempt,
    {
        let x = rand_range_i64(-FP_ONE, FP_ONE);
        let y = rand_range_i64(-FP_ONE, FP_ONE);
        let z = rand_range_i64(-FP_ONE, FP_ONE);
        proof {
            lemma_abs_mul_bound(x as int, x as int, FP_ONE as int, FP_ONE as int);
            lemma_abs_mul_bound(y as int, y as int, FP_ONE as int, FP_ONE as int);
            lemma_abs_mul_bound(z as int, z as int, FP_ONE as int, FP_ONE as int);
        }
        let ls = x * x + y * y + z * z;
        if 0x4000_0000 <= ls && ls < FP_ONE * FP_ONE {
            let v = Vec3 { x, y, z };
            let n = v.normalize();
            proof {
                lemma_unit_sample_length(v, n);
            }
            return n;
        }
        attempt = attempt + 1;
    }
    let fb = Vec3 { x: 0, y: 0, z: FP_ONE };
    proof {
        assert(sum_sq(fb) == 0x1_0000_0000) by (nonlinear_arith)
            requires
                fb.x == 0 && fb.y == 0 && fb.z == FP_ONE,
        ;
    }
    fb
}

/// A normalized ball sample of length at least one half keeps a squared
/// length between one quarter and three units squared.
proof fn lemma_unit_sample_length(v: Vec3, n: Vec3)
    requires
        bounded_v(v, FP_ONE as int),
        0x4000_0000 <= sum_sq(v) < 0x1_0000_0000,
        n == crate::vec3::normalize_v(v),
    ensures
        0x4000_0000 <= sum_sq(n) <= 0x3_0000_0000,
{
    lemma_sum_sq_nonneg(v);
    crate::fixed::lemma_tdiv_basics(sum_sq(v), FP_ONE as int);
    crate::fixed::lemma_tdiv_mono(0x4000_0000, sum_sq(v), FP_ONE as int);
    crate::fixed::lemma_tdiv_mono(sum_sq(v), 0xFFFF_FFFF, FP_ONE as int);
    let ls = len_sq_v(v);
    assert(0x4000 <= ls <= 65535);
    crate::fixed::lemma_sqrt_down_exists(ls * (FP_ONE as int));
    let len = len_v(v);
    assert(len >= 1) by (nonlinear_arith)
        requires
            (len + 1) * (len + 1) > ls * 65536,
            ls >= 0x4000,
            len >= 0,
    ;
    assert(len <= 65535) by (nonlinear_arith)
        requires
            len * len <= ls * 65536,
            ls <= 65535,
            len >= 0,
    ;
    lemma_norm_comp_keeps_magnitude(v.x as int, len);
    lemma_norm_comp_keeps_magnitude(v.y as int, len);
    lemma_norm_comp_keeps_magnitude(v.z as int, len);
    assert((n.x as int) * (n.x as int) >= (v.x as int) * (v.x as int)) by (nonlinear_arith)
        requires
            crate::fixed::abs_v(n.x as int) >= crate::fixed::abs_v(v.x as int),
    ;
    assert((n.y as int) * (n.y as int) >= (v.y as int) * (v.y as int)) by (nonlinear_arith)
        requires
            crate::fixed::abs_v(n.y as int) >= crate::fixed::abs_v(v.y as int),
    ;
    assert((n.z as int) * (n.z as int) >= (v.z as int) * (v.z as int)) by (nonlinear_arith)
        requires
            crate::fixed::abs_v(n.z as int) >= crate::fixed::abs_v(v.z as int),
    ;
    lemma_abs_mul_bound(n.x as int, n.x as int, FP_ONE as int, FP_ONE as int);
    lemma_abs_mul_bound(n.y as int, n.y as int, FP_ONE as int, FP_ONE as int);
    lemma_abs_mul_bound(n.z as int, n.z as int, FP_ONE as int, FP_ONE as int);
    assert((n.x as int) * (n.x as int) >= 0 && (n.y as int) * (n.y as int) >= 0 && (n.z as int)
        * (n.z as int) >= 0) by (nonlinear_arith);
}

/// A point of the open unit disc in the xy-plane, by rejection.
pub fn random_in_unit_disc() -> (r: Vec3)
    ensures
        bounded_v(r, FP_ONE as int),
        r.z == 0,
        sum_sq(r) < (FP_ONE as int) * (FP_ONE as int),
{
    let mut attempt: usize = 0;
    while attempt < SAMPLE_ATTEMPTS
        decreases SAMPLE_ATTEMPTS - attempt,
    {
        let x = rand_range_i64(-FP_ONE, FP_ONE);
        let y = rand_range_i64(-FP_ONE, FP_ONE);
        proof {
            lemma_abs_mul_bound(x as int, x as int, FP_ONE as int, FP_ONE as int);
            lemma_abs_mul_bound(y as int, y as int, FP_ONE as int, FP_ONE as int);
        }
        let ls = x * x + y * y;
        if ls < FP_ONE * FP_ONE {
            return Vec3 { x, y, z: 0 };
        }
        attempt = attempt + 1;
    }
    let fb = Vec3 { x: 32768, y: 0, z: 0 };
    proof {
        assert(sum_sq(fb) == 0x4000_0000) by (nonlinear_arith)
            requires
                fb.x == 32768 && fb.y == 0 && fb.z == 0,
        ;
    }
    fb
}

/// A ball sample turned toward the hemisphere of `normal`: the sample is
/// kept when its fixed-point inner product with the normal is positive,
/// else negated.
pub fn random_in_hemisphere(normal: &Vec3) -> (r: Vec3)
    requires
        bounded_v(*normal, FP_ONE as int),
    ensures
        in_unit_sphere(r),
        crate::vec3::dot_v(r, *normal) >= 0,
{
    let p = random_in_unit_sphere();
    let d = p.dot(normal);
    proof {
        crate::fixed::lemma_tdiv_basics(dot_wide(p, *normal), FP_ONE as int);
    }
    if d > 0 {
        p
    } else {
        let q = p.neg();
        proof {
            assert(dot_wide(q, *normal) == -dot_wide(p, *normal) && sum_sq(q) == sum_sq(p))
                by (nonlinear_arith)
                requires
                    q.x == -(p.x as int) && q.y == -(p.y as int) && q.z == -(p.z as int),
            ;
            crate::fixed::lemma_tdiv_basics(dot_wide(q, *normal), FP_ONE as int);
        }
        q
    }
}

} // verus!
