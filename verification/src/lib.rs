//! An offline Monte-Carlo path tracer over fixed-point arithmetic.
//!
//! Geometry, colors and ray parameters are carried as 16.16 fixed-point
//! integers (`FP_ONE` units per 1.0), so that every numeric step of the
//! renderer - camera ray generation, ray/sphere intersection, material
//! scattering and the gamma/antialiasing stage - has an exact contract.
//! Randomness is drawn through a thin trusted layer over the `rand` crate;
//! everything computed from the drawn values is verified.

use vstd::prelude::*;

pub mod fixed;
pub mod vec3;
pub mod ray;
pub mod material;
pub mod hittable;
pub mod sphere;
pub mod sampling;
pub mod camera;
pub mod image;

use crate::fixed::{
    abs_v, fp_mul_v, fp_sqrt_v, tdiv, fp_mul, fp_sqrt, tdiv_i128, lemma_tdiv_basics,
    lemma_tdiv_abs_upper, lemma_fp_mul_unit_range,
};
use crate::vec3::{
    Vec3, bounded_v, dot_v, normalize_v, lemma_dot_wide_bound, lemma_abs_mul_bound,
};
use crate::ray::{Ray, ray_wf};
use crate::material::color_wf;
use crate::hittable::{HittableList, scan_hit};

pub use crate::image::render;
pub use crate::image::render_row;

verus! {

/// The fixed-point unit: values are integers counted in 1/65536 steps.
pub const FP_ONE: i64 = 65536;

/// Largest magnitude of a ray-origin or hit-point component the tracer
/// carries; hits past this horizon are treated as misses.
pub const POINT_CAP: i64 = 0x4_0000_0000;

/// Largest magnitude of a ray-direction component.
pub const DIR_MAX: i64 = 0x200_0000;

/// Smallest accepted squared length of a ray direction (half a unit).
pub const DIR_MIN_SQ: i64 = 0x4000_0000;

/// Largest magnitude of a sphere-center component, and of a radius.
pub const CENTER_MAX: i64 = 0x8000_0000;

/// The far end of the ray-parameter interval the integrator queries;
/// effectively infinity at scene scale.
pub const T_FAR: i64 = 0x8000_0000;

/// The near end of the ray-parameter interval the integrator queries:
/// about a thousandth of a unit, suppressing shadow acne.
pub const T_NEAR: i64 = 66;

/// Per-axis threshold below which a scatter direction counts as degenerate.
pub const NEAR_EPS: i64 = 256;

/// A vector below the degeneracy threshold on every axis.
pub open spec fn near_zero_v(v: Vec3) -> bool {
    &&& abs_v(v.x as int) < NEAR_EPS
    &&& abs_v(v.y as int) < NEAR_EPS
    &&& abs_v(v.z as int) < NEAR_EPS
}

/// Whether every component of `v` is below the degeneracy threshold.
pub fn near_zero(v: &Vec3) -> (r: bool)
    ensures
        r == near_zero_v(*v),
{
    -NEAR_EPS < v.x && v.x < NEAR_EPS && -NEAR_EPS < v.y && v.y < NEAR_EPS && -NEAR_EPS < v.z
        && v.z < NEAR_EPS
}

/// The mirror reflection of `v` about the normal `n`.
pub open spec fn reflect_v(v: Vec3, n: Vec3) -> Vec3 {
    let d = dot_v(v, n);
    Vec3 {
        x: ((v.x as int) - fp_mul_v(2 * d, n.x as int)) as i64,
        y: ((v.y as int) - fp_mul_v(2 * d, n.y as int)) as i64,
        z: ((v.z as int) - fp_mul_v(2 * d, n.z as int)) as i64,
    }
}

/// Mirror-reflect `v` about `n`; both within one unit per component.
pub fn reflect(v: &Vec3, n: &Vec3) -> (r: Vec3)
    requires
        bounded_v(*v, FP_ONE as int),
        bounded_v(*n, FP_ONE as int),
    ensures
        r == reflect_v(*v, *n),
        bounded_v(r, 458752),
{
    let d = v.dot(n);
    proof {
        lemma_dot_wide_bound(*v, *n, FP_ONE as int);
        assert(abs_v(d as int) <= 196608);
        lemma_abs_mul_bound(2 * (d as int), n.x as int, 393216, FP_ONE as int);
        lemma_abs_mul_bound(2 * (d as int), n.y as int, 393216, FP_ONE as int);
        lemma_abs_mul_bound(2 * (d as int), n.z as int, 393216, FP_ONE as int);
    }
    let rx = v.x - fp_mul(2 * d, n.x);
    let ry = v.y - fp_mul(2 * d, n.y);
    let rz = v.z - fp_mul(2 * d, n.z);
    Vec3 { x: rx, y: ry, z: rz }
}

/// The cosine the dielectric model uses: `min(-dot(u, n), 1)`.
pub open spec fn cos_theta_v(u: Vec3, n: Vec3) -> int {
    let d = dot_v(u, n);
    if -d > FP_ONE {
        FP_ONE as int
    } else {
        -d
    }
}

/// The refraction of unit direction `u` at a surface with unit normal `n`
/// and refraction ratio `ratio`: perpendicular and parallel components
/// assembled separately.
pub open spec fn refract_v(u: Vec3, n: Vec3, ratio: int) -> Vec3 {
    let cos = cos_theta_v(u, n);
    let px = fp_mul_v(ratio, u.x + fp_mul_v(cos, n.x as int));
    let py = fp_mul_v(ratio, u.y + fp_mul_v(cos, n.y as int));
    let pz = fp_mul_v(ratio, u.z + fp_mul_v(cos, n.z as int));
    let lsp = tdiv(px * px + py * py + pz * pz, FP_ONE as int);
    let k = abs_v(FP_ONE - lsp);
    let sq = fp_sqrt_v(k);
    Vec3 {
        x: (px - fp_mul_v(sq, n.x as int)) as i64,
        y: (py - fp_mul_v(sq, n.y as int)) as i64,
        z: (pz - fp_mul_v(sq, n.z as int)) as i64,
    }
}

/// Refract unit direction `uv` about unit normal `n` with the given ratio.
pub fn refract(uv: &Vec3, n: &Vec3, ratio: i64) -> (r: Vec3)
    requires
        bounded_v(*uv, FP_ONE as int),
        bounded_v(*n, FP_ONE as int),
        0 <= ratio <= 4 * FP_ONE,
    ensures
        r == refract_v(*uv, *n, ratio as int),
        bounded_v(r, 4194304),
{
    let d = uv.dot(n);
    proof {
        lemma_dot_wide_bound(*uv, *n, FP_ONE as int);
    }
    let cos = if -d > FP_ONE {
        FP_ONE
    } else {
        -d
    };
    proof {
        lemma_abs_mul_bound(cos as int, n.x as int, 196608, FP_ONE as int);
        lemma_abs_mul_bound(cos as int, n.y as int, 196608, FP_ONE as int);
        lemma_abs_mul_bound(cos as int, n.z as int, 196608, FP_ONE as int);
    }
    let cnx = fp_mul(cos, n.x);
    let cny = fp_mul(cos, n.y);
    let cnz = fp_mul(cos, n.z);
    proof {
        lemma_abs_mul_bound(ratio as int, (uv.x + cnx) as int, 262144,
            262144);
        lemma_abs_mul_bound(ratio as int, (uv.y + cny) as int, 262144,
            262144);
        lemma_abs_mul_bound(ratio as int, (uv.z + cnz) as int, 262144,
            262144);
    }
    let px = fp_mul(ratio, uv.x + cnx);
    let py = fp_mul(ratio, uv.y + cny);
    let pz = fp_mul(ratio, uv.z + cnz);
    proof {
        lemma_abs_mul_bound(px as int, px as int, 1048576, 1048576);
        lemma_abs_mul_bound(py as int, py as int, 1048576, 1048576);
        lemma_abs_mul_bound(pz as int, pz as int, 1048576, 1048576);
        lemma_tdiv_basics(px * px + py * py + pz * pz, FP_ONE as int);
        lemma_tdiv_abs_upper(px * px + py * py + pz * pz, FP_ONE as int, 50331648);
        assert((px as int) * px + (py as int) * py + (pz as int) * pz >= 0) by (nonlinear_arith);
    }
    let lsum = px * px + py * py + pz * pz;
    let lsp = tdiv_i128(lsum as i128, 65536) as i64;
    let k = if FP_ONE >= lsp {
        FP_ONE - lsp
    } else {
        lsp - FP_ONE
    };
    let sq = fp_sqrt(k);
    proof {
        assert(sq <= 1835008) by (nonlinear_arith)
            requires
                sq >= 0,
                (sq as int) * (sq as int) <= (k as int) * (FP_ONE as int),
                0 <= k <= 50331648,
        ;
        lemma_abs_mul_bound(sq as int, n.x as int, 1835008, FP_ONE as int);
        lemma_abs_mul_bound(sq as int, n.y as int, 1835008, FP_ONE as int);
        lemma_abs_mul_bound(sq as int, n.z as int, 1835008, FP_ONE as int);
    }
    let rx = px - fp_mul(sq, n.x);
    let ry = py - fp_mul(sq, n.y);
    let rz = pz - fp_mul(sq, n.z);
    Vec3 { x: rx, y: ry, z: rz }
}

/// The sky's horizon color (white).
pub open spec fn sky_white() -> Vec3 {
    Vec3 { x: FP_ONE, y: FP_ONE, z: FP_ONE }
}

/// The sky's zenith color (light blue).
pub open spec fn sky_blue() -> Vec3 {
    Vec3 { x: 32768, y: 45875, z: FP_ONE }
}

/// The background a missed ray sees: white blended toward sky blue by the
/// height of the normalized direction.
pub open spec fn sky_color_v(r: Ray) -> Vec3 {
    let u = normalize_v(r.dir);
    let t = tdiv(u.y + FP_ONE, 2);
    Vec3 {
        x: (fp_mul_v(sky_white().x as int, FP_ONE - t) + fp_mul_v(sky_blue().x as int, t)) as i64,
        y: (fp_mul_v(sky_white().y as int, FP_ONE - t) + fp_mul_v(sky_blue().y as int, t)) as i64,
        z: (fp_mul_v(sky_white().z as int, FP_ONE - t) + fp_mul_v(sky_blue().z as int, t)) as i64,
    }
}

/// The sky keeps its blue channel at full intensity for every direction:
/// both blend endpoints are fully blue, so the lerp is too.
pub proof fn lemma_sky_fully_blue(r: Ray)
    ensures
        sky_color_v(r).z == FP_ONE,
{
    let u = normalize_v(r.dir);
    assert(-(FP_ONE as int) <= u.y <= FP_ONE);
    lemma_tdiv_basics(u.y + FP_ONE, 2);
    crate::fixed::lemma_tdiv_upper(u.y + FP_ONE, 2, FP_ONE as int);
    let t = tdiv(u.y + FP_ONE, 2);
    assert(fp_mul_v(FP_ONE as int, FP_ONE - t) == FP_ONE - t) by {
        assert((FP_ONE as int) * (FP_ONE - t) >= 0) by (nonlinear_arith)
            requires
                t <= FP_ONE,
        ;
        vstd::arithmetic::div_mod::lemma_div_multiples_vanish(FP_ONE - t, FP_ONE as int);
    }
    assert(fp_mul_v(FP_ONE as int, t) == t) by {
        assert((FP_ONE as int) * t >= 0) by (nonlinear_arith)
            requires
                t >= 0,
        ;
        vstd::arithmetic::div_mod::lemma_div_multiples_vanish(t, FP_ONE as int);
    }
}

/// A channel saturated over every sample quantizes to the full byte.
pub proof fn lemma_gamma_full(n: int)
    requires
        n >= 1,
    ensures
        gamma_byte_v(n * (FP_ONE as int), n) == 255,
{
    assert(n * (FP_ONE as int) >= 0) by (nonlinear_arith)
        requires
            n >= 1,
    ;
    vstd::arithmetic::div_mod::lemma_div_multiples_vanish(FP_ONE as int, n);
    assert(tdiv(n * (FP_ONE as int), n) == FP_ONE);
    crate::fixed::lemma_sqrt_down_unique((65536 * 65536) as int, 65536 as int);
    assert(fp_sqrt_v(FP_ONE as int) == FP_ONE);
    lemma_tdiv_basics(255 * (FP_ONE as int), FP_ONE as int);
    vstd::arithmetic::div_mod::lemma_div_multiples_vanish(255, FP_ONE as int);
    assert((FP_ONE as int) * 255 == 255 * (FP_ONE as int)) by (nonlinear_arith);
}

/// Incoming radiance along `ray`: black once the bounce budget is spent;
/// the attenuated radiance of the scattered ray on a hit; the sky gradient
/// on a miss.
pub fn ray_color(ray: &Ray, world: &HittableList, depth: u32) -> (c: Vec3)
    requires
        world.wf(),
        ray_wf(*ray),
    ensures
        color_wf(c),
        depth == 0 ==> c == (Vec3 { x: 0i64, y: 0i64, z: 0i64 }),
        depth > 0 && (scan_hit(world@, *ray, T_NEAR as int, T_FAR as int) is None) ==> c
            == sky_color_v(*ray),
        depth > 0 && world@.len() == 0 ==> c == sky_color_v(*ray),
    decreases depth,
{
    if depth == 0 {
        return Vec3::zero();
    }
    match world.hit(ray, T_NEAR, T_FAR) {
        Some(rec) => {
            match rec.material.scatter(ray, &rec) {
                Some((scattered, attenuation)) => {
                    proof {
                        lemma_abs_mul_bound(scattered.dir.x as int, scattered.dir.x as int,
                            0x40_0000, 0x40_0000);
                        lemma_abs_mul_bound(scattered.dir.y as int, scattered.dir.y as int,
                            0x40_0000, 0x40_0000);
                        lemma_abs_mul_bound(scattered.dir.z as int, scattered.dir.z as int,
                            0x40_0000, 0x40_0000);
                    }
                    let lx = scattered.dir.x * scattered.dir.x;
                    let ly = scattered.dir.y * scattered.dir.y;
                    let lz = scattered.dir.z * scattered.dir.z;
                    if lx + ly + lz >= DIR_MIN_SQ {
                        let rc = ray_color(&scattered, world, depth - 1);
                        proof {
                            lemma_fp_mul_unit_range(attenuation.x as int, rc.x as int);
                            lemma_fp_mul_unit_range(attenuation.y as int, rc.y as int);
                            lemma_fp_mul_unit_range(attenuation.z as int, rc.z as int);
                        }
                        attenuation.mul_comp(&rc)
                    } else {
                        // a degenerate scatter direction: treat as absorbed
                        Vec3::zero()
                    }
                },
                None => Vec3::zero(),
            }
        },
        None => {
            let unit = ray.dir.normalize();
            let t = tdiv_i128((unit.y + FP_ONE) as i128, 2) as i64;
            proof {
                lemma_tdiv_basics(unit.y + FP_ONE, 2);
                lemma_tdiv_abs_upper(unit.y + FP_ONE, 2, FP_ONE as int);
                lemma_fp_mul_unit_range(FP_ONE as int, (FP_ONE - t) as int);
                lemma_fp_mul_unit_range(32768, t as int);
                lemma_fp_mul_unit_range(45875, t as int);
                lemma_fp_mul_unit_range(FP_ONE as int, t as int);
            }
            let white = Vec3 { x: FP_ONE, y: FP_ONE, z: FP_ONE };
            let blue = Vec3 { x: 32768, y: 45875, z: FP_ONE };
            let c = white.scale(FP_ONE - t).add(&blue.scale(t));
            c
        },
    }
}

} // verus!

verus! {

/// Clamp a scalar into `[min, max]`.
pub open spec fn clamp_v(x: int, min: int, max: int) -> int {
    if x < min {
        min
    } else if x > max {
        max
    } else {
        x
    }
}

/// Clamp a scalar into `[min, max]`.
pub fn clamp(x: i64, min: i64, max: i64) -> (r: i64)
    requires
        min <= max,
    ensures
        r == clamp_v(x as int, min as int, max as int),
{
    if x < min {
        min
    } else if x > max {
        max
    } else {
        x
    }
}

/// Quantize one channel to a byte: clamp into `[0, 1]`, scale by 255,
/// truncate.
pub open spec fn quant_byte_v(c: int) -> int {
    tdiv(255 * clamp_v(c, 0, FP_ONE as int), FP_ONE as int)
}

/// The averaged, gamma-2-corrected value of a channel summed over `n`
/// samples: divide by the count, then take the fixed-point square root.
pub open spec fn gamma_avg_v(c: int, n: int) -> int {
    fp_sqrt_v(tdiv(c, n))
}

/// The byte a pixel channel quantizes to after averaging and gamma.
pub open spec fn gamma_byte_v(c: int, n: int) -> int {
    quant_byte_v(gamma_avg_v(c, n))
}

/// When all `n` samples of a pixel returned the same channel value `c`,
/// the output byte is exactly the quantized fixed-point square root of
/// `c`: dividing the sum by the sample count introduces no drift.
pub proof fn lemma_identical_samples_round_trip(c: int, n: int)
    requires
        1 <= n,
        0 <= c <= FP_ONE,
    ensures
        gamma_byte_v(n * c, n) == quant_byte_v(fp_sqrt_v(c)),
{
    assert(n * c >= 0) by (nonlinear_arith)
        requires
            n >= 1,
            c >= 0,
    ;
    vstd::arithmetic::div_mod::lemma_div_multiples_vanish(c, n);
    assert(tdiv(n * c, n) == c);
}

/// Averaging zero over any positive count quantizes to the zero byte.
pub proof fn lemma_gamma_black(n: int)
    requires
        n >= 1,
    ensures
        gamma_byte_v(0, n) == 0,
{
    lemma_tdiv_basics(0, n);
    assert(tdiv(0, n) == 0);
    crate::fixed::lemma_sqrt_down_unique(0, 0);
    lemma_tdiv_basics(0, FP_ONE as int);
}

/// Quantize a color to three bytes (clamp, scale by 255, truncate).
pub fn convert_rgb(color: &Vec3) -> (r: (u8, u8, u8))
    ensures
        r.0 == quant_byte_v(color.x as int),
        r.1 == quant_byte_v(color.y as int),
        r.2 == quant_byte_v(color.z as int),
{
    proof {
        lemma_quant_byte_range(color.x as int);
        lemma_quant_byte_range(color.y as int);
        lemma_quant_byte_range(color.z as int);
    }
    let cx = clamp(color.x, 0, FP_ONE);
    let cy = clamp(color.y, 0, FP_ONE);
    let cz = clamp(color.z, 0, FP_ONE);
    let bx = tdiv_i128((255 * cx) as i128, 65536) as i64;
    let by = tdiv_i128((255 * cy) as i128, 65536) as i64;
    let bz = tdiv_i128((255 * cz) as i128, 65536) as i64;
    (bx as u8, by as u8, bz as u8)
}

/// A quantized channel is a byte value.
pub proof fn lemma_quant_byte_range(c: int)
    ensures
        0 <= quant_byte_v(c) <= 255,
{
    let cl = clamp_v(c, 0, FP_ONE as int);
    lemma_tdiv_basics(255 * cl, FP_ONE as int);
    crate::fixed::lemma_tdiv_upper(255 * cl, FP_ONE as int, 255);
}

/// A color accumulated over samples of one pixel.
pub struct Color(pub Vec3);

/// The summed x channel of a sequence of colors.
pub open spec fn csum_x(s: Seq<Color>) -> int
    decreases s.len(),
{
    if s.len() == 0 {
        0
    } else {
        csum_x(s.drop_last()) + s.last().0.x
    }
}

/// The summed y channel of a sequence of colors.
pub open spec fn csum_y(s: Seq<Color>) -> int
    decreases s.len(),
{
    if s.len() == 0 {
        0
    } else {
        csum_y(s.drop_last()) + s.last().0.y
    }
}

/// The summed z channel of a sequence of colors.
pub open spec fn csum_z(s: Seq<Color>) -> int
    decreases s.len(),
{
    if s.len() == 0 {
        0
    } else {
        csum_z(s.drop_last()) + s.last().0.z
    }
}

impl Color {
    /// Wrap a vector as a color.
    pub fn new(v: Vec3) -> (r: Color)
        ensures
            r.0 == v,
    {
        Color(v)
    }

    /// Sum a batch of per-sample colors channel by channel.
    pub fn sum(colors: &Vec<Color>) -> (r: Color)
        requires
            colors@.len() <= 0x10000,
            forall|i: int| 0 <= i < colors@.len() ==> color_wf((#[trigger] colors@[i]).0),
        ensures
            r.0.x == csum_x(colors@),
            r.0.y == csum_y(colors@),
            r.0.z == csum_z(colors@),
    {
        let mut sx: i64 = 0;
        let mut sy: i64 = 0;
        let mut sz: i64 = 0;
        let n = colors.len();
        let mut k: usize = 0;
        while k < n
            invariant
                n == colors@.len(),
                0 <= k <= n,
                n <= 0x10000,
                forall|i: int| 0 <= i < colors@.len() ==> color_wf((#[trigger] colors@[i]).0),
                sx == csum_x(colors@.take(k as int)),
                sy == csum_y(colors@.take(k as int)),
                sz == csum_z(colors@.take(k as int)),
                0 <= sx <= k * (FP_ONE as int),
                0 <= sy <= k * (FP_ONE as int),
                0 <= sz <= k * (FP_ONE as int),
            decreases n - k,
        {
            assert(colors@.take(k + 1).drop_last() == colors@.take(k as int));
            assert(colors@.take(k + 1).last() == colors@[k as int]);
            sx = sx + colors[k].0.x;
            sy = sy + colors[k].0.y;
            sz = sz + colors[k].0.z;
            k = k + 1;
        }
        assert(colors@.take(n as int) == colors@);
        Color(Vec3 { x: sx, y: sy, z: sz })
    }
}

/// Average a pixel's summed color over its sample count, gamma-correct
/// with gamma 2, and quantize each channel to a byte.
pub fn antialiasing(color: Color, samples_per_pixel: u32) -> (r: (u8, u8, u8))
    requires
        1 <= samples_per_pixel <= 0x10000,
        0 <= color.0.x <= (samples_per_pixel as int) * (FP_ONE as int),
        0 <= color.0.y <= (samples_per_pixel as int) * (FP_ONE as int),
        0 <= color.0.z <= (samples_per_pixel as int) * (FP_ONE as int),
    ensures
        r.0 == gamma_byte_v(color.0.x as int, samples_per_pixel as int),
        r.1 == gamma_byte_v(color.0.y as int, samples_per_pixel as int),
        r.2 == gamma_byte_v(color.0.z as int, samples_per_pixel as int),
{
    proof {
        assert((samples_per_pixel as int) * (FP_ONE as int) == (FP_ONE as int) * (
        samples_per_pixel as int)) by (nonlinear_arith);
        lemma_tdiv_basics(color.0.x as int, samples_per_pixel as int);
        lemma_tdiv_basics(color.0.y as int, samples_per_pixel as int);
        lemma_tdiv_basics(color.0.z as int, samples_per_pixel as int);
        crate::fixed::lemma_tdiv_upper(color.0.x as int, samples_per_pixel as int, FP_ONE as int);
        crate::fixed::lemma_tdiv_upper(color.0.y as int, samples_per_pixel as int, FP_ONE as int);
        crate::fixed::lemma_tdiv_upper(color.0.z as int, samples_per_pixel as int, FP_ONE as int);
    }
    let ax = tdiv_i128(color.0.x as i128, samples_per_pixel as i128) as i64;
    let ay = tdiv_i128(color.0.y as i128, samples_per_pixel as i128) as i64;
    let az = tdiv_i128(color.0.z as i128, samples_per_pixel as i128) as i64;
    let gx = fp_sqrt(ax);
    let gy = fp_sqrt(ay);
    let gz = fp_sqrt(az);
    proof {
        lemma_fp_root_unit(ax as int, gx as int);
        lemma_fp_root_unit(ay as int, gy as int);
        lemma_fp_root_unit(az as int, gz as int);
    }
    convert_rgb(&Vec3 { x: gx, y: gy, z: gz })
}

/// The root of an averaged channel stays within one unit.
pub proof fn lemma_fp_root_unit(a: int, g: int)
    requires
        0 <= a <= FP_ONE,
        g >= 0,
        g * g <= a * (FP_ONE as int),
    ensures
        g <= FP_ONE,
{
    assert(g > FP_ONE ==> g * g > (FP_ONE as int) * (FP_ONE as int)) by (nonlinear_arith);
    assert(a * (FP_ONE as int) <= (FP_ONE as int) * (FP_ONE as int)) by (nonlinear_arith)
        requires
            0 <= a <= FP_ONE,
    ;
}

} // verus!
