//! Spheres and the ray/sphere intersection.

use vstd::prelude::*;
use crate::{FP_ONE, POINT_CAP, DIR_MAX, CENTER_MAX, T_FAR};
use crate::fixed::{
    abs_v, clamp_unit_v, sqrt_down, tdiv, clamp_unit, i64_abs, isqrt_u128, tdiv_i128,
    lemma_tdiv_basics, lemma_sqrt_down_unique,
};
use crate::vec3::{Vec3, bounded_v, sum_sq, lemma_abs_mul_bound};
use crate::ray::{Ray, at_comp_v};
use crate::material::Material;
use crate::hittable::HitRecord;

verus! {

/// An immutable scene primitive: a sphere bound to a material.
#[derive(Clone, Copy, Debug, PartialEq, Eq, Structural)]
pub struct Sphere {
    pub center: Vec3,
    pub radius: i64,
    pub material: Material,
}

impl Sphere {
    /// A valid sphere: center within scene scale, positive radius, valid
    /// material.
    pub open spec fn wf(self) -> bool {
        &&& bounded_v(self.center, CENTER_MAX as int)
        &&& 1 <= self.radius <= CENTER_MAX
        &&& self.material.wf()
    }

    /// Build a sphere.
    pub fn new(center: Vec3, radius: i64, material: Material) -> (r: Sphere)
        ensures
            r.center == center,
            r.radius == radius,
            r.material == material,
    {
        Sphere { center, radius, material }
    }
}

/// The quadratic coefficient `a`: the squared magnitude of the direction.
pub open spec fn hit_a(r: Ray) -> int {
    sum_sq(r.dir)
}

/// The quadratic half-coefficient `half_b`: the inner product of the
/// center-to-origin offset with the direction.
pub open spec fn hit_half_b(r: Ray, s: Sphere) -> int {
    (r.origin.x - s.center.x) * (r.dir.x as int) + (r.origin.y - s.center.y) * (r.dir.y as int)
        + (r.origin.z - s.center.z) * (r.dir.z as int)
}

/// The quadratic constant `c`: squared offset magnitude minus squared radius.
pub open spec fn hit_c(r: Ray, s: Sphere) -> int {
    (r.origin.x - s.center.x) * (r.origin.x - s.center.x) + (r.origin.y - s.center.y) * (r.origin.y
        - s.center.y) + (r.origin.z - s.center.z) * (r.origin.z - s.center.z) - (s.radius as int) * (
    s.radius as int)
}

/// The discriminant `half_b^2 - a * c`; the ray misses when negative.
pub open spec fn hit_disc(r: Ray, s: Sphere) -> int {
    hit_half_b(r, s) * hit_half_b(r, s) - hit_a(r) * hit_c(r, s)
}

/// The rounded-down square root of the discriminant.
pub open spec fn hit_sd(r: Ray, s: Sphere) -> int {
    sqrt_down(hit_disc(r, s))
}

/// The smaller root of the quadratic, in fixed-point ray parameter units.
pub open spec fn root_small(r: Ray, s: Sphere) -> int {
    tdiv((-hit_half_b(r, s) - hit_sd(r, s)) * (FP_ONE as int), hit_a(r))
}

/// The larger root of the quadratic.
pub open spec fn root_large(r: Ray, s: Sphere) -> int {
    tdiv((-hit_half_b(r, s) + hit_sd(r, s)) * (FP_ONE as int), hit_a(r))
}

/// Whether the point the ray reaches at `t` stays inside the horizon.
pub open spec fn in_cap(r: Ray, t: int) -> bool {
    &&& abs_v(at_comp_v(r.origin.x as int, r.dir.x as int, t)) <= POINT_CAP as int
    &&& abs_v(at_comp_v(r.origin.y as int, r.dir.y as int, t)) <= POINT_CAP as int
    &&& abs_v(at_comp_v(r.origin.z as int, r.dir.z as int, t)) <= POINT_CAP as int
}

/// The root the intersection reports: the smaller root if it lies in
/// `[t_min, t_max]`, else the larger root if it does, else none.
pub open spec fn chosen_root(r: Ray, s: Sphere, t_min: int, t_max: int) -> Option<int> {
    if hit_disc(r, s) < 0 {
        None::<int>
    } else if t_min <= root_small(r, s) <= t_max {
        Some(root_small(r, s))
    } else if t_min <= root_large(r, s) <= t_max {
        Some(root_large(r, s))
    } else {
        None::<int>
    }
}

/// The outward unit normal of the sphere at the point struck at `t`, as a
/// vector value.
pub open spec fn outward_normal_v(r: Ray, s: Sphere, t: int) -> Vec3 {
    Vec3 {
        x: outward_comp(
            at_comp_v(r.origin.x as int, r.dir.x as int, t),
            s.center.x as int,
            s.radius as int,
        ) as i64,
        y: outward_comp(
            at_comp_v(r.origin.y as int, r.dir.y as int, t),
            s.center.y as int,
            s.radius as int,
        ) as i64,
        z: outward_comp(
            at_comp_v(r.origin.z as int, r.dir.z as int, t),
            s.center.z as int,
            s.radius as int,
        ) as i64,
    }
}

/// Whether the outward normal at `t` survives rounding: in exact
/// arithmetic it has unit length, but truncation could in principle shrink
/// it; a hit whose normal collapses below the degeneracy threshold is
/// treated as a miss.
pub open spec fn normal_ok(r: Ray, s: Sphere, t: int) -> bool {
    !crate::near_zero_v(outward_normal_v(r, s, t))
}

/// The parameter of the reported hit: the chosen root, kept only when the
/// struck point stays inside the horizon and its normal survives rounding.
pub open spec fn sphere_hit_t(r: Ray, s: Sphere, t_min: int, t_max: int) -> Option<int> {
    match chosen_root(r, s, t_min, t_max) {
        Some(t) => if in_cap(r, t) && normal_ok(r, s, t) {
            Some(t)
        } else {
            None::<int>
        },
        None => None::<int>,
    }
}

/// The (unscaled) inner product of the direction with the outward offset at
/// `t`; its sign decides the face orientation.
pub open spec fn ff_sum(r: Ray, s: Sphere, t: int) -> int {
    (r.dir.x as int) * (at_comp_v(r.origin.x as int, r.dir.x as int, t) - s.center.x)
        + (r.dir.y as int) * (at_comp_v(r.origin.y as int, r.dir.y as int, t) - s.center.y)
        + (r.dir.z as int) * (at_comp_v(r.origin.z as int, r.dir.z as int, t) - s.center.z)
}

/// One component of the outward unit normal: the offset from the center
/// rescaled by the radius, clamped into one unit.
pub open spec fn outward_comp(p: int, c: int, radius: int) -> int {
    clamp_unit_v(tdiv((p - c) * (FP_ONE as int), radius))
}

/// The record a sphere reports for a hit at `rec.t`: struck point, normal
/// oriented against the ray, face flag and the sphere's material.
pub open spec fn hit_record_matches(r: Ray, s: Sphere, rec: HitRecord) -> bool {
    let px = at_comp_v(r.origin.x as int, r.dir.x as int, rec.t as int);
    let py = at_comp_v(r.origin.y as int, r.dir.y as int, rec.t as int);
    let pz = at_comp_v(r.origin.z as int, r.dir.z as int, rec.t as int);
    let nx = outward_comp(px, s.center.x as int, s.radius as int);
    let ny = outward_comp(py, s.center.y as int, s.radius as int);
    let nz = outward_comp(pz, s.center.z as int, s.radius as int);
    &&& rec.point.x == px && rec.point.y == py && rec.point.z == pz
    &&& rec.front_face == (ff_sum(r, s, rec.t as int) < 0)
    &&& rec.normal.x == if rec.front_face {
        nx
    } else {
        -nx
    }
    &&& rec.normal.y == if rec.front_face {
        ny
    } else {
        -ny
    }
    &&& rec.normal.z == if rec.front_face {
        nz
    } else {
        -nz
    }
    &&& rec.material == s.material
}

impl Sphere {
    /// Solve the ray/sphere quadratic and report the nearest root in
    /// `[t_min, t_max]`, or `None` on a miss.
    pub fn hit(&self, ray: &Ray, t_min: i64, t_max: i64) -> (res: Option<HitRecord>)
        requires
            self.wf(),
            bounded_v(ray.origin, POINT_CAP as int),
            bounded_v(ray.dir, DIR_MAX as int),
            1 <= sum_sq(ray.dir),
            0 <= t_min <= t_max <= T_FAR,
        ensures
            match res {
                Some(rec) => {
                    &&& sphere_hit_t(*ray, *self, t_min as int, t_max as int) == Some(
                        rec.t as int,
                    )
                    &&& t_min <= rec.t <= t_max
                    &&& hit_record_matches(*ray, *self, rec)
                    &&& crate::hittable::rec_wf(rec)
                },
                None => sphere_hit_t(*ray, *self, t_min as int, t_max as int) is None,
            },
    {
        proof {
            lemma_hit_bounds(*ray, *self);
        }
        let ocx = (ray.origin.x as i128) - (self.center.x as i128);
        let ocy = (ray.origin.y as i128) - (self.center.y as i128);
        let ocz = (ray.origin.z as i128) - (self.center.z as i128);
        let dx = ray.dir.x as i128;
        let dy = ray.dir.y as i128;
        let dz = ray.dir.z as i128;
        let a = dx * dx + dy * dy + dz * dz;
        let half_b = ocx * dx + ocy * dy + ocz * dz;
        let c = ocx * ocx + ocy * ocy + ocz * ocz - (self.radius as i128) * (self.radius as i128);
        let disc = half_b * half_b - a * c;
        if disc < 0 {
            return None;
        }
        let sd = isqrt_u128(disc as u128) as i128;
        proof {
            lemma_sqrt_down_unique(hit_disc(*ray, *self), sd as int);
            lemma_tdiv_basics((-half_b - sd) as int * (FP_ONE as int), a as int);
            lemma_tdiv_basics((-half_b + sd) as int * (FP_ONE as int), a as int);
        }
        let root_s = tdiv_i128((-half_b - sd) * 65536, a);
        let root_l = tdiv_i128((-half_b + sd) * 65536, a);
        let root: i64 = if (t_min as i128) <= root_s && root_s <= (t_max as i128) {
            root_s as i64
        } else if (t_min as i128) <= root_l && root_l <= (t_max as i128) {
            root_l as i64
        } else {
            return None;
        };
        let point = ray.at(root);
        if i64_abs(point.x) > POINT_CAP as u64 || i64_abs(point.y) > POINT_CAP as u64 || i64_abs(
            point.z,
        ) > POINT_CAP as u64 {
            return None;
        }
        let px = point.x - self.center.x;
        let py = point.y - self.center.y;
        let pz = point.z - self.center.z;
        proof {
            lemma_tdiv_basics((px as int) * (FP_ONE as int), self.radius as int);
            lemma_tdiv_basics((py as int) * (FP_ONE as int), self.radius as int);
            lemma_tdiv_basics((pz as int) * (FP_ONE as int), self.radius as int);
            lemma_abs_mul_bound(ray.dir.x as int, px as int, DIR_MAX as int, 0x10_0000_0000);
            lemma_abs_mul_bound(ray.dir.y as int, py as int, DIR_MAX as int, 0x10_0000_0000);
            lemma_abs_mul_bound(ray.dir.z as int, pz as int, DIR_MAX as int, 0x10_0000_0000);
        }
        let nx = clamp_unit(tdiv_i128((px as i128) * 65536, self.radius as i128) as i64);
        let ny = clamp_unit(tdiv_i128((py as i128) * 65536, self.radius as i128) as i64);
        let nz = clamp_unit(tdiv_i128((pz as i128) * 65536, self.radius as i128) as i64);
        let outward = Vec3::new(nx, ny, nz);
        if crate::near_zero(&outward) {
            return None;
        }
        let ffs = dx * (px as i128) + dy * (py as i128) + dz * (pz as i128);
        let front_face = ffs < 0;
        let normal = if front_face {
            Vec3::new(nx, ny, nz)
        } else {
            Vec3::new(-nx, -ny, -nz)
        };
        Some(HitRecord::new(point, normal, root, front_face, self.material))
    }
}

/// A ray exactly tangent to a sphere (zero discriminant) offers at most
/// one root: the two candidate roots of the quadratic coincide, so the
/// intersection can never report two distinct parameters for it.
pub proof fn lemma_tangent_single_root(r: Ray, s: Sphere, t_min: int, t_max: int)
    requires
        hit_disc(r, s) == 0,
        hit_a(r) >= 1,
    ensures
        root_small(r, s) == root_large(r, s),
        sphere_hit_t(r, s, t_min, t_max) is None || sphere_hit_t(r, s, t_min, t_max) == Some(
            root_small(r, s),
        ),
{
    lemma_sqrt_down_unique(0, 0);
    assert(hit_sd(r, s) == 0);
}

/// Shrinking the far end of the query interval filters the reported hit:
/// a hit at or below the tighter bound is reported unchanged, and any
/// other outcome becomes a miss.
pub proof fn lemma_sphere_hit_tighten(ray: Ray, s: Sphere, t_min: int, t_cap: int, t_max: int)
    requires
        t_min <= t_cap <= t_max,
        hit_a(ray) >= 1,
    ensures
        match sphere_hit_t(ray, s, t_min, t_max) {
            Some(t) => sphere_hit_t(ray, s, t_min, t_cap) == (if t <= t_cap {
                Some(t)
            } else {
                None::<int>
            }),
            None => sphere_hit_t(ray, s, t_min, t_cap) is None,
        },
{
    if hit_disc(ray, s) >= 0 {
        crate::fixed::lemma_sqrt_down_exists(hit_disc(ray, s));
        let sd = hit_sd(ray, s);
        assert(sd >= 0);
        let num_s = (-hit_half_b(ray, s) - sd) * (FP_ONE as int);
        let num_l = (-hit_half_b(ray, s) + sd) * (FP_ONE as int);
        assert(num_s <= num_l);
        crate::fixed::lemma_tdiv_mono(num_s, num_l, hit_a(ray));
        assert(root_small(ray, s) <= root_large(ray, s));
    }
}

/// How one axis behaves on the way from the origin toward the center: for
/// a parameter strictly inside `(0, 1)` the traveled offset keeps the sign
/// of the direction and stays strictly short of it.
proof fn lemma_aim_term(d: int, t: int)
    requires
        1 <= t < FP_ONE,
    ensures
        d > 0 ==> 0 <= tdiv(t * d, FP_ONE as int) < d,
        d < 0 ==> d < tdiv(t * d, FP_ONE as int) <= 0,
        d != 0 ==> d * (tdiv(t * d, FP_ONE as int) - d) < 0,
        d == 0 ==> tdiv(t * d, FP_ONE as int) == 0,
{
    lemma_tdiv_basics(t * d, FP_ONE as int);
    let q = tdiv(t * d, FP_ONE as int);
    if d > 0 {
        assert(t * d >= 0) by (nonlinear_arith)
            requires
                t >= 1,
                d > 0,
        ;
        assert(t * d < 65536 * d) by (nonlinear_arith)
            requires
                t < 65536,
                d > 0,
        ;
        assert(q < d) by (nonlinear_arith)
            requires
                65536 * q <= t * d,
                t * d < 65536 * d,
        ;
        assert(d * (q - d) < 0) by (nonlinear_arith)
            requires
                d > 0,
                q < d,
        ;
    } else if d < 0 {
        assert(t * d <= 0) by (nonlinear_arith)
            requires
                t >= 1,
                d < 0,
        ;
        assert(t * d > 65536 * d) by (nonlinear_arith)
            requires
                t < 65536,
                d < 0,
        ;
        assert(q > d) by (nonlinear_arith)
            requires
                65536 * q >= t * d,
                t * d > 65536 * d,
        ;
        assert(d * (q - d) < 0) by (nonlinear_arith)
            requires
                d < 0,
                q > d,
        ;
    } else {
        assert(t * 0 == 0) by (nonlinear_arith);
    }
}

/// On an axis carrying at least a third of the direction's squared
/// magnitude, the struck point stays many rounding steps short of the
/// center, so its normal component clears the degeneracy threshold.
proof fn lemma_axis_strict(d: int, t: int, aa: int, sd: int, r: int)
    requires
        1 <= t < FP_ONE,
        aa >= 1,
        r >= 1,
        3 * (d * d) >= aa,
        d != 0,
        abs_v(d) * r <= sd,
        aa * (FP_ONE - t) >= sd * (FP_ONE as int),
    ensures
        abs_v(tdiv(t * d, FP_ONE as int) - d) * (FP_ONE as int) >= 256 * r,
{
    lemma_tdiv_basics(t * d, FP_ONE as int);
    let q = tdiv(t * d, FP_ONE as int);
    let e = q - d;
    assert(abs_v(t * d) == t * abs_v(d)) by (nonlinear_arith)
        requires
            t >= 0,
    ;
    assert(abs_v(q) * (FP_ONE as int) <= t * abs_v(d));
    assert(abs_v(e) >= abs_v(d) - abs_v(q));
    assert((FP_ONE as int) * abs_v(e) >= abs_v(d) * (FP_ONE - t)) by (nonlinear_arith)
        requires
            abs_v(e) >= abs_v(d) - abs_v(q),
            abs_v(q) * (FP_ONE as int) <= t * abs_v(d),
            0 <= t <= FP_ONE,
            abs_v(d) >= 0,
            abs_v(q) >= 0,
            abs_v(e) >= 0,
    ;
    assert(abs_v(d) * abs_v(d) == d * d) by (nonlinear_arith);
    assert(abs_v(e) * (FP_ONE as int) >= 256 * r) by (nonlinear_arith)
        requires
            (FP_ONE as int) * abs_v(e) >= abs_v(d) * (FP_ONE - t),
            aa * (FP_ONE - t) >= sd * (FP_ONE as int),
            sd >= abs_v(d) * r,
            3 * (d * d) >= aa,
            abs_v(d) >= 1,
            aa >= 1,
            r >= 1,
            1 <= t < FP_ONE,
            abs_v(e) >= 0,
            abs_v(d) * abs_v(d) == d * d,
    ;
}

/// A center offset of at least a third of the radius yields a normal
/// component clear of the degeneracy threshold, before and after clamping.
proof fn lemma_comp_clears_threshold(e: int, radius: int)
    requires
        radius >= 1,
        abs_v(e) * (FP_ONE as int) >= 256 * radius,
    ensures
        abs_v(clamp_unit_v(tdiv(e * (FP_ONE as int), radius))) >= 256,
{
    assert(abs_v(e * (FP_ONE as int)) == abs_v(e) * (FP_ONE as int)) by (nonlinear_arith);
    crate::fixed::lemma_tdiv_lower_mag(e * (FP_ONE as int), radius, 256);
}

/// The sign and strength of one normal component times the matching
/// origin-minus-center component: never negative, and at least one when
/// the axis offset clears the radius.
proof fn lemma_normal_term_sign(d: int, t: int, r: int)
    requires
        1 <= t < FP_ONE,
        r >= 1,
    ensures
        clamp_unit_v(tdiv((tdiv(t * d, FP_ONE as int) - d) * (FP_ONE as int), r)) * (-d) >= 0,
        d != 0 && abs_v(tdiv(t * d, FP_ONE as int) - d) * (FP_ONE as int) >= r
            ==> clamp_unit_v(tdiv((tdiv(t * d, FP_ONE as int) - d) * (FP_ONE as int), r)) * (-d)
            >= 1,
{
    lemma_aim_term(d, t);
    let e = tdiv(t * d, FP_ONE as int) - d;
    lemma_tdiv_basics(e * (FP_ONE as int), r);
    let w = tdiv(e * (FP_ONE as int), r);
    let cw = clamp_unit_v(w);
    if d > 0 {
        assert(e < 0);
        assert(e * (FP_ONE as int) < 0) by (nonlinear_arith)
            requires
                e < 0,
        ;
        assert(cw <= 0 && cw >= -(FP_ONE as int));
        assert(cw * (-d) >= 0) by (nonlinear_arith)
            requires
                cw <= 0,
                d > 0,
        ;
        if abs_v(e) * (FP_ONE as int) >= r {
            assert(e * (FP_ONE as int) <= -r) by (nonlinear_arith)
                requires
                    abs_v(e) * (FP_ONE as int) >= r,
                    e < 0,
            ;
            assert(w <= -1) by (nonlinear_arith)
                requires
                    e * (FP_ONE as int) > r * (w - 1),
                    e * (FP_ONE as int) <= -r,
                    r >= 1,
            ;
            assert(cw <= -1);
            assert(cw * (-d) >= 1) by (nonlinear_arith)
                requires
                    cw <= -1,
                    d >= 1,
            ;
        }
    } else if d < 0 {
        assert(e > 0);
        assert(e * (FP_ONE as int) > 0) by (nonlinear_arith)
            requires
                e > 0,
        ;
        assert(cw >= 0 && cw <= FP_ONE);
        assert(cw * (-d) >= 0) by (nonlinear_arith)
            requires
                cw >= 0,
                d < 0,
        ;
        if abs_v(e) * (FP_ONE as int) >= r {
            assert(e * (FP_ONE as int) >= r) by (nonlinear_arith)
                requires
                    abs_v(e) * (FP_ONE as int) >= r,
                    e > 0,
            ;
            assert(w >= 1) by (nonlinear_arith)
                requires
                    r * w <= e * (FP_ONE as int),
                    r * (w + 1) > e * (FP_ONE as int),
                    e * (FP_ONE as int) >= r,
                    r >= 1,
                    w >= 0,
            ;
            assert(cw >= 1);
            assert(cw * (-d) >= 1) by (nonlinear_arith)
                requires
                    cw >= 1,
                    d <= -1,
            ;
        }
    } else {
        assert(e == 0);
        assert(tdiv(0, r) == 0) by {
            lemma_tdiv_basics(0, r);
        }
        assert(e * (FP_ONE as int) == 0) by (nonlinear_arith)
            requires
                e == 0,
        ;
        assert(cw * 0 == 0) by (nonlinear_arith);
    }
}

/// A ray whose origin lies outside a sphere, aimed exactly at its center,
/// always hits it: the reported parameter is strictly between zero and
/// one, the hit is a front face, and the stored outward normal points from
/// the center back toward the ray origin.  The origin must clear the
/// surface by a small fixed-point margin, and the sphere's radius must
/// exceed a few rounding steps, else truncation can round the entry point
/// onto the origin itself.
pub proof fn lemma_aimed_at_center_hits(ray: Ray, s: Sphere, t_max: int)
    requires
        s.wf(),
        bounded_v(ray.origin, 0x1_0000_0000),
        bounded_v(ray.dir, DIR_MAX as int),
        ray.dir.x == s.center.x - ray.origin.x,
        ray.dir.y == s.center.y - ray.origin.y,
        ray.dir.z == s.center.z - ray.origin.z,
        hit_c(ray, s) > 0,
        hit_c(ray, s) * (FP_ONE as int) >= 2 * hit_a(ray),
        s.radius >= 4,
        FP_ONE <= t_max <= T_FAR,
    ensures
        sphere_hit_t(ray, s, 0, t_max) == Some(root_small(ray, s)),
        0 < root_small(ray, s) < FP_ONE,
        ff_sum(ray, s, root_small(ray, s)) < 0,
        ({
            let t = root_small(ray, s);
            let px = at_comp_v(ray.origin.x as int, ray.dir.x as int, t);
            let py = at_comp_v(ray.origin.y as int, ray.dir.y as int, t);
            let pz = at_comp_v(ray.origin.z as int, ray.dir.z as int, t);
            outward_comp(px, s.center.x as int, s.radius as int) * (ray.origin.x - s.center.x)
                + outward_comp(py, s.center.y as int, s.radius as int) * (ray.origin.y
                - s.center.y) + outward_comp(pz, s.center.z as int, s.radius as int) * (
            ray.origin.z - s.center.z) > 0
        }),
{
    let dx = ray.dir.x as int;
    let dy = ray.dir.y as int;
    let dz = ray.dir.z as int;
    let aa = hit_a(ray);
    let hb = hit_half_b(ray, s);
    let cc = hit_c(ray, s);
    let rr = (s.radius as int) * (s.radius as int);
    assert(hb == -aa && cc == aa - rr) by (nonlinear_arith)
        requires
            ray.origin.x - s.center.x == -dx,
            ray.origin.y - s.center.y == -dy,
            ray.origin.z - s.center.z == -dz,
            hb == (ray.origin.x - s.center.x) * dx + (ray.origin.y - s.center.y) * dy + (
            ray.origin.z - s.center.z) * dz,
            cc == (ray.origin.x - s.center.x) * (ray.origin.x - s.center.x) + (ray.origin.y
                - s.center.y) * (ray.origin.y - s.center.y) + (ray.origin.z - s.center.z) * (
            ray.origin.z - s.center.z) - rr,
            aa == dx * dx + dy * dy + dz * dz,
    ;
    assert(rr >= 16) by (nonlinear_arith)
        requires
            s.radius >= 4,
            rr == (s.radius as int) * (s.radius as int),
    ;
    assert(aa >= 17);
    let disc = hit_disc(ray, s);
    assert(disc == aa * rr) by (nonlinear_arith)
        requires
            disc == hb * hb - aa * cc,
            hb == -aa,
            cc == aa - rr,
    ;
    assert(disc >= aa * 16 >= 272) by (nonlinear_arith)
        requires
            disc == aa * rr,
            rr >= 16,
            aa >= 17,
    ;
    crate::fixed::lemma_sqrt_down_exists(disc);
    let sd = hit_sd(ray, s);
    assert(sd >= 1) by (nonlinear_arith)
        requires
            (sd + 1) * (sd + 1) > 272,
            sd >= 0,
    ;
    // sd stays at least half the surface clearance below aa
    assert(2 * sd <= 2 * aa - cc) by (nonlinear_arith)
        requires
            sd * sd <= aa * rr,
            rr == aa - cc,
            sd >= 0,
            2 * aa - cc > 0,
            cc > 0,
            aa >= 1,
    ;
    let num = (-hb - sd) * (FP_ONE as int);
    assert(num == (aa - sd) * (FP_ONE as int));
    assert(num >= aa) by (nonlinear_arith)
        requires
            2 * sd <= 2 * aa - cc,
            cc * (FP_ONE as int) >= 2 * aa,
            num == (aa - sd) * (FP_ONE as int),
            aa >= 1,
    ;
    lemma_tdiv_basics(num, aa);
    let t = root_small(ray, s);
    // at least one step forward
    assert(t >= 1) by {
        crate::fixed::lemma_tdiv_mono(aa, num, aa);
        vstd::arithmetic::div_mod::lemma_div_by_self(aa);
        assert(tdiv(aa, aa) == 1);
    }
    // and strictly short of the center
    assert(num <= (aa - 1) * (FP_ONE as int)) by (nonlinear_arith)
        requires
            num == (aa - sd) * (FP_ONE as int),
            sd >= 1,
    ;
    assert(t < FP_ONE) by (nonlinear_arith)
        requires
            aa * t <= num,
            num <= (aa - 1) * (FP_ONE as int),
            aa >= 1,
            t >= 0,
    ;
    // the chosen root is the smaller one, inside the queried interval
    assert(chosen_root(ray, s, 0, t_max) == Some(t));
    // the struck point stays inside the horizon
    lemma_aim_term(dx, t);
    lemma_aim_term(dy, t);
    lemma_aim_term(dz, t);
    let qx = tdiv(t * dx, FP_ONE as int);
    let qy = tdiv(t * dy, FP_ONE as int);
    let qz = tdiv(t * dz, FP_ONE as int);
    assert(abs_v(qx) <= abs_v(dx) && abs_v(qy) <= abs_v(dy) && abs_v(qz) <= abs_v(dz));
    assert(in_cap(ray, t));
    // front face: the direction points against the outward offset
    let px = at_comp_v(ray.origin.x as int, dx, t);
    let py = at_comp_v(ray.origin.y as int, dy, t);
    let pz = at_comp_v(ray.origin.z as int, dz, t);
    assert(px - s.center.x == qx - dx);
    assert(py - s.center.y == qy - dy);
    assert(pz - s.center.z == qz - dz);
    assert(!(dx == 0 && dy == 0 && dz == 0)) by (nonlinear_arith)
        requires
            dx * dx + dy * dy + dz * dz >= 1,
    ;
    assert(ff_sum(ray, s, t) == dx * (qx - dx) + dy * (qy - dy) + dz * (qz - dz));
    assert(ff_sum(ray, s, t) < 0);
    // the stored normal points back toward the origin
    lemma_normal_term_sign(dx, t, s.radius as int);
    lemma_normal_term_sign(dy, t, s.radius as int);
    lemma_normal_term_sign(dz, t, s.radius as int);
    assert(aa * ((FP_ONE as int) - t) >= sd * (FP_ONE as int)) by (nonlinear_arith)
        requires
            aa * t <= num,
            num == (aa - sd) * (FP_ONE as int),
            aa >= 1,
    ;
    assert(dx * dx >= 0 && dy * dy >= 0 && dz * dz >= 0) by (nonlinear_arith);
    assert((abs_v(dx) * (s.radius as int) <= sd) && (abs_v(dy) * (s.radius as int) <= sd) && (
    abs_v(dz) * (s.radius as int) <= sd)) by (nonlinear_arith)
        requires
            (sd + 1) * (sd + 1) > aa * rr,
            sd * sd <= aa * rr,
            sd >= 0,
            rr == (s.radius as int) * (s.radius as int),
            s.radius >= 1,
            dx * dx <= aa,
            dy * dy <= aa,
            dz * dz <= aa,
            aa == dx * dx + dy * dy + dz * dz,
    ;
    assert(outward_comp(px, s.center.x as int, s.radius as int) == clamp_unit_v(tdiv((qx - dx) * (
    FP_ONE as int), s.radius as int)));
    assert(outward_comp(py, s.center.y as int, s.radius as int) == clamp_unit_v(tdiv((qy - dy) * (
    FP_ONE as int), s.radius as int)));
    assert(outward_comp(pz, s.center.z as int, s.radius as int) == clamp_unit_v(tdiv((qz - dz) * (
    FP_ONE as int), s.radius as int)));
    if 3 * (dx * dx) >= aa {
        assert(dx != 0) by (nonlinear_arith)
            requires
                3 * (dx * dx) >= aa,
                aa >= 1,
        ;
        lemma_axis_strict(dx, t, aa, sd, s.radius as int);
        lemma_comp_clears_threshold(qx - dx, s.radius as int);
        assert(abs_v(outward_normal_v(ray, s, t).x as int) >= 256);
    } else if 3 * (dy * dy) >= aa {
        assert(dy != 0) by (nonlinear_arith)
            requires
                3 * (dy * dy) >= aa,
                aa >= 1,
        ;
        lemma_axis_strict(dy, t, aa, sd, s.radius as int);
        lemma_comp_clears_threshold(qy - dy, s.radius as int);
        assert(abs_v(outward_normal_v(ray, s, t).y as int) >= 256);
    } else {
        assert(3 * (dz * dz) >= aa);
        assert(dz != 0) by (nonlinear_arith)
            requires
                3 * (dz * dz) >= aa,
                aa >= 1,
        ;
        lemma_axis_strict(dz, t, aa, sd, s.radius as int);
        lemma_comp_clears_threshold(qz - dz, s.radius as int);
        assert(abs_v(outward_normal_v(ray, s, t).z as int) >= 256);
    }
    // the normal survives the rounding guard, so the hit is reported
    assert(normal_ok(ray, s, t));
    assert(sphere_hit_t(ray, s, 0, t_max) == Some(t));
}

/// Magnitude bounds for every intermediate of the intersection quadratic,
/// for a valid sphere and a ray inside the tracer's working ranges.
proof fn lemma_hit_bounds(r: Ray, s: Sphere)
    requires
        s.wf(),
        bounded_v(r.origin, POINT_CAP as int),
        bounded_v(r.dir, DIR_MAX as int),
        1 <= sum_sq(r.dir),
    ensures
        abs_v((r.origin.x - s.center.x) * (r.dir.x as int)) <= 0xA00_0000_0000_0000,
        abs_v((r.origin.y - s.center.y) * (r.dir.y as int)) <= 0xA00_0000_0000_0000,
        abs_v((r.origin.z - s.center.z) * (r.dir.z as int)) <= 0xA00_0000_0000_0000,
        abs_v((r.origin.x - s.center.x) * (r.origin.x - s.center.x))
            <= 0x19_0000_0000_0000_0000,
        abs_v((r.origin.y - s.center.y) * (r.origin.y - s.center.y))
            <= 0x19_0000_0000_0000_0000,
        abs_v((r.origin.z - s.center.z) * (r.origin.z - s.center.z))
            <= 0x19_0000_0000_0000_0000,
        abs_v((r.dir.x as int) * (r.dir.x as int)) <= 0x4_0000_0000_0000,
        abs_v((r.dir.y as int) * (r.dir.y as int)) <= 0x4_0000_0000_0000,
        abs_v((r.dir.z as int) * (r.dir.z as int)) <= 0x4_0000_0000_0000,
        abs_v((s.radius as int) * (s.radius as int)) <= 0x4000_0000_0000_0000,
        abs_v(hit_half_b(r, s)) <= 0x1E00_0000_0000_0000,
        1 <= hit_a(r) <= 0xC_0000_0000_0000,
        abs_v(hit_c(r, s)) <= 0x50_0000_0000_0000_0000,
        abs_v(hit_half_b(r, s) * hit_half_b(r, s)) <= 0x400_0000_0000_0000_0000_0000_0000_0000,
        abs_v(hit_a(r) * hit_c(r, s)) <= 0x400_0000_0000_0000_0000_0000_0000_0000,
        abs_v(hit_disc(r, s)) <= 0x800_0000_0000_0000_0000_0000_0000_0000,
{
    let ox = r.origin.x - s.center.x;
    let oy = r.origin.y - s.center.y;
    let oz = r.origin.z - s.center.z;
    assert(abs_v(ox) <= 0x5_0000_0000 && abs_v(oy) <= 0x5_0000_0000 && abs_v(oz)
        <= 0x5_0000_0000);
    lemma_abs_mul_bound(ox, r.dir.x as int, 0x5_0000_0000, DIR_MAX as int);
    lemma_abs_mul_bound(oy, r.dir.y as int, 0x5_0000_0000, DIR_MAX as int);
    lemma_abs_mul_bound(oz, r.dir.z as int, 0x5_0000_0000, DIR_MAX as int);
    lemma_abs_mul_bound(ox, ox, 0x5_0000_0000, 0x5_0000_0000);
    lemma_abs_mul_bound(oy, oy, 0x5_0000_0000, 0x5_0000_0000);
    lemma_abs_mul_bound(oz, oz, 0x5_0000_0000, 0x5_0000_0000);
    lemma_abs_mul_bound(s.radius as int, s.radius as int, CENTER_MAX as int, CENTER_MAX as int);
    lemma_abs_mul_bound(r.dir.x as int, r.dir.x as int, DIR_MAX as int, DIR_MAX as int);
    lemma_abs_mul_bound(r.dir.y as int, r.dir.y as int, DIR_MAX as int, DIR_MAX as int);
    lemma_abs_mul_bound(r.dir.z as int, r.dir.z as int, DIR_MAX as int, DIR_MAX as int);
    lemma_abs_mul_bound(hit_half_b(r, s), hit_half_b(r, s), 0x1E00_0000_0000_0000,
        0x1E00_0000_0000_0000);
    lemma_abs_mul_bound(hit_a(r), hit_c(r, s), 0xC_0000_0000_0000, 0x50_0000_0000_0000_0000);
    assert(0x1E00_0000_0000_0000 * 0x1E00_0000_0000_0000
        <= 0x400_0000_0000_0000_0000_0000_0000_0000int) by (nonlinear_arith);
    assert(0xC_0000_0000_0000 * 0x50_0000_0000_0000_0000int
        <= 0x400_0000_0000_0000_0000_0000_0000_0000int) by (nonlinear_arith);
}

} // verus!
