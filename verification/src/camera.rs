//! The camera: an orthonormal viewing basis and viewport geometry built
//! once, turning normalized image-plane coordinates into rays.

use vstd::prelude::*;
use crate::{FP_ONE, DIR_MIN_SQ};
use crate::fixed::{
    abs_v, fp_mul_v, tdiv, fp_mul, tdiv_i128, lemma_tdiv_basics, lemma_tdiv_abs_upper,
};
use crate::vec3::{
    Vec3, bounded_v, sum_sq, normalize_v, cross_comp_v, lemma_abs_mul_bound,
};
use crate::ray::{Ray, ray_wf};

verus! {

/// The camera's eye position and precomputed viewing geometry.
#[derive(Clone, Copy, Debug, PartialEq, Eq, Structural)]
pub struct Camera {
    pub origin: Vec3,
    pub u: Vec3,
    pub v: Vec3,
    pub w: Vec3,
    pub horizontal: Vec3,
    pub vertical: Vec3,
    pub lower_left_corner: Vec3,
    pub lens_radius: i64,
}

/// The world's up direction, seeding the viewing basis.
pub open spec fn world_up() -> Vec3 {
    Vec3 { x: 0, y: FP_ONE, z: 0 }
}

/// Componentwise difference, as a spec value.
pub open spec fn sub3_v(a: Vec3, b: Vec3) -> Vec3 {
    Vec3 { x: (a.x - b.x) as i64, y: (a.y - b.y) as i64, z: (a.z - b.z) as i64 }
}

/// Componentwise negation, as a spec value.
pub open spec fn neg3_v(a: Vec3) -> Vec3 {
    Vec3 { x: (-a.x) as i64, y: (-a.y) as i64, z: (-a.z) as i64 }
}

/// The fixed-point cross product, as a spec value.
pub open spec fn cross3_v(a: Vec3, b: Vec3) -> Vec3 {
    Vec3 {
        x: cross_comp_v((a.y as int) * (b.z as int), (a.z as int) * (b.y as int)) as i64,
        y: cross_comp_v((a.z as int) * (b.x as int), (a.x as int) * (b.z as int)) as i64,
        z: cross_comp_v((a.x as int) * (b.y as int), (a.y as int) * (b.x as int)) as i64,
    }
}

/// Componentwise scaling by a fixed-point factor, as a spec value.
pub open spec fn scale3_v(a: Vec3, s: int) -> Vec3 {
    Vec3 {
        x: fp_mul_v(a.x as int, s) as i64,
        y: fp_mul_v(a.y as int, s) as i64,
        z: fp_mul_v(a.z as int, s) as i64,
    }
}

/// The basis vector `w`: from the scene back toward the eye.
pub open spec fn basis_w_v(look_from: Vec3, look_at: Vec3) -> Vec3 {
    neg3_v(normalize_v(sub3_v(look_at, look_from)))
}

/// The un-normalized right vector: world up crossed with `w`.
pub open spec fn basis_cu_v(look_from: Vec3, look_at: Vec3) -> Vec3 {
    cross3_v(world_up(), basis_w_v(look_from, look_at))
}

/// A non-degenerate viewing setup: every ray the camera can generate -
/// for any image-plane coordinates and any lens sample - has a direction
/// of at least half a unit, so it meaningfully points at the focus plane.
pub open spec fn cam_rays_ok(c: Camera) -> bool {
    forall|s: int, t: int, rd: Vec3|
        0 <= s <= 2 * FP_ONE && 0 <= t <= 2 * FP_ONE && disc_sample(c, rd) ==> sum_sq(
            #[trigger] shoot_dir_raw_v(c, s, t, rd),
        ) >= DIR_MIN_SQ
}

/// A valid camera: eye within scene scale, unit basis vectors, viewport
/// vectors small enough that every generated ray stays in range, and a
/// non-degenerate viewing setup.
pub open spec fn cam_wf(c: Camera) -> bool {
    &&& bounded_v(c.origin, 0x2_0000_0000)
    &&& bounded_v(c.u, FP_ONE as int)
    &&& bounded_v(c.v, 131072)
    &&& bounded_v(c.w, FP_ONE as int)
    &&& bounded_v(c.horizontal, 0x20_0000)
    &&& bounded_v(c.vertical, 0x20_0000)
    &&& abs_v(c.lower_left_corner.x - c.origin.x) <= 0x80_0000
    &&& abs_v(c.lower_left_corner.y - c.origin.y) <= 0x80_0000
    &&& abs_v(c.lower_left_corner.z - c.origin.z) <= 0x80_0000
    &&& 0 <= c.lens_radius <= FP_ONE
    &&& cam_rays_ok(c)
}

/// The lens offset of a ray for a given disc sample.
pub open spec fn lens_offset_v(c: Camera, rd: Vec3) -> Vec3 {
    Vec3 {
        x: (fp_mul_v(c.u.x as int, rd.x as int) + fp_mul_v(c.v.x as int, rd.y as int)) as i64,
        y: (fp_mul_v(c.u.y as int, rd.x as int) + fp_mul_v(c.v.y as int, rd.y as int)) as i64,
        z: (fp_mul_v(c.u.z as int, rd.x as int) + fp_mul_v(c.v.z as int, rd.y as int)) as i64,
    }
}

/// The origin of a generated ray: the eye, offset across the lens.
pub open spec fn shoot_origin_v(c: Camera, rd: Vec3) -> Vec3 {
    Vec3 {
        x: (c.origin.x + lens_offset_v(c, rd).x) as i64,
        y: (c.origin.y + lens_offset_v(c, rd).y) as i64,
        z: (c.origin.z + lens_offset_v(c, rd).z) as i64,
    }
}

/// The raw direction of a generated ray, before the degeneracy guard:
/// toward the point `(s, t)` of the focus plane.
pub open spec fn shoot_dir_raw_v(c: Camera, s: int, t: int, rd: Vec3) -> Vec3 {
    let o = shoot_origin_v(c, rd);
    Vec3 {
        x: (c.lower_left_corner.x + fp_mul_v(c.horizontal.x as int, s) + fp_mul_v(
            c.vertical.x as int,
            t,
        ) - o.x) as i64,
        y: (c.lower_left_corner.y + fp_mul_v(c.horizontal.y as int, s) + fp_mul_v(
            c.vertical.y as int,
            t,
        ) - o.y) as i64,
        z: (c.lower_left_corner.z + fp_mul_v(c.horizontal.z as int, s) + fp_mul_v(
            c.vertical.z as int,
            t,
        ) - o.z) as i64,
    }
}

/// The ray generated for image-plane coordinates `(s, t)` and disc sample
/// `rd`: from the lens-offset origin toward the point `(s, t)` of the
/// focus plane.
pub open spec fn shoot_ray_v(c: Camera, s: int, t: int, rd: Vec3) -> Ray {
    Ray { origin: shoot_origin_v(c, rd), dir: shoot_dir_raw_v(c, s, t, rd) }
}

/// The camera fields a valid parameter set builds, as a spec value.
pub open spec fn built_camera(
    look_from: Vec3,
    look_at: Vec3,
    vfov_tan_half: int,
    aspect_ratio: int,
    aperture: int,
    focus_dist: int,
) -> Camera {
    let w = basis_w_v(look_from, look_at);
    let u = normalize_v(basis_cu_v(look_from, look_at));
    let v = cross3_v(w, u);
    let horizontal = scale3_v(u, fp_mul_v(focus_dist, fp_mul_v(aspect_ratio, 2 * vfov_tan_half)));
    let vertical = scale3_v(v, fp_mul_v(focus_dist, 2 * vfov_tan_half));
    Camera {
        origin: look_from,
        u,
        v,
        w,
        horizontal,
        vertical,
        lower_left_corner: Vec3 {
            x: (look_from.x - tdiv(horizontal.x as int, 2) - tdiv(vertical.x as int, 2)
                - fp_mul_v(w.x as int, focus_dist)) as i64,
            y: (look_from.y - tdiv(horizontal.y as int, 2) - tdiv(vertical.y as int, 2)
                - fp_mul_v(w.y as int, focus_dist)) as i64,
            z: (look_from.z - tdiv(horizontal.z as int, 2) - tdiv(vertical.z as int, 2)
                - fp_mul_v(w.z as int, focus_dist)) as i64,
        },
        lens_radius: tdiv(aperture, 2) as i64,
    }
}

/// A disc sample a lens draw can produce.
pub open spec fn disc_sample(c: Camera, rd: Vec3) -> bool {
    &&& bounded_v(rd, c.lens_radius as int)
    &&& rd.z == 0
}

impl Camera {
    /// Whether this camera satisfies the tracer's working ranges.
    pub open spec fn wf(self) -> bool {
        cam_wf(self)
    }

    /// Build a camera from eye position, look-at target, the tangent of
    /// half the vertical field of view, aspect ratio, lens aperture and
    /// focus distance (all fixed-point).  A degenerate setup (eye on the
    /// target, or a view straight along world up) is ruled out by the
    /// preconditions; the viewport preconditions keep every generated ray
    /// inside the tracer's working ranges.
    #[verifier::rlimit(100)]
    pub fn new(
        look_from: Vec3,
        look_at: Vec3,
        vfov_tan_half: i64,
        aspect_ratio: i64,
        aperture: i64,
        focus_dist: i64,
    ) -> (c: Camera)
        requires
            bounded_v(look_from, 0x2000_0000),
            bounded_v(look_at, 0x2000_0000),
            sum_sq(sub3_v(look_at, look_from)) >= 0x4000_0000,
            sum_sq(basis_cu_v(look_from, look_at)) >= 0x4000_0000,
            0 <= vfov_tan_half <= 4 * FP_ONE,
            0 <= aspect_ratio <= 4 * FP_ONE,
            0 <= aperture <= 2 * FP_ONE,
            0 <= focus_dist <= 0x40_0000,
            0 <= fp_mul_v(focus_dist as int, fp_mul_v(aspect_ratio as int, 2 * vfov_tan_half))
                <= 0x20_0000,
            0 <= fp_mul_v(focus_dist as int, 2 * vfov_tan_half) <= 0x10_0000,
            cam_rays_ok(
                built_camera(
                    look_from,
                    look_at,
                    vfov_tan_half as int,
                    aspect_ratio as int,
                    aperture as int,
                    focus_dist as int,
                ),
            ),
        ensures
            c.wf(),
            c == built_camera(
                look_from,
                look_at,
                vfov_tan_half as int,
                aspect_ratio as int,
                aperture as int,
                focus_dist as int,
            ),
            c.origin == look_from,
            c.w == basis_w_v(look_from, look_at),
            c.u == normalize_v(basis_cu_v(look_from, look_at)),
            c.v == cross3_v(c.w, c.u),
            c.horizontal == scale3_v(
                c.u,
                fp_mul_v(
                    focus_dist as int,
                    fp_mul_v(aspect_ratio as int, 2 * vfov_tan_half),
                ),
            ),
            c.vertical == scale3_v(c.v, fp_mul_v(focus_dist as int, 2 * vfov_tan_half)),
            c.lower_left_corner.x == c.origin.x - tdiv(c.horizontal.x as int, 2) - tdiv(
                c.vertical.x as int,
                2,
            ) - fp_mul_v(c.w.x as int, focus_dist as int),
            c.lower_left_corner.y == c.origin.y - tdiv(c.horizontal.y as int, 2) - tdiv(
                c.vertical.y as int,
                2,
            ) - fp_mul_v(c.w.y as int, focus_dist as int),
            c.lower_left_corner.z == c.origin.z - tdiv(c.horizontal.z as int, 2) - tdiv(
                c.vertical.z as int,
                2,
            ) - fp_mul_v(c.w.z as int, focus_dist as int),
            c.lens_radius == tdiv(aperture as int, 2),
    {
        let viewport_height = 2 * vfov_tan_half;
        proof {
            lemma_abs_mul_bound(aspect_ratio as int, viewport_height as int, 262144, 524288);
            lemma_tdiv_abs_upper((aspect_ratio as int) * (viewport_height as int), FP_ONE as int,
                0x20_0000);
        }
        let viewport_width = fp_mul(aspect_ratio, viewport_height);

        let vup = Vec3 { x: 0, y: FP_ONE, z: 0 };
        let gaze = look_at.sub(&look_from);
        let w = gaze.normalize().neg();
        let cu = vup.cross(&w);
        proof {
            assert(cu == basis_cu_v(look_from, look_at));
        }
        let u = cu.normalize();
        let v = w.cross(&u);
        proof {
            assert(bounded_v(v, 131072)) by {
                lemma_abs_mul_bound(w.y as int, u.z as int, 65536, 65536);
                lemma_abs_mul_bound(w.z as int, u.y as int, 65536, 65536);
                lemma_abs_mul_bound(w.z as int, u.x as int, 65536, 65536);
                lemma_abs_mul_bound(w.x as int, u.z as int, 65536, 65536);
                lemma_abs_mul_bound(w.x as int, u.y as int, 65536, 65536);
                lemma_abs_mul_bound(w.y as int, u.x as int, 65536, 65536);
                lemma_tdiv_abs_upper((w.y as int) * (u.z as int) - (w.z as int) * (u.y as int),
                    65536, 131072);
                lemma_tdiv_abs_upper((w.z as int) * (u.x as int) - (w.x as int) * (u.z as int),
                    65536, 131072);
                lemma_tdiv_abs_upper((w.x as int) * (u.y as int) - (w.y as int) * (u.x as int),
                    65536, 131072);
            }
        }

        let origin = look_from;
        let hscale = fp_mul(focus_dist, viewport_width);
        let vscale = fp_mul(focus_dist, viewport_height);
        proof {
            lemma_abs_mul_bound(u.x as int, hscale as int, 65536, 0x20_0000);
            lemma_abs_mul_bound(u.y as int, hscale as int, 65536, 0x20_0000);
            lemma_abs_mul_bound(u.z as int, hscale as int, 65536, 0x20_0000);
            lemma_abs_mul_bound(v.x as int, vscale as int, 131072, 0x10_0000);
            lemma_abs_mul_bound(v.y as int, vscale as int, 131072, 0x10_0000);
            lemma_abs_mul_bound(v.z as int, vscale as int, 131072, 0x10_0000);
            lemma_tdiv_abs_upper((u.x as int) * (hscale as int), FP_ONE as int, 0x20_0000);
            lemma_tdiv_abs_upper((u.y as int) * (hscale as int), FP_ONE as int, 0x20_0000);
            lemma_tdiv_abs_upper((u.z as int) * (hscale as int), FP_ONE as int, 0x20_0000);
            lemma_tdiv_abs_upper((v.x as int) * (vscale as int), FP_ONE as int, 0x20_0000);
            lemma_tdiv_abs_upper((v.y as int) * (vscale as int), FP_ONE as int, 0x20_0000);
            lemma_tdiv_abs_upper((v.z as int) * (vscale as int), FP_ONE as int, 0x20_0000);
        }
        let horizontal = u.scale(hscale);
        let vertical = v.scale(vscale);
        proof {
            lemma_abs_mul_bound(w.x as int, focus_dist as int, FP_ONE as int, 0x40_0000);
            lemma_abs_mul_bound(w.y as int, focus_dist as int, FP_ONE as int, 0x40_0000);
            lemma_abs_mul_bound(w.z as int, focus_dist as int, FP_ONE as int, 0x40_0000);
            lemma_tdiv_basics(horizontal.x as int, 2);
            lemma_tdiv_basics(horizontal.y as int, 2);
            lemma_tdiv_basics(horizontal.z as int, 2);
            lemma_tdiv_basics(vertical.x as int, 2);
            lemma_tdiv_basics(vertical.y as int, 2);
            lemma_tdiv_basics(vertical.z as int, 2);
            lemma_tdiv_basics(aperture as int, 2);
        }
        let fw = w.scale(focus_dist);
        let hx = tdiv_i128(horizontal.x as i128, 2) as i64;
        let hy = tdiv_i128(horizontal.y as i128, 2) as i64;
        let hz = tdiv_i128(horizontal.z as i128, 2) as i64;
        let vx = tdiv_i128(vertical.x as i128, 2) as i64;
        let vy = tdiv_i128(vertical.y as i128, 2) as i64;
        let vz = tdiv_i128(vertical.z as i128, 2) as i64;
        let lower_left_corner = Vec3 {
            x: origin.x - hx - vx - fw.x,
            y: origin.y - hy - vy - fw.y,
            z: origin.z - hz - vz - fw.z,
        };
        let lens_radius = tdiv_i128(aperture as i128, 2) as i64;
        let cam = Camera { origin, u, v, w, horizontal, vertical, lower_left_corner, lens_radius };
        proof {
            assert(cam == built_camera(look_from, look_at, vfov_tan_half as int,
                aspect_ratio as int, aperture as int, focus_dist as int));
        }
        cam
    }

    /// Turn normalized image-plane coordinates (plus a fresh lens sample)
    /// into a ray through the focus plane.
    #[verifier::rlimit(60)]
    pub fn shoot_ray(&self, s: i64, t: i64) -> (r: Ray)
        requires
            self.wf(),
            0 <= s <= 2 * FP_ONE,
            0 <= t <= 2 * FP_ONE,
        ensures
            ray_wf(r),
            exists|rd: Vec3| #[trigger] disc_sample(*self, rd) && r == shoot_ray_v(*self, s as int, t as int, rd),
            r.origin.x + r.dir.x == self.lower_left_corner.x + fp_mul_v(
                self.horizontal.x as int,
                s as int,
            ) + fp_mul_v(self.vertical.x as int, t as int),
            r.origin.y + r.dir.y == self.lower_left_corner.y + fp_mul_v(
                self.horizontal.y as int,
                s as int,
            ) + fp_mul_v(self.vertical.y as int, t as int),
            r.origin.z + r.dir.z == self.lower_left_corner.z + fp_mul_v(
                self.horizontal.z as int,
                s as int,
            ) + fp_mul_v(self.vertical.z as int, t as int),
    {
        let d = crate::sampling::random_in_unit_disc();
        let rd = d.scale(self.lens_radius);
        proof {
            lemma_abs_mul_bound(d.x as int, self.lens_radius as int, FP_ONE as int,
                FP_ONE as int);
            lemma_abs_mul_bound(d.y as int, self.lens_radius as int, FP_ONE as int,
                FP_ONE as int);
            lemma_abs_mul_bound(d.z as int, self.lens_radius as int, FP_ONE as int,
                FP_ONE as int);
            assert(abs_v((d.x as int) * (self.lens_radius as int)) <= (self.lens_radius as int)
                * (FP_ONE as int)) by (nonlinear_arith)
                requires
                    abs_v(d.x as int) <= FP_ONE,
                    0 <= self.lens_radius,
            ;
            assert(abs_v((d.y as int) * (self.lens_radius as int)) <= (self.lens_radius as int)
                * (FP_ONE as int)) by (nonlinear_arith)
                requires
                    abs_v(d.y as int) <= FP_ONE,
                    0 <= self.lens_radius,
            ;
            assert(abs_v((d.z as int) * (self.lens_radius as int)) <= (self.lens_radius as int)
                * (FP_ONE as int)) by (nonlinear_arith)
                requires
                    abs_v(d.z as int) <= FP_ONE,
                    0 <= self.lens_radius,
            ;
            lemma_tdiv_abs_upper((d.x as int) * (self.lens_radius as int), FP_ONE as int,
                self.lens_radius as int);
            lemma_tdiv_abs_upper((d.y as int) * (self.lens_radius as int), FP_ONE as int,
                self.lens_radius as int);
            lemma_tdiv_abs_upper((d.z as int) * (self.lens_radius as int), FP_ONE as int,
                self.lens_radius as int);
        }
        proof {
            lemma_abs_mul_bound(self.u.x as int, rd.x as int, FP_ONE as int, FP_ONE as int);
            lemma_abs_mul_bound(self.u.y as int, rd.x as int, FP_ONE as int, FP_ONE as int);
            lemma_abs_mul_bound(self.u.z as int, rd.x as int, FP_ONE as int, FP_ONE as int);
            lemma_abs_mul_bound(self.v.x as int, rd.y as int, 131072, FP_ONE as int);
            lemma_abs_mul_bound(self.v.y as int, rd.y as int, 131072, FP_ONE as int);
            lemma_abs_mul_bound(self.v.z as int, rd.y as int, 131072, FP_ONE as int);
        }
        let ox = fp_mul(self.u.x, rd.x) + fp_mul(self.v.x, rd.y);
        let oy = fp_mul(self.u.y, rd.x) + fp_mul(self.v.y, rd.y);
        let oz = fp_mul(self.u.z, rd.x) + fp_mul(self.v.z, rd.y);
        let origin = Vec3 { x: self.origin.x + ox, y: self.origin.y + oy, z: self.origin.z + oz };
        proof {
            lemma_abs_mul_bound(self.horizontal.x as int, s as int, 0x20_0000, 131072);
            lemma_abs_mul_bound(self.horizontal.y as int, s as int, 0x20_0000, 131072);
            lemma_abs_mul_bound(self.horizontal.z as int, s as int, 0x20_0000, 131072);
            lemma_abs_mul_bound(self.vertical.x as int, t as int, 0x20_0000, 131072);
            lemma_abs_mul_bound(self.vertical.y as int, t as int, 0x20_0000, 131072);
            lemma_abs_mul_bound(self.vertical.z as int, t as int, 0x20_0000, 131072);
        }
        let dx = self.lower_left_corner.x + fp_mul(self.horizontal.x, s) + fp_mul(
            self.vertical.x,
            t,
        ) - origin.x;
        let dy = self.lower_left_corner.y + fp_mul(self.horizontal.y, s) + fp_mul(
            self.vertical.y,
            t,
        ) - origin.y;
        let dz = self.lower_left_corner.z + fp_mul(self.horizontal.z, s) + fp_mul(
            self.vertical.z,
            t,
        ) - origin.z;
        let dir = Vec3 { x: dx, y: dy, z: dz };
        proof {
            assert(disc_sample(*self, rd));
            assert(dir == shoot_dir_raw_v(*self, s as int, t as int, rd));
            assert(sum_sq(shoot_dir_raw_v(*self, s as int, t as int, rd)) >= DIR_MIN_SQ);
        }
        Ray { origin, dir }
    }
}

} // verus!
