//! Rays: parametrized lines evaluated by the tracer.

use vstd::prelude::*;
use crate::{FP_ONE, POINT_CAP, DIR_MAX, DIR_MIN_SQ, T_NEAR, T_FAR};
use crate::fixed::{abs_v, tdiv, tdiv_i128, lemma_tdiv_basics};
use crate::vec3::{Vec3, bounded_v, sum_sq};
use crate::hittable::{HittableList, scan_hit};
use crate::material::color_wf;

verus! {

/// A ray: origin plus a scaled direction.
#[derive(Clone, Copy, Debug, PartialEq, Eq, Structural)]
pub struct Ray {
    pub origin: Vec3,
    pub dir: Vec3,
}

/// Rays the tracer works on: origin inside the horizon, direction of
/// bounded magnitude and of length at least one half.
pub open spec fn ray_wf(r: Ray) -> bool {
    &&& bounded_v(r.origin, POINT_CAP as int)
    &&& bounded_v(r.dir, DIR_MAX as int)
    &&& sum_sq(r.dir) >= DIR_MIN_SQ
}

/// One component of the point a ray reaches at parameter `t`.
pub open spec fn at_comp_v(o: int, d: int, t: int) -> int {
    o + tdiv(t * d, FP_ONE as int)
}

impl Ray {
    /// Build a ray from an origin and a direction.
    pub fn new(origin: Vec3, direction: Vec3) -> (r: Ray)
        ensures
            r.origin == origin && r.dir == direction,
    {
        Ray { origin, dir: direction }
    }

    /// The point the ray reaches at parameter `t`.
    pub fn at(&self, t: i64) -> (p: Vec3)
        requires
            bounded_v(self.origin, POINT_CAP as int),
            bounded_v(self.dir, DIR_MAX as int),
            0 <= t <= 0x8000_0000,
        ensures
            p.x == at_comp_v(self.origin.x as int, self.dir.x as int, t as int),
            p.y == at_comp_v(self.origin.y as int, self.dir.y as int, t as int),
            p.z == at_comp_v(self.origin.z as int, self.dir.z as int, t as int),
            abs_v(p.x - self.origin.x) * (FP_ONE as int) <= abs_v((t as int) * (self.dir.x as int)),
            abs_v(p.y - self.origin.y) * (FP_ONE as int) <= abs_v((t as int) * (self.dir.y as int)),
            abs_v(p.z - self.origin.z) * (FP_ONE as int) <= abs_v((t as int) * (self.dir.z as int)),
    {
        proof {
            crate::vec3::lemma_abs_mul_bound(t as int, self.dir.x as int, 0x8000_0000, DIR_MAX as int);
            crate::vec3::lemma_abs_mul_bound(t as int, self.dir.y as int, 0x8000_0000, DIR_MAX as int);
            crate::vec3::lemma_abs_mul_bound(t as int, self.dir.z as int, 0x8000_0000, DIR_MAX as int);
            lemma_tdiv_basics((t as int) * (self.dir.x as int), FP_ONE as int);
            lemma_tdiv_basics((t as int) * (self.dir.y as int), FP_ONE as int);
            lemma_tdiv_basics((t as int) * (self.dir.z as int), FP_ONE as int);
        }
        let sx = tdiv_i128((t as i128) * (self.dir.x as i128), 65536);
        let sy = tdiv_i128((t as i128) * (self.dir.y as i128), 65536);
        let sz = tdiv_i128((t as i128) * (self.dir.z as i128), 65536);
        Vec3 {
            x: self.origin.x + (sx as i64),
            y: self.origin.y + (sy as i64),
            z: self.origin.z + (sz as i64),
        }
    }

    /// Incoming radiance along this ray, with a bounce budget of `depth`.
    pub fn color(&self, world: &HittableList, depth: u32) -> (c: Vec3)
        requires
            world.wf(),
            ray_wf(*self),
        ensures
            color_wf(c),
            depth == 0 ==> c == (Vec3 { x: 0i64, y: 0i64, z: 0i64 }),
            depth > 0 && (scan_hit(world@, *self, T_NEAR as int, T_FAR as int) is None) ==> c
                == crate::sky_color_v(*self),
            depth > 0 && world@.len() == 0 ==> c == crate::sky_color_v(*self),
    {
        crate::ray_color(self, world, depth)
    }
}

} // verus!
