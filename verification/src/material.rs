//! Surface materials: diffuse, metallic and dielectric scattering.

use vstd::prelude::*;
use crate::{FP_ONE, near_zero_v, near_zero, reflect_v, reflect, refract_v, refract, cos_theta_v};
use crate::fixed::{
    abs_v, fp_mul_v, fp_div_v, fp_sqrt_v, fp_mul, fp_div, fp_sqrt, lemma_tdiv_basics,
    lemma_tdiv_abs_upper,
};
use crate::vec3::{
    Vec3, bounded_v, dot_v, normalize_v, lemma_dot_wide_bound, lemma_abs_mul_bound,
};
use crate::ray::{Ray, ray_wf};
use crate::hittable::{HitRecord, rec_wf};
use crate::sampling::{random_unit_vector, random_in_unit_sphere, random_fraction, in_unit_sphere};

verus! {

/// A color: components are fixed-point reflectances in `[0, 1]`.
pub open spec fn color_wf(c: Vec3) -> bool {
    &&& 0 <= c.x <= FP_ONE
    &&& 0 <= c.y <= FP_ONE
    &&& 0 <= c.z <= FP_ONE
}

/// Diffuse surface: scatters around the normal, attenuates by its albedo.
#[derive(Clone, Copy, Debug, PartialEq, Eq, Structural)]
pub struct Lambertian {
    pub albedo: Vec3,
}

/// Mirror surface with a roughness ("fuzz") perturbation.
#[derive(Clone, Copy, Debug, PartialEq, Eq, Structural)]
pub struct Metal {
    pub albedo: Vec3,
    pub fuzz: i64,
}

/// Clear surface (water, glass): refracts or reflects, never absorbs.
#[derive(Clone, Copy, Debug, PartialEq, Eq, Structural)]
pub struct Dielectric {
    pub refractive_index: i64,
}

/// The closed set of scattering models the tracer knows.
#[derive(Clone, Copy, Debug, PartialEq, Eq, Structural)]
pub enum Material {
    Lambertian(Lambertian),
    Metal(Metal),
    Dielectric(Dielectric),
}

impl Lambertian {
    /// A valid diffuse material: its albedo is a color.
    pub open spec fn wf(self) -> bool {
        color_wf(self.albedo)
    }

    /// Build a diffuse material from an albedo color.
    pub fn new(albedo: Vec3) -> (r: Lambertian)
        ensures
            r.albedo == albedo,
    {
        Lambertian { albedo }
    }
}

impl Metal {
    /// A valid metal: its albedo is a color, its fuzz radius lies in `[0, 1]`.
    pub open spec fn wf(self) -> bool {
        &&& color_wf(self.albedo)
        &&& 0 <= self.fuzz <= FP_ONE
    }

    /// Build a metal from an albedo color and a fuzz radius; a fuzz above
    /// one is clamped down to one.
    pub fn new(albedo: Vec3, fuzz: i64) -> (r: Metal)
        requires
            0 <= fuzz,
        ensures
            r.albedo == albedo,
            r.fuzz == if fuzz < FP_ONE { fuzz as int } else { FP_ONE as int },
    {
        let fuzz_radius = if fuzz < FP_ONE { fuzz } else { FP_ONE };
        Metal { albedo, fuzz: fuzz_radius }
    }
}

impl Dielectric {
    /// A valid dielectric: its refractive index lies in `[1/4, 4]`, which
    /// covers every physical medium the tracer renders.
    pub open spec fn wf(self) -> bool {
        (FP_ONE as int) / 4 <= self.refractive_index <= 262144
    }

    /// Build a clear material from its index of refraction.
    pub fn new(refractive_index: i64) -> (r: Dielectric)
        ensures
            r.refractive_index == refractive_index,
    {
        Dielectric { refractive_index }
    }
}

/// The diffuse scatter direction: the normal plus a unit sample, falling
/// back to the normal itself when the sum is degenerate.
pub open spec fn lambertian_dir(n: Vec3, u: Vec3) -> Vec3 {
    let d = Vec3 { x: (n.x + u.x) as i64, y: (n.y + u.y) as i64, z: (n.z + u.z) as i64 };
    if near_zero_v(d) {
        n
    } else {
        d
    }
}

/// The metallic scatter direction: the mirror reflection of the normalized
/// incoming direction, perturbed by a fuzz-scaled ball sample.
pub open spec fn metal_dir(ray: Ray, n: Vec3, fuzz: int, samp: Vec3) -> Vec3 {
    let refl = reflect_v(normalize_v(ray.dir), n);
    Vec3 {
        x: (refl.x + fp_mul_v(samp.x as int, fuzz)) as i64,
        y: (refl.y + fp_mul_v(samp.y as int, fuzz)) as i64,
        z: (refl.z + fp_mul_v(samp.z as int, fuzz)) as i64,
    }
}

/// The ratio of refractive indices across the struck face: `1/ir` when the
/// ray enters from outside, `ir` when it leaves from inside.
pub open spec fn refraction_ratio_v(ir: int, front_face: bool) -> int {
    if front_face {
        fp_div_v(FP_ONE as int, ir)
    } else {
        ir
    }
}

/// Schlick's approximation of the Fresnel reflectance.
pub open spec fn reflectance_v(cos: int, ratio: int) -> int {
    let r0s = fp_div_v(FP_ONE - ratio, FP_ONE + ratio);
    let r0 = fp_mul_v(r0s, r0s);
    let x = FP_ONE - cos;
    let p2 = fp_mul_v(x, x);
    let p4 = fp_mul_v(p2, p2);
    let p5 = fp_mul_v(p4, x);
    r0 + fp_mul_v(FP_ONE - r0, p5)
}

/// The dielectric scatter direction: reflect under total internal
/// reflection or when Schlick's reflectance beats the uniform draw, else
/// refract.  The squared sine is clamped at zero before the root, which a
/// float tracer gets for free from its cosine never exceeding one.
pub open spec fn dielectric_dir(ir: int, ray: Ray, n: Vec3, front_face: bool, draw: int) -> Vec3 {
    let ratio = refraction_ratio_v(ir, front_face);
    let u = normalize_v(ray.dir);
    let cos = cos_theta_v(u, n);
    let cc = fp_mul_v(cos, cos);
    let ssq = if cc >= FP_ONE {
        0
    } else {
        (FP_ONE - cc) as int
    };
    let sin = fp_sqrt_v(ssq);
    let cannot_refract = fp_mul_v(ratio, sin) > FP_ONE;
    if cannot_refract || reflectance_v(cos, ratio) > draw {
        reflect_v(u, n)
    } else {
        refract_v(u, n, ratio)
    }
}

impl Lambertian {
    /// Diffuse scattering for a given unit sample: always scatters from
    /// the struck point, attenuated by the albedo.
    pub fn scatter_with(&self, rec: &HitRecord, unit_sample: &Vec3) -> (r: Option<(Ray, Vec3)>)
        requires
            rec_wf(*rec),
            bounded_v(*unit_sample, FP_ONE as int),
        ensures
            r matches Some(p) && p.0.origin == rec.point && p.0.dir == lambertian_dir(
                rec.normal,
                *unit_sample,
            ) && p.1 == self.albedo,
            r matches Some(p) ==> !near_zero_v(p.0.dir),
            r is Some,
    {
        let d = rec.normal.add(unit_sample);
        let dir = if near_zero(&d) {
            rec.normal
        } else {
            d
        };
        Some((Ray::new(rec.point, dir), self.albedo))
    }

    /// Diffuse scattering with a fresh random unit sample.
    pub fn scatter(&self, _ray_in: &Ray, rec: &HitRecord) -> (r: Option<(Ray, Vec3)>)
        requires
            rec_wf(*rec),
        ensures
            r is Some,
            r matches Some(p) ==> {
                &&& p.0.origin == rec.point
                &&& p.1 == self.albedo
                &&& bounded_v(p.0.dir, 131072)
                &&& !near_zero_v(p.0.dir)
                &&& exists|u: Vec3|
                    bounded_v(u, FP_ONE as int) && p.0.dir == #[trigger] lambertian_dir(
                        rec.normal,
                        u,
                    )
            },
    {
        let u = random_unit_vector();
        let r = self.scatter_with(rec, &u);
        proof {
            let p = r->Some_0;
            assert(bounded_v(u, FP_ONE as int) && p.0.dir == lambertian_dir(rec.normal, u));
        }
        r
    }
}

impl Metal {
    /// Metallic scattering for a given ball sample: scatters only when the
    /// fuzz-perturbed reflection stays in the outward hemisphere, else the
    /// ray is absorbed.
    pub fn scatter_with(&self, ray_in: &Ray, rec: &HitRecord, sphere_sample: &Vec3) -> (r: Option<
        (Ray, Vec3),
    >)
        requires
            self.wf(),
            rec_wf(*rec),
            ray_wf(*ray_in),
            in_unit_sphere(*sphere_sample),
        ensures
            ({
                let dir = metal_dir(*ray_in, rec.normal, self.fuzz as int, *sphere_sample);
                if dot_v(dir, rec.normal) > 0 {
                    r matches Some(p) && p.0.origin == rec.point && p.0.dir == dir && p.1
                        == self.albedo
                } else {
                    r is None
                }
            }),
            r matches Some(p) ==> dot_v(p.0.dir, rec.normal) > 0 && bounded_v(
                p.0.dir,
                524288,
            ) && p.0.origin == rec.point && p.1 == self.albedo,
    {
        let unit = ray_in.dir.normalize();
        let reflected = reflect(&unit, &rec.normal);
        let fz = sphere_sample.scale(self.fuzz);
        proof {
            lemma_abs_mul_bound(sphere_sample.x as int, self.fuzz as int, FP_ONE as int,
                FP_ONE as int);
            lemma_abs_mul_bound(sphere_sample.y as int, self.fuzz as int, FP_ONE as int,
                FP_ONE as int);
            lemma_abs_mul_bound(sphere_sample.z as int, self.fuzz as int, FP_ONE as int,
                FP_ONE as int);
        }
        let dir = reflected.add(&fz);
        let scattered = Ray::new(rec.point, dir);
        if dir.dot(&rec.normal) > 0 {
            Some((scattered, self.albedo))
        } else {
            None
        }
    }

    /// Metallic scattering with a fresh random ball sample.
    pub fn scatter(&self, ray_in: &Ray, rec: &HitRecord) -> (r: Option<(Ray, Vec3)>)
        requires
            self.wf(),
            rec_wf(*rec),
            ray_wf(*ray_in),
        ensures
            r matches Some(p) ==> {
                &&& p.0.origin == rec.point
                &&& p.1 == self.albedo
                &&& bounded_v(p.0.dir, 524288)
                &&& dot_v(p.0.dir, rec.normal) > 0
                &&& exists|sp: Vec3|
                    in_unit_sphere(sp) && p.0.dir == #[trigger] metal_dir(
                        *ray_in,
                        rec.normal,
                        self.fuzz as int,
                        sp,
                    )
            },
            self.fuzz == 0 && dot_v(reflect_v(normalize_v(ray_in.dir), rec.normal), rec.normal)
                > 0 ==> r is Some,
            r is None ==> exists|sp: Vec3|
                in_unit_sphere(sp) && dot_v(
                    #[trigger] metal_dir(*ray_in, rec.normal, self.fuzz as int, sp),
                    rec.normal,
                ) <= 0,
    {
        let sp = random_in_unit_sphere();
        let r = self.scatter_with(ray_in, rec, &sp);
        proof {
            if self.fuzz == 0 {
                lemma_metal_dir_fuzz_zero(*ray_in, rec.normal, sp);
            }
            if r is Some {
                let p = r->Some_0;
                assert(in_unit_sphere(sp) && p.0.dir == metal_dir(*ray_in, rec.normal,
                    self.fuzz as int, sp));
            } else {
                assert(in_unit_sphere(sp) && dot_v(metal_dir(*ray_in, rec.normal,
                    self.fuzz as int, sp), rec.normal) <= 0);
            }
        }
        r
    }
}

/// With a fuzz radius of zero the metallic scatter direction is exactly
/// the mirror reflection, whatever ball sample was drawn: a polished
/// metal's outcome does not depend on the random draw.
pub proof fn lemma_metal_dir_fuzz_zero(ray: Ray, n: Vec3, samp: Vec3)
    ensures
        metal_dir(ray, n, 0, samp) == reflect_v(normalize_v(ray.dir), n),
{
    assert((samp.x as int) * 0 == 0 && (samp.y as int) * 0 == 0 && (samp.z as int) * 0 == 0)
        by (nonlinear_arith);
    lemma_tdiv_basics(0, FP_ONE as int);
    assert(fp_mul_v(samp.x as int, 0) == 0);
    assert(fp_mul_v(samp.y as int, 0) == 0);
    assert(fp_mul_v(samp.z as int, 0) == 0);
}

impl Dielectric {
    /// Schlick's reflectance approximation for a given cosine and ratio.
    fn reflectance(cosine: i64, ratio: i64) -> (r: i64)
        requires
            -196608 <= cosine <= FP_ONE,
            0 <= ratio <= 4 * FP_ONE,
        ensures
            r == reflectance_v(cosine as int, ratio as int),
            abs_v(r as int) <= 1073741824,
    {
        proof {
            lemma_tdiv_basics((FP_ONE - ratio) * (FP_ONE as int), (FP_ONE + ratio) as int);
            assert(abs_v((FP_ONE - ratio) * (FP_ONE as int)) <= (196608) * ((FP_ONE
                + ratio) as int)) by (nonlinear_arith)
                requires
                    0 <= ratio <= 4 * FP_ONE,
            ;
            lemma_tdiv_abs_upper((FP_ONE - ratio) * (FP_ONE as int), (FP_ONE + ratio) as int,
                196608);
        }
        let r0s = fp_div(FP_ONE - ratio, FP_ONE + ratio);
        proof {
            lemma_abs_mul_bound(r0s as int, r0s as int, 196608, 196608);
        }
        let r0 = fp_mul(r0s, r0s);
        let x = FP_ONE - cosine;
        proof {
            lemma_abs_mul_bound(x as int, x as int, 262144, 262144);
        }
        let p2 = fp_mul(x, x);
        proof {
            lemma_abs_mul_bound(p2 as int, p2 as int, 1048576, 1048576);
        }
        let p4 = fp_mul(p2, p2);
        proof {
            lemma_abs_mul_bound(p4 as int, x as int, 16777216, 262144);
        }
        let p5 = fp_mul(p4, x);
        proof {
            lemma_abs_mul_bound((FP_ONE - r0) as int, p5 as int, 655360,
                67108864);
        }
        r0 + fp_mul(FP_ONE - r0, p5)
    }

    /// Dielectric scattering for a given uniform draw: always scatters,
    /// with white attenuation; the draw picks reflection against Schlick's
    /// reflectance.
    pub fn scatter_with(&self, ray_in: &Ray, rec: &HitRecord, draw: i64) -> (r: Option<(Ray, Vec3)>)
        requires
            self.wf(),
            rec_wf(*rec),
            ray_wf(*ray_in),
            0 <= draw < FP_ONE,
        ensures
            r matches Some(p) && p.0.origin == rec.point && p.1 == (Vec3 {
                x: FP_ONE,
                y: FP_ONE,
                z: FP_ONE,
            }) && p.0.dir == dielectric_dir(
                self.refractive_index as int,
                *ray_in,
                rec.normal,
                rec.front_face,
                draw as int,
            ) && bounded_v(p.0.dir, 4194304),
            r is Some,
    {
        let attenuation = Vec3 { x: FP_ONE, y: FP_ONE, z: FP_ONE };
        let ratio = if rec.front_face {
            proof {
                lemma_tdiv_basics((FP_ONE as int) * (FP_ONE as int), self.refractive_index as int);
                assert((FP_ONE as int) * (FP_ONE as int) <= (262144)
                    * (self.refractive_index as int)) by (nonlinear_arith)
                    requires
                        self.refractive_index >= (FP_ONE as int) / 4,
                ;
                lemma_tdiv_abs_upper((FP_ONE as int) * (FP_ONE as int),
                    self.refractive_index as int, 262144);
            }
            fp_div(FP_ONE, self.refractive_index)
        } else {
            self.refractive_index
        };
        let unit = ray_in.dir.normalize();
        let d = unit.dot(&rec.normal);
        proof {
            lemma_dot_wide_bound(unit, rec.normal, FP_ONE as int);
        }
        let cos = if -d > FP_ONE {
            FP_ONE
        } else {
            -d
        };
        proof {
            lemma_abs_mul_bound(cos as int, cos as int, 196608, 196608);
        }
        let cc = fp_mul(cos, cos);
        proof {
            assert((cos as int) * (cos as int) >= 0) by (nonlinear_arith);
            lemma_tdiv_basics((cos as int) * (cos as int), FP_ONE as int);
        }
        let ssq = if cc >= FP_ONE {
            0
        } else {
            FP_ONE - cc
        };
        let sin_theta = fp_sqrt(ssq);
        proof {
            assert(sin_theta <= FP_ONE) by (nonlinear_arith)
                requires
                    sin_theta >= 0,
                    (sin_theta as int) * (sin_theta as int) <= (ssq as int) * (FP_ONE as int),
                    0 <= ssq <= FP_ONE,
            ;
            lemma_abs_mul_bound(ratio as int, sin_theta as int, 262144,
                FP_ONE as int);
        }
        let cannot_refract = fp_mul(ratio, sin_theta) > FP_ONE;
        let direction = if cannot_refract || Self::reflectance(cos, ratio) > draw {
            reflect(&unit, &rec.normal)
        } else {
            refract(&unit, &rec.normal, ratio)
        };
        let scattered = Ray::new(rec.point, direction);
        Some((scattered, attenuation))
    }

    /// Dielectric scattering with a fresh uniform draw.
    pub fn scatter(&self, ray_in: &Ray, rec: &HitRecord) -> (r: Option<(Ray, Vec3)>)
        requires
            self.wf(),
            rec_wf(*rec),
            ray_wf(*ray_in),
        ensures
            r is Some,
            r matches Some(p) ==> {
                &&& p.0.origin == rec.point
                &&& p.1 == (Vec3 { x: FP_ONE, y: FP_ONE, z: FP_ONE })
                &&& bounded_v(p.0.dir, 4194304)
                &&& exists|dr: int|
                    0 <= dr < FP_ONE && p.0.dir == #[trigger] dielectric_dir(
                        self.refractive_index as int,
                        *ray_in,
                        rec.normal,
                        rec.front_face,
                        dr,
                    )
            },
    {
        let draw = random_fraction();
        let r = self.scatter_with(ray_in, rec, draw);
        proof {
            let p = r->Some_0;
            assert(0 <= draw < FP_ONE && p.0.dir == dielectric_dir(self.refractive_index as int,
                *ray_in, rec.normal, rec.front_face, draw as int));
        }
        r
    }
}

impl Material {
    /// A valid material of any model.
    pub open spec fn wf(self) -> bool {
        match self {
            Material::Lambertian(m) => m.wf(),
            Material::Metal(m) => m.wf(),
            Material::Dielectric(m) => m.wf(),
        }
    }

    /// Ask the material for an outgoing ray and an attenuation: a pure
    /// function of the incoming ray, the hit record and a fresh random
    /// draw.  `None` signals absorption, which only a metal reports.
    pub fn scatter(&self, ray_in: &Ray, rec: &HitRecord) -> (r: Option<(Ray, Vec3)>)
        requires
            self.wf(),
            rec_wf(*rec),
            ray_wf(*ray_in),
        ensures
            r matches Some(p) ==> {
                &&& p.0.origin == rec.point
                &&& bounded_v(p.0.dir, 4194304)
                &&& color_wf(p.1)
            },
            ({
                match (*self, r) {
                    (Material::Lambertian(m), Some(p)) => p.1 == m.albedo && !near_zero_v(
                        p.0.dir,
                    ),
                    (Material::Metal(m), Some(p)) => p.1 == m.albedo && dot_v(
                        p.0.dir,
                        rec.normal,
                    ) > 0,
                    (Material::Dielectric(_), Some(p)) => p.1 == (Vec3 {
                        x: FP_ONE,
                        y: FP_ONE,
                        z: FP_ONE,
                    }),
                    (Material::Metal(m), None) => {
                        &&& (m.fuzz == 0 ==> dot_v(
                            reflect_v(normalize_v(ray_in.dir), rec.normal),
                            rec.normal,
                        ) <= 0)
                        &&& exists|sp: Vec3|
                            in_unit_sphere(sp) && dot_v(
                                #[trigger] metal_dir(*ray_in, rec.normal, m.fuzz as int, sp),
                                rec.normal,
                            ) <= 0
                    },
                    (_, None) => false,
                }
            }),
    {
        match self {
            Material::Lambertian(m) => m.scatter(ray_in, rec),
            Material::Metal(m) => m.scatter(ray_in, rec),
            Material::Dielectric(m) => m.scatter(ray_in, rec),
        }
    }
}

} // verus!
