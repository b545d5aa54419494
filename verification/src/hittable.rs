//! Hit records and the scene: an ordered collection of spheres queried for
//! the closest intersection along a ray.

use vstd::prelude::*;
use crate::{FP_ONE, POINT_CAP, T_FAR};
use crate::vec3::{Vec3, bounded_v};
use crate::ray::Ray;
use crate::material::Material;
use crate::sphere::{Sphere, sphere_hit_t, hit_record_matches, hit_a, lemma_sphere_hit_tighten};

verus! {

/// The result of a ray/geometry intersection: point, oriented normal,
/// parametric distance, face orientation and the surface material.
#[derive(Clone, Copy, Debug, PartialEq, Eq, Structural)]
pub struct HitRecord {
    pub point: Vec3,
    pub normal: Vec3,
    pub t: i64,
    pub front_face: bool,
    pub material: Material,
}

/// Records the tracer can keep working on: point inside the horizon,
/// normal within one unit per component and above the degeneracy
/// threshold, parameter in the queried range.
pub open spec fn rec_wf(rec: HitRecord) -> bool {
    &&& bounded_v(rec.point, POINT_CAP as int)
    &&& bounded_v(rec.normal, FP_ONE as int)
    &&& !crate::near_zero_v(rec.normal)
    &&& rec.material.wf()
    &&& 0 <= rec.t <= T_FAR
}

impl HitRecord {
    /// Assemble a record from its parts.
    pub fn new(point: Vec3, normal: Vec3, t: i64, front_face: bool, material: Material) -> (r:
        HitRecord)
        ensures
            r.point == point,
            r.normal == normal,
            r.t == t,
            r.front_face == front_face,
            r.material == material,
    {
        HitRecord { point, normal, t, front_face, material }
    }
}

/// The scene: spheres scanned in order for the closest hit.
pub struct HittableList {
    pub objects: Vec<Sphere>,
}

/// The hit the ordered scan reports on a prefix of the scene: the index of
/// the winning sphere and its parameter, each sphere queried with the best
/// parameter so far as its shrinking far bound.
pub open spec fn scan_hit(objs: Seq<Sphere>, ray: Ray, t_min: int, t_max: int) -> Option<(int,
    int)>
    decreases objs.len(),
{
    if objs.len() == 0 {
        None::<(int, int)>
    } else {
        let prev = scan_hit(objs.drop_last(), ray, t_min, t_max);
        let cur_max = match prev {
            Some(p) => p.1,
            None => t_max,
        };
        match sphere_hit_t(ray, objs.last(), t_min, cur_max) {
            Some(t2) => Some((objs.len() - 1, t2)),
            None => prev,
        }
    }
}

/// The ordered scan over the scene returns exactly the closest hit: the
/// reported parameter is the minimum, over all spheres, of each sphere's
/// own hit parameter taken over the full interval, and the winning
/// sphere's own full-interval hit is the reported one.  When no sphere
/// hits on its own, the scan reports a miss.
pub proof fn lemma_scan_hit_is_min(objs: Seq<Sphere>, ray: Ray, t_min: int, t_max: int)
    requires
        t_min <= t_max,
        hit_a(ray) >= 1,
    ensures
        match scan_hit(objs, ray, t_min, t_max) {
            Some(p) => {
                &&& 0 <= p.0 < objs.len()
                &&& t_min <= p.1 <= t_max
                &&& sphere_hit_t(ray, objs[p.0], t_min, t_max) == Some(p.1)
                &&& forall|i: int|
                    0 <= i < objs.len() ==> match sphere_hit_t(
                        ray,
                        #[trigger] objs[i],
                        t_min,
                        t_max,
                    ) {
                        Some(ti) => p.1 <= ti,
                        None => true,
                    }
            },
            None => forall|i: int|
                0 <= i < objs.len() ==> (sphere_hit_t(ray, #[trigger] objs[i], t_min, t_max)
                    is None),
        },
    decreases objs.len(),
{
    if objs.len() > 0 {
        let prefix = objs.drop_last();
        lemma_scan_hit_is_min(prefix, ray, t_min, t_max);
        let prev = scan_hit(prefix, ray, t_min, t_max);
        let last = objs.last();
        assert(forall|i: int| 0 <= i < objs.len() - 1 ==> objs[i] == prefix[i]);
        assert(objs[objs.len() - 1] == last);
        match prev {
            None => {
            },
            Some(p) => {
                lemma_sphere_hit_tighten(ray, last, t_min, p.1, t_max);
            },
        }
    }
}

impl HittableList {
    /// The spheres in the scene, in insertion order.
    pub open spec fn view(&self) -> Seq<Sphere> {
        self.objects@
    }

    /// A valid scene: every sphere is valid.
    pub open spec fn wf(&self) -> bool {
        forall|i: int| 0 <= i < self.objects@.len() ==> (#[trigger] self.objects@[i]).wf()
    }

    /// An empty scene.
    pub fn new() -> (r: HittableList)
        ensures
            r@.len() == 0,
            r.wf(),
    {
        HittableList { objects: Vec::new() }
    }

    /// Append a sphere to the scene.
    pub fn add(&mut self, obj: Sphere)
        requires
            obj.wf(),
            old(self).wf(),
            old(self)@.len() < usize::MAX,
        ensures
            final(self)@ == old(self)@.push(obj),
            final(self).wf(),
    {
        self.objects.push(obj);
    }

    /// Remove every sphere.
    pub fn clear(&mut self)
        ensures
            final(self)@.len() == 0,
            final(self).wf(),
    {
        self.objects.clear();
    }

    /// How many spheres the scene holds.
    pub fn len(&self) -> (r: usize)
        ensures
            r == self@.len(),
    {
        self.objects.len()
    }

    /// The closest hit along `ray` with parameter in `[t_min, t_max]`, or
    /// `None` if no sphere is struck there: the ordered scan that keeps the
    /// best parameter seen so far as the far bound for the spheres after it.
    pub fn hit(&self, ray: &Ray, t_min: i64, t_max: i64) -> (res: Option<HitRecord>)
        requires
            self.wf(),
            bounded_v(ray.origin, POINT_CAP as int),
            bounded_v(ray.dir, crate::DIR_MAX as int),
            1 <= crate::vec3::sum_sq(ray.dir),
            0 <= t_min <= t_max <= T_FAR,
        ensures
            match res {
                Some(rec) => {
                    &&& exists|i: int|
                        {
                            &&& 0 <= i < self@.len()
                            &&& scan_hit(self@, *ray, t_min as int, t_max as int) matches Some(p)
                                && p.0 == i && p.1 == rec.t as int
                            &&& #[trigger] hit_record_matches(*ray, self@[i], rec)
                        }
                    &&& rec_wf(rec)
                    &&& t_min <= rec.t <= t_max
                },
                None => scan_hit(self@, *ray, t_min as int, t_max as int) is None,
            },
    {
        let mut best: Option<HitRecord> = None;
        let mut closest_so_far: i64 = t_max;
        let ghost mut best_idx: int = 0;
        let n = self.objects.len();
        let mut k: usize = 0;
        while k < n
            invariant
                n == self@.len(),
                0 <= k <= n,
                self.wf(),
                bounded_v(ray.origin, POINT_CAP as int),
                bounded_v(ray.dir, crate::DIR_MAX as int),
                1 <= crate::vec3::sum_sq(ray.dir),
                0 <= t_min <= t_max <= T_FAR,
                t_min <= closest_so_far <= t_max,
                match best {
                    Some(rec) => {
                        &&& scan_hit(self@.take(k as int), *ray, t_min as int, t_max as int)
                            matches Some(p) && p.0 == best_idx && p.1 == rec.t as int
                        &&& 0 <= best_idx < k
                        &&& hit_record_matches(*ray, self@[best_idx], rec)
                        &&& rec_wf(rec)
                        &&& rec.t == closest_so_far
                        &&& t_min <= rec.t <= t_max
                    },
                    None => {
                        &&& scan_hit(self@.take(k as int), *ray, t_min as int, t_max as int)
                            is None
                        &&& closest_so_far == t_max
                    },
                },
            decreases n - k,
        {
            assert(self@.take(k + 1).drop_last() == self@.take(k as int));
            assert(self@.take(k + 1).last() == self@[k as int]);
            let cur = self.objects[k].hit(ray, t_min, closest_so_far);
            match cur {
                Some(rec) => {
                    closest_so_far = rec.t;
                    best = Some(rec);
                    proof {
                        best_idx = k as int;
                    }
                },
                None => {},
            }
            k = k + 1;
        }
        assert(self@.take(n as int) == self@);
        best
    }
}

} // verus!
