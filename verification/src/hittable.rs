//! Hit records and the scene: an ordered collection of spheres queried for
//! the nearest valid intersection.

use vstd::prelude::*;
use crate::fixed::{SCALE, COORD_LIMIT, NORMAL_LIMIT, DIR_LIMIT, ORIGIN_LIMIT, T_LIMIT};
use crate::vec3::{Vec3, in_bound, dotv, negv, sq_sum};
use crate::ray::Ray;
use crate::material::{Material, valid_material};
use crate::sphere::{Sphere, sphere_wf, spec_sphere_hit};

verus! {

/// What an intersection yields: the point, the normal flipped to oppose
/// the ray, the ray parameter, which side was struck, and the material.
#[derive(Clone, Copy, Debug)]
pub struct HitRecord {
    pub point: Vec3,
    pub normal: Vec3,
    pub t: i64,
    pub is_outward: bool,
    pub material: Material,
}

/// The record a hit at `point` with parameter `t` produces: `is_outward`
/// holds exactly when the ray meets the surface from outside (its direction
/// against the outward normal), and the stored normal is flipped to oppose
/// the incoming ray.
pub open spec fn spec_face_record(
    point: Vec3,
    t: i64,
    r: Ray,
    outward: Vec3,
    m: Material,
) -> HitRecord {
    let facing = dotv(r.dir, outward) < 0;
    HitRecord {
        point,
        t,
        material: m,
        is_outward: facing,
        normal: if facing { outward } else { negv(outward) },
    }
}

/// The bounds every record handed out by a hit test obeys.
pub open spec fn record_wf(rec: HitRecord) -> bool {
    &&& in_bound(rec.point, COORD_LIMIT as int)
    &&& in_bound(rec.normal, NORMAL_LIMIT as int)
    &&& valid_material(rec.material)
}

impl HitRecord {
    /// Build a record, orienting the stored normal against the ray.
    pub fn create(point: Vec3, t: i64, ray: &Ray, normal: Vec3, material: Material) -> (r: HitRecord)
        requires
            in_bound(normal, NORMAL_LIMIT as int),
            in_bound(ray.dir, DIR_LIMIT as int),
        ensures
            r == spec_face_record(point, t, *ray, normal, material),
    {
        let d: i64 = ray.dir().dot(&normal);
        let is_outward: bool = d < 0;
        let n: Vec3 = if is_outward { normal } else { normal.neg() };
        HitRecord { point, normal: n, t, is_outward, material }
    }
}

/// Anything a ray can strike: a well-formedness bound, the mathematical
/// hit outcome, and the executable test held to it.
pub trait Hittable {
    /// The construction bounds under which the hit test is defined.
    spec fn hit_wf(&self) -> bool;

    /// What the hit test returns, as a mathematical function.
    spec fn spec_hit(&self, r: Ray, tmin: int, tmax: int) -> Option<HitRecord>;

    /// The executable hit test: exactly `spec_hit`, and any record handed
    /// out is in range with its `t` inside the query interval.
    fn hit(&self, ray: &Ray, tmin: i64, tmax: i64) -> (res: Option<HitRecord>)
        requires
            self.hit_wf(),
            in_bound(ray.origin, ORIGIN_LIMIT as int),
            in_bound(ray.dir, DIR_LIMIT as int),
            -T_LIMIT <= tmin,
            tmax <= T_LIMIT,
        ensures
            res == self.spec_hit(*ray, tmin as int, tmax as int),
            res is Some ==> record_wf(res.unwrap()) && tmin <= res.unwrap().t <= tmax
                && sq_sum(ray.dir) >= SCALE,
    ;
}

/// The scene: every member's nearest valid hit competes, and the least `t`
/// wins, the earlier member on a tie.
pub struct HittableList {
    pub objects: Vec<Sphere>,
}

/// Every sphere of the scene is within construction bounds.
pub open spec fn scene_wf(objs: Seq<Sphere>) -> bool {
    forall|i: int| 0 <= i < objs.len() ==> sphere_wf(#[trigger] objs[i])
}

/// The nearest hit over a sequence of spheres, ties going to the earlier
/// member, exactly as a forward minimum scan resolves them.
pub open spec fn spec_scene_hit(objs: Seq<Sphere>, r: Ray, tmin: int, tmax: int) -> Option<HitRecord>
    decreases objs.len(),
{
    if objs.len() == 0 {
        None
    } else {
        let rest = spec_scene_hit(objs.drop_last(), r, tmin, tmax);
        let cur = spec_sphere_hit(objs.last(), r, tmin, tmax);
        match rest {
            Option::None => cur,
            Option::Some(b) => match cur {
                Option::None => Option::Some(b),
                Option::Some(c) => if b.t <= c.t {
                    Option::Some(b)
                } else {
                    Option::Some(c)
                },
            },
        }
    }
}

impl HittableList {
    pub fn new() -> (r: HittableList)
        ensures
            r.objects@.len() == 0,
    {
        HittableList { objects: Vec::new() }
    }

    pub fn add(&mut self, object: Sphere)
        requires
            sphere_wf(object),
        ensures
            final(self).objects@ == old(self).objects@.push(object),
    {
        self.objects.push(object)
    }

    /// Scan all members and return the hit with the least `t` in range.
    pub fn hit(&self, ray: &Ray, tmin: i64, tmax: i64) -> (res: Option<HitRecord>)
        requires
            scene_wf(self.objects@),
            in_bound(ray.origin, ORIGIN_LIMIT as int),
            in_bound(ray.dir, DIR_LIMIT as int),
            -T_LIMIT <= tmin,
            tmax <= T_LIMIT,
        ensures
            res == spec_scene_hit(self.objects@, *ray, tmin as int, tmax as int),
            res is Some ==> record_wf(res.unwrap()) && tmin <= res.unwrap().t <= tmax
                && sq_sum(ray.dir) >= SCALE,
    {
        let mut best: Option<HitRecord> = None;
        let mut i: usize = 0;
        while i < self.objects.len()
            invariant
                scene_wf(self.objects@),
                in_bound(ray.origin, ORIGIN_LIMIT as int),
                in_bound(ray.dir, DIR_LIMIT as int),
                -T_LIMIT <= tmin,
                tmax <= T_LIMIT,
                0 <= i <= self.objects@.len(),
                best == spec_scene_hit(
                    self.objects@.subrange(0, i as int),
                    *ray,
                    tmin as int,
                    tmax as int,
                ),
                best is Some ==> record_wf(best.unwrap()) && tmin <= best.unwrap().t <= tmax
                    && sq_sum(ray.dir) >= SCALE,
            decreases self.objects@.len() - i,
        {
            let s: Sphere = self.objects[i];
            let cur: Option<HitRecord> = s.hit(ray, tmin, tmax);
            proof {
                assert(self.objects@.subrange(0, (i + 1) as int).drop_last()
                    =~= self.objects@.subrange(0, i as int));
                assert(self.objects@.subrange(0, (i + 1) as int).last() == self.objects@[i as int]);
            }
            match cur {
                Option::None => {},
                Option::Some(c) => {
                    match best {
                        Option::None => { best = Some(c); },
                        Option::Some(b) => {
                            if c.t < b.t {
                                best = Some(c);
                            }
                        },
                    }
                },
            }
            i = i + 1;
        }
        proof {
            assert(self.objects@.subrange(0, self.objects@.len() as int) =~= self.objects@);
        }
        best
    }
}

} // verus!
