//! Ray/sphere intersection: the quadratic hit test, with the nearer root
//! preferred and both roots held to the query range.

use vstd::prelude::*;
use crate::fixed::{
    SCALE, COORD_LIMIT, NORMAL_LIMIT, DIR_LIMIT, ORIGIN_LIMIT, T_LIMIT,
    tdiv, sqrt_floor, isqrt_u128, lemma_mul_bound, lemma_tdiv_cap,
};
use vstd::arithmetic::div_mod::lemma_basic_div;
use crate::vec3::{Vec3, in_bound, sq_sum};
use crate::ray::{Ray, ray_at};
use crate::material::{Material, valid_material};
use crate::hittable::{HitRecord, Hittable, spec_face_record, record_wf};

verus! {

#[derive(Clone, Copy, Debug)]
pub struct Sphere {
    pub center: Vec3,
    pub radius: i64,
    pub material: Material,
}

/// Construction bounds: a positive radius of at most `COORD_LIMIT`, a
/// center within the scene range, and a valid material.
pub open spec fn sphere_wf(s: Sphere) -> bool {
    &&& in_bound(s.center, COORD_LIMIT as int)
    &&& 1 <= s.radius <= COORD_LIMIT
    &&& valid_material(s.material)
}

/// The quadratic coefficients of the hit equation, in fixed point:
/// `a = dir . dir`, `half_b = oc . dir`, `c = oc . oc - radius^2`,
/// where `oc` is the origin minus the center.
pub open spec fn spec_hit_parts(s: Sphere, r: Ray) -> (int, int, int) {
    let ocx = r.origin.x - s.center.x;
    let ocy = r.origin.y - s.center.y;
    let ocz = r.origin.z - s.center.z;
    let a = tdiv(r.dir.x * r.dir.x + r.dir.y * r.dir.y + r.dir.z * r.dir.z, SCALE as int);
    let hb = tdiv(ocx * r.dir.x + ocy * r.dir.y + ocz * r.dir.z, SCALE as int);
    let c = tdiv(ocx * ocx + ocy * ocy + ocz * ocz, SCALE as int)
        - tdiv(s.radius * s.radius, SCALE as int);
    (a, hb, c)
}

/// The ray parameter of the hit, if any: the nearer quadratic root when it
/// lies in `[tmin, tmax]`, else the farther, else none. A nonpositive
/// leading coefficient — a direction shorter than one quantum — yields no
/// hit rather than an undefined division.
pub open spec fn spec_sphere_root(s: Sphere, r: Ray, tmin: int, tmax: int) -> Option<int> {
    let parts = spec_hit_parts(s, r);
    let a = parts.0;
    let hb = parts.1;
    let c = parts.2;
    let disc = hb * hb - a * c;
    if a <= 0 || disc < 0 {
        None
    } else {
        let sq = sqrt_floor(disc);
        let root1 = tdiv((-hb - sq) * SCALE, a);
        if tmin <= root1 <= tmax {
            Some(root1)
        } else {
            let root2 = tdiv((-hb + sq) * SCALE, a);
            if tmin <= root2 <= tmax {
                Some(root2)
            } else {
                None
            }
        }
    }
}

/// The full hit outcome: the root's point and outward normal, with records
/// whose point or normal falls outside the representable range refused.
pub open spec fn spec_sphere_hit(s: Sphere, r: Ray, tmin: int, tmax: int) -> Option<HitRecord> {
    match spec_sphere_root(s, r, tmin, tmax) {
        Option::None => None,
        Option::Some(root) => {
            let p = ray_at(r, root);
            if !(-COORD_LIMIT <= p.0 <= COORD_LIMIT && -COORD_LIMIT <= p.1 <= COORD_LIMIT
                && -COORD_LIMIT <= p.2 <= COORD_LIMIT) {
                None
            } else {
                let nx = tdiv((p.0 - s.center.x) * SCALE, s.radius as int);
                let ny = tdiv((p.1 - s.center.y) * SCALE, s.radius as int);
                let nz = tdiv((p.2 - s.center.z) * SCALE, s.radius as int);
                if !(-NORMAL_LIMIT <= nx <= NORMAL_LIMIT && -NORMAL_LIMIT <= ny <= NORMAL_LIMIT
                    && -NORMAL_LIMIT <= nz <= NORMAL_LIMIT) {
                    None
                } else {
                    let pt = Vec3 { x: p.0 as i64, y: p.1 as i64, z: p.2 as i64 };
                    let nv = Vec3 { x: nx as i64, y: ny as i64, z: nz as i64 };
                    Some(spec_face_record(pt, root as i64, r, nv, s.material))
                }
            }
        },
    }
}

impl Sphere {
    pub fn new(center: Vec3, radius: i64, material: Material) -> (r: Sphere)
        requires
            in_bound(center, COORD_LIMIT as int),
            1 <= radius <= COORD_LIMIT,
            valid_material(material),
        ensures
            r.center == center,
            r.radius == radius,
            r.material == material,
            sphere_wf(r),
    {
        Sphere { center, radius, material }
    }
}

impl Hittable for Sphere {
    open spec fn hit_wf(&self) -> bool {
        sphere_wf(*self)
    }

    open spec fn spec_hit(&self, r: Ray, tmin: int, tmax: int) -> Option<HitRecord> {
        spec_sphere_hit(*self, r, tmin, tmax)
    }

    /// Solve the quadratic the ray/sphere equation expands to, preferring
    /// the nearer root in range, and build the oriented hit record.
    fn hit(&self, ray: &Ray, tmin: i64, tmax: i64) -> (res: Option<HitRecord>) {
        let dirx: i128 = ray.dir.x as i128;
        let diry: i128 = ray.dir.y as i128;
        let dirz: i128 = ray.dir.z as i128;
        let ocx: i128 = ray.origin.x as i128 - self.center.x as i128;
        let ocy: i128 = ray.origin.y as i128 - self.center.y as i128;
        let ocz: i128 = ray.origin.z as i128 - self.center.z as i128;
        proof {
            lemma_mul_bound(ray.dir.x as int, ray.dir.x as int, DIR_LIMIT as int, DIR_LIMIT as int);
            lemma_mul_bound(ray.dir.y as int, ray.dir.y as int, DIR_LIMIT as int, DIR_LIMIT as int);
            lemma_mul_bound(ray.dir.z as int, ray.dir.z as int, DIR_LIMIT as int, DIR_LIMIT as int);
            assert(ray.dir.x * ray.dir.x >= 0) by (nonlinear_arith);
            assert(ray.dir.y * ray.dir.y >= 0) by (nonlinear_arith);
            assert(ray.dir.z * ray.dir.z >= 0) by (nonlinear_arith);
            lemma_mul_bound(ocx as int, dirx as int, 30_000_000_000int, DIR_LIMIT as int);
            lemma_mul_bound(ocy as int, diry as int, 30_000_000_000int, DIR_LIMIT as int);
            lemma_mul_bound(ocz as int, dirz as int, 30_000_000_000int, DIR_LIMIT as int);
            lemma_mul_bound(ocx as int, ocx as int, 30_000_000_000int, 30_000_000_000int);
            lemma_mul_bound(ocy as int, ocy as int, 30_000_000_000int, 30_000_000_000int);
            lemma_mul_bound(ocz as int, ocz as int, 30_000_000_000int, 30_000_000_000int);
            assert(ocx * ocx >= 0) by (nonlinear_arith);
            assert(ocy * ocy >= 0) by (nonlinear_arith);
            assert(ocz * ocz >= 0) by (nonlinear_arith);
            lemma_mul_bound(
                self.radius as int, self.radius as int, COORD_LIMIT as int, COORD_LIMIT as int);
            assert(self.radius * self.radius >= 0) by (nonlinear_arith);
        }
        let an: i128 = dirx * dirx + diry * diry + dirz * dirz;
        let hbn: i128 = ocx * dirx + ocy * diry + ocz * dirz;
        let ocn: i128 = ocx * ocx + ocy * ocy + ocz * ocz;
        let rn: i128 = (self.radius as i128) * (self.radius as i128);
        proof {
            lemma_tdiv_cap(an as int, SCALE as int, 15_000_000_000_000_000int);
            lemma_tdiv_cap(hbn as int, SCALE as int, 6_300_000_000_000_000int);
            lemma_tdiv_cap(ocn as int, SCALE as int, 2_700_000_000_000_000int);
            lemma_tdiv_cap(rn as int, SCALE as int, 100_000_000_000_000int);
        }
        let a: i128 = an / (SCALE as i128);
        let hb: i128 = hbn / (SCALE as i128);
        let c: i128 = ocn / (SCALE as i128) - rn / (SCALE as i128);
        proof {
            assert(a as int == spec_hit_parts(*self, *ray).0);
            assert(hb as int == spec_hit_parts(*self, *ray).1);
            assert(c as int == spec_hit_parts(*self, *ray).2);
        }
        if a <= 0 {
            return None;
        }
        proof {
            // `a >= 1` forces the direction to carry at least one unit of
            // squared length.
            if sq_sum(ray.dir) < SCALE {
                lemma_basic_div(an as int, SCALE as int);
            }
            lemma_mul_bound(hb as int, hb as int, 6_300_000_000_000_000int, 6_300_000_000_000_000int);
            lemma_mul_bound(a as int, c as int, 15_000_000_000_000_000int, 2_800_000_000_000_000int);
        }
        let disc: i128 = hb * hb - a * c;
        if disc < 0 {
            return None;
        }
        let sq: i128 = isqrt_u128(disc as u128) as i128;
        proof {
            assert(sq as int == sqrt_floor(disc as int));
            if sq as int > 9_200_000_000_000_000int {
                assert((sq as int) * (sq as int) > 84_000_000_000_000_000_000_000_000_000_000int)
                    by (nonlinear_arith)
                    requires sq as int > 9_200_000_000_000_000int;
            }
        }
        let num1: i128 = (-hb - sq) * (SCALE as i128);
        let root1: i128 = num1 / a;
        let tmin_w: i128 = tmin as i128;
        let tmax_w: i128 = tmax as i128;
        let root: i128;
        if tmin_w <= root1 && root1 <= tmax_w {
            root = root1;
        } else {
            let num2: i128 = (-hb + sq) * (SCALE as i128);
            let root2: i128 = num2 / a;
            if tmin_w <= root2 && root2 <= tmax_w {
                root = root2;
            } else {
                return None;
            }
        }
        proof {
            assert(Some(root as int) == spec_sphere_root(*self, *ray, tmin as int, tmax as int));
        }
        let t: i64 = root as i64;
        let point: Vec3 = ray.at(t);
        if !(-COORD_LIMIT <= point.x && point.x <= COORD_LIMIT && -COORD_LIMIT <= point.y
            && point.y <= COORD_LIMIT && -COORD_LIMIT <= point.z && point.z <= COORD_LIMIT) {
            return None;
        }
        let outward: Vec3 = point.sub(&self.center).div(self.radius);
        if !(-NORMAL_LIMIT <= outward.x && outward.x <= NORMAL_LIMIT && -NORMAL_LIMIT <= outward.y
            && outward.y <= NORMAL_LIMIT && -NORMAL_LIMIT <= outward.z
            && outward.z <= NORMAL_LIMIT) {
            return None;
        }
        Some(HitRecord::create(point, t, ray, outward, self.material))
    }
}

} // verus!
