//! Surface materials: Lambertian diffuse, fuzzed metal, and a clear
//! dielectric. The closed set of variants is a tagged union of plain
//! values, immutable after construction, so sharing a material is copying
//! it.
//!
//! Each variant has a deterministic `scatter_with` that takes its random
//! draws as arguments and is specified exactly, and a `scatter` that makes
//! the draws and calls it.

use vstd::prelude::*;
use crate::fixed::{
    SCALE, DIR_LIMIT, NORMAL_LIMIT,
    tdiv, fmul, fxmul, sqrt_floor, isqrt_u128, clamp,
    lemma_mul_bound, lemma_tdiv_cap, lemma_tdiv_lower,
};
use crate::color::{Color, valid_color};
use crate::vec3::{Vec3, in_bound, dotv, sq_sum, negv, reflectv, normalizev};
use crate::ray::Ray;
use crate::hittable::HitRecord;
use crate::rng::random_fraction;

verus! {

#[derive(Clone, Copy, Debug)]
pub struct Lambertian {
    pub albedo: Color,
}

#[derive(Clone, Copy, Debug)]
pub struct Metal {
    pub albedo: Color,
    pub fuzz: i64,
}

#[derive(Clone, Copy, Debug)]
pub struct Dielectric {
    pub refraction_index: i64,
}

/// The closed set of material variants.
#[derive(Clone, Copy, Debug)]
pub enum Material {
    Lambertian(Lambertian),
    Metal(Metal),
    Dielectric(Dielectric),
}

/// Construction keeps albedos in the unit cube, fuzz in `[0, 1]` and the
/// refraction index within a decade of one, so scattering arithmetic
/// provably fits.
pub open spec fn valid_material(m: Material) -> bool {
    match m {
        Material::Lambertian(l) => valid_color(l.albedo),
        Material::Metal(me) => valid_color(me.albedo) && 0 <= me.fuzz <= SCALE,
        Material::Dielectric(d) => SCALE / 10 <= d.refraction_index <= 10 * SCALE,
    }
}

/// What a Lambertian surface does with a hit, given the random unit vector
/// of the draw: scatter from the hit point along the normal plus the draw,
/// falling back to the bare normal when the two cancel exactly, and tint by
/// the albedo. It always scatters.
pub open spec fn spec_lambertian_scatter(l: Lambertian, rec: HitRecord, unit_draw: Vec3) -> (
    Color,
    Ray,
) {
    let sx = rec.normal.x + unit_draw.x;
    let sy = rec.normal.y + unit_draw.y;
    let sz = rec.normal.z + unit_draw.z;
    let dir = if sx == 0 && sy == 0 && sz == 0 {
        rec.normal
    } else {
        Vec3 { x: sx as i64, y: sy as i64, z: sz as i64 }
    };
    (l.albedo, Ray { origin: rec.point, dir })
}

impl Lambertian {
    pub fn new(color: Color) -> (r: Lambertian)
        requires
            valid_color(color),
        ensures
            r.albedo == color,
    {
        Lambertian { albedo: color }
    }

    /// The deterministic half of the scatter: the draw comes in as an
    /// argument, so this holds for every value the sampler can produce.
    pub fn scatter_with(&self, record: &HitRecord, unit_draw: Vec3) -> (res: (Color, Ray))
        requires
            in_bound(record.normal, NORMAL_LIMIT as int),
            in_bound(unit_draw, SCALE as int),
        ensures
            res == spec_lambertian_scatter(*self, *record, unit_draw),
            res.1.origin == record.point,
            in_bound(res.1.dir, DIR_LIMIT as int),
    {
        let dir0: Vec3 = record.normal.add(&unit_draw);
        let dir: Vec3 = if dir0.near_zero() {
            record.normal
        } else {
            dir0
        };
        (self.albedo, Ray::new(record.point, dir))
    }

    /// Scatter with a fresh random unit vector.
    pub fn scatter(
        &self,
        _ray: &Ray,
        attenuation: &mut Color,
        record: &HitRecord,
        rng: &mut rand::rngs::StdRng,
    ) -> (res: Option<Ray>)
        requires
            in_bound(record.normal, NORMAL_LIMIT as int),
            valid_color(self.albedo),
        ensures
            valid_color(*final(attenuation)),
            res is Some,
            res.unwrap().origin == record.point,
            in_bound(res.unwrap().dir, DIR_LIMIT as int),
            exists|u: Vec3|
                in_bound(u, SCALE as int) && (#[trigger] spec_lambertian_scatter(
                    *self,
                    *record,
                    u,
                )) == (*final(attenuation), res.unwrap()),
    {
        let u: Vec3 = Vec3::random_unit_vector(rng);
        let pair: (Color, Ray) = self.scatter_with(record, u);
        *attenuation = pair.0;
        proof {
            assert(spec_lambertian_scatter(*self, *record, u) == (*attenuation, pair.1));
        }
        Some(pair.1)
    }
}

/// What a metal surface does with a hit, given the random in-sphere vector
/// of the draw: reflect the incoming direction about the normal, perturb by
/// `fuzz` times the draw, and scatter only if the result still points away
/// from the surface; otherwise the ray is absorbed. A perturbed direction
/// outside the representable ray range is absorbed as well.
pub open spec fn spec_metal_scatter(m: Metal, ray: Ray, rec: HitRecord, draw: Vec3) -> (
    Color,
    Option<Ray>,
) {
    let refl = reflectv(ray.dir, rec.normal);
    let sx = refl.x + fmul(m.fuzz as int, draw.x as int);
    let sy = refl.y + fmul(m.fuzz as int, draw.y as int);
    let sz = refl.z + fmul(m.fuzz as int, draw.z as int);
    if !(-DIR_LIMIT <= sx <= DIR_LIMIT && -DIR_LIMIT <= sy <= DIR_LIMIT && -DIR_LIMIT <= sz
        <= DIR_LIMIT) {
        (m.albedo, None)
    } else {
        let dir = Vec3 { x: sx as i64, y: sy as i64, z: sz as i64 };
        if dotv(dir, rec.normal) > 0 {
            (m.albedo, Some(Ray { origin: rec.point, dir }))
        } else {
            (m.albedo, None)
        }
    }
}

impl Metal {
    pub fn new(albedo: Color, fuzz: i64) -> (r: Metal)
        requires
            valid_color(albedo),
            0 <= fuzz <= SCALE,
        ensures
            r.albedo == albedo,
            r.fuzz == fuzz,
    {
        Metal { albedo, fuzz }
    }

    /// The deterministic half of the scatter: the draw comes in as an
    /// argument, so this holds for every value the sampler can produce.
    pub fn scatter_with(&self, ray: &Ray, record: &HitRecord, draw: Vec3) -> (res: (
        Color,
        Option<Ray>,
    ))
        requires
            0 <= self.fuzz <= SCALE,
            in_bound(ray.dir, DIR_LIMIT as int),
            in_bound(record.normal, NORMAL_LIMIT as int),
            in_bound(draw, SCALE as int),
        ensures
            res == spec_metal_scatter(*self, *ray, *record, draw),
            res.1 is Some ==> res.1.unwrap().origin == record.point
                && in_bound(res.1.unwrap().dir, DIR_LIMIT as int),
    {
        let refl: Vec3 = ray.dir.reflect(&record.normal);
        proof {
            lemma_mul_bound(draw.x as int, self.fuzz as int, SCALE as int, SCALE as int);
            lemma_mul_bound(draw.y as int, self.fuzz as int, SCALE as int, SCALE as int);
            lemma_mul_bound(draw.z as int, self.fuzz as int, SCALE as int, SCALE as int);
            lemma_tdiv_cap(draw.x * self.fuzz, SCALE as int, SCALE as int);
            lemma_tdiv_cap(draw.y * self.fuzz, SCALE as int, SCALE as int);
            lemma_tdiv_cap(draw.z * self.fuzz, SCALE as int, SCALE as int);
        }
        let fz: Vec3 = draw.scale(self.fuzz);
        let dir0: Vec3 = refl.add(&fz);
        if !(-DIR_LIMIT <= dir0.x && dir0.x <= DIR_LIMIT && -DIR_LIMIT <= dir0.y
            && dir0.y <= DIR_LIMIT && -DIR_LIMIT <= dir0.z && dir0.z <= DIR_LIMIT) {
            return (self.albedo, None);
        }
        if dir0.dot(&record.normal) > 0 {
            (self.albedo, Some(Ray::new(record.point, dir0)))
        } else {
            (self.albedo, None)
        }
    }

    /// Scatter with a fresh random in-sphere vector.
    pub fn scatter(
        &self,
        ray: &Ray,
        attenuation: &mut Color,
        record: &HitRecord,
        rng: &mut rand::rngs::StdRng,
    ) -> (res: Option<Ray>)
        requires
            0 <= self.fuzz <= SCALE,
            valid_color(self.albedo),
            in_bound(ray.dir, DIR_LIMIT as int),
            in_bound(record.normal, NORMAL_LIMIT as int),
        ensures
            valid_color(*final(attenuation)),
            res is Some ==> res.unwrap().origin == record.point
                && in_bound(res.unwrap().dir, DIR_LIMIT as int),
            exists|d: Vec3|
                in_bound(d, SCALE as int) && (#[trigger] spec_metal_scatter(
                    *self,
                    *ray,
                    *record,
                    d,
                )) == (*final(attenuation), res),
    {
        let d: Vec3 = Vec3::random_in_unit_sphere(rng);
        let pair: (Color, Option<Ray>) = self.scatter_with(ray, record, d);
        *attenuation = pair.0;
        proof {
            assert(spec_metal_scatter(*self, *ray, *record, d) == (*attenuation, pair.1));
        }
        pair.1
    }
}

/// Schlick's approximation of reflectance:
/// `r0 + (1 - r0) * (1 - cosine)^5` with `r0 = ((1 - eta) / (1 + eta))^2`,
/// evaluated in fixed point exactly as the executable code does.
pub open spec fn spec_reflectance(cosine: int, ref_idx: int) -> int {
    let q = tdiv((SCALE - ref_idx) * SCALE, SCALE + ref_idx);
    let r0 = fmul(q, q);
    let d = SCALE - cosine;
    let p2 = fmul(d, d);
    let p4 = fmul(p2, p2);
    let p5 = fmul(p4, d);
    r0 + fmul(SCALE - r0, p5)
}

/// The refraction ratio a dielectric hit uses: the reciprocal of the index
/// when the ray comes from outside, the index itself from inside.
pub open spec fn spec_ratio(d: Dielectric, rec: HitRecord) -> int {
    if rec.is_outward {
        tdiv((SCALE as int) * (SCALE as int), d.refraction_index as int)
    } else {
        d.refraction_index as int
    }
}

/// The cosine of the incidence angle: the unit incoming direction against
/// the stored normal, clamped to `[-1, 1]`: a true cosine needs only the
/// upper clamp, but fixed-point quantization can undershoot as well.
pub open spec fn spec_cos(ray: Ray, rec: HitRecord) -> int {
    let u = normalizev(ray.dir);
    let c0 = dotv(negv(u), rec.normal);
    if c0 < -SCALE {
        -(SCALE as int)
    } else if c0 > SCALE {
        SCALE as int
    } else {
        c0
    }
}

/// The sine from the cosine: `sqrt(1 - cos^2)`.
pub open spec fn spec_sin(ray: Ray, rec: HitRecord) -> int {
    let c = spec_cos(ray, rec);
    sqrt_floor((SCALE as int) * (SCALE as int) - c * c)
}

/// Snell's law in fixed point: the perpendicular part
/// `ratio * (u + cos * n)`, then the parallel part
/// `-sqrt(|1 - |perp|^2|) * n`, summed.
pub open spec fn refractv(u: Vec3, n: Vec3, ratio: int, cos: int) -> Vec3 {
    let px = tdiv(ratio * (u.x + tdiv(cos * n.x, SCALE as int)), SCALE as int);
    let py = tdiv(ratio * (u.y + tdiv(cos * n.y, SCALE as int)), SCALE as int);
    let pz = tdiv(ratio * (u.z + tdiv(cos * n.z, SCALE as int)), SCALE as int);
    let plen = tdiv(px * px + py * py + pz * pz, SCALE as int);
    let k = if SCALE - plen >= 0 {
        SCALE - plen
    } else {
        plen - SCALE
    };
    let sq = sqrt_floor(k * SCALE);
    Vec3 {
        x: (px - tdiv(sq * n.x, SCALE as int)) as i64,
        y: (py - tdiv(sq * n.y, SCALE as int)) as i64,
        z: (pz - tdiv(sq * n.z, SCALE as int)) as i64,
    }
}

/// The direction a dielectric hit scatters into, given the uniform toss
/// that weighs reflectance: reflection under total internal reflection or
/// a winning toss, refraction by Snell's law otherwise.
pub open spec fn spec_dielectric_dir(d: Dielectric, ray: Ray, rec: HitRecord, toss: int) -> Vec3 {
    let ratio = spec_ratio(d, rec);
    let u = normalizev(ray.dir);
    let cos = spec_cos(ray, rec);
    let sin = spec_sin(ray, rec);
    let cannot_refract = fmul(ratio, sin) > SCALE;
    if cannot_refract || spec_reflectance(cos, ratio) > toss {
        reflectv(u, rec.normal)
    } else {
        refractv(u, rec.normal, ratio, cos)
    }
}

impl Dielectric {
    pub fn new(ir: i64) -> (r: Dielectric)
        requires
            SCALE / 10 <= ir <= 10 * SCALE,
        ensures
            r.refraction_index == ir,
    {
        Dielectric { refraction_index: ir }
    }

    /// Schlick's approximation, evaluated in fixed point.
    pub fn reflectance(cosine: i64, ref_idx: i64) -> (r: i64)
        requires
            -SCALE <= cosine <= SCALE,
            SCALE / 10 <= ref_idx <= 10 * SCALE,
        ensures
            r as int == spec_reflectance(cosine as int, ref_idx as int),
            0 <= r <= 33 * SCALE,
    {
        let denom: i64 = SCALE + ref_idx;
        proof {
            lemma_tdiv_cap((SCALE - ref_idx) * SCALE, denom as int, SCALE as int);
        }
        let q: i64 = ((((SCALE - ref_idx) as i128) * (SCALE as i128)) / (denom as i128)) as i64;
        proof {
            lemma_mul_bound(q as int, q as int, SCALE as int, SCALE as int);
            assert((q as int) * (q as int) >= 0) by (nonlinear_arith);
            lemma_tdiv_cap((q as int) * (q as int), SCALE as int, SCALE as int);
        }
        let r0: i64 = fxmul(q, q);
        let d: i64 = SCALE - cosine;
        proof {
            lemma_mul_bound(d as int, d as int, 2 * SCALE as int, 2 * SCALE as int);
            assert((d as int) * (d as int) >= 0) by (nonlinear_arith);
            lemma_tdiv_cap((d as int) * (d as int), SCALE as int, 4 * SCALE as int);
        }
        let p2: i64 = fxmul(d, d);
        proof {
            lemma_mul_bound(p2 as int, p2 as int, 4 * SCALE as int, 4 * SCALE as int);
            assert((p2 as int) * (p2 as int) >= 0) by (nonlinear_arith);
            lemma_tdiv_cap((p2 as int) * (p2 as int), SCALE as int, 16 * SCALE as int);
        }
        let p4: i64 = fxmul(p2, p2);
        proof {
            lemma_mul_bound(p4 as int, d as int, 16 * SCALE as int, 2 * SCALE as int);
            assert((p4 as int) * (d as int) >= 0) by (nonlinear_arith)
                requires p4 >= 0, d >= 0;
            lemma_tdiv_cap((p4 as int) * (d as int), SCALE as int, 32 * SCALE as int);
        }
        let p5: i64 = fxmul(p4, d);
        proof {
            lemma_mul_bound(
                (SCALE - r0) as int, p5 as int, SCALE as int, 32 * SCALE as int);
            assert(((SCALE - r0) as int) * (p5 as int) >= 0) by (nonlinear_arith)
                requires SCALE - r0 >= 0, p5 >= 0;
            lemma_tdiv_cap(((SCALE - r0) as int) * (p5 as int), SCALE as int, 32 * SCALE as int);
        }
        let rest: i64 = fxmul(SCALE - r0, p5);
        r0 + rest
    }

    /// The deterministic half of the scatter: the reflectance toss comes in
    /// as an argument, so this holds for every value the sampler can
    /// produce. A dielectric never absorbs: attenuation is white and a
    /// scattered ray is always produced.
    #[verifier::rlimit(100)]
    pub fn scatter_with(&self, ray: &Ray, record: &HitRecord, toss: i64) -> (res: (Color, Ray))
        requires
            SCALE / 10 <= self.refraction_index <= 10 * SCALE,
            in_bound(ray.dir, DIR_LIMIT as int),
            sq_sum(ray.dir) >= 1,
            in_bound(record.normal, NORMAL_LIMIT as int),
        ensures
            res.0.x == SCALE && res.0.y == SCALE && res.0.z == SCALE,
            res.1.origin == record.point,
            res.1.dir == spec_dielectric_dir(*self, *ray, *record, toss as int),
            in_bound(res.1.dir, DIR_LIMIT as int),
    {
        let ratio: i64 = if record.is_outward {
            proof {
                assert((SCALE as int) * (SCALE as int) == 1_000_000_000_000int);
                assert(10_000_000int * (self.refraction_index as int) >= 1_000_000_000_000int)
                    by (nonlinear_arith)
                    requires self.refraction_index as int >= 100_000int;
                assert(100_000int * (self.refraction_index as int) <= 1_000_000_000_000int)
                    by (nonlinear_arith)
                    requires self.refraction_index as int <= 10_000_000int;
                lemma_tdiv_cap(
                    1_000_000_000_000int,
                    self.refraction_index as int,
                    10_000_000int,
                );
                lemma_tdiv_lower(
                    1_000_000_000_000int,
                    self.refraction_index as int,
                    100_000int,
                );
            }
            (((SCALE as i128) * (SCALE as i128)) / (self.refraction_index as i128)) as i64
        } else {
            self.refraction_index
        };
        let u: Vec3 = ray.dir().normalize();
        let nu: Vec3 = u.neg();
        proof {
            assert(nu == negv(u));
        }
        let cos0: i64 = nu.dot(&record.normal);
        let cos: i64 = clamp(cos0, -SCALE, SCALE);
        proof {
            lemma_mul_bound(cos as int, cos as int, SCALE as int, SCALE as int);
            assert((cos as int) * (cos as int) >= 0) by (nonlinear_arith);
        }
        let sinq: i128 = (SCALE as i128) * (SCALE as i128) - (cos as i128) * (cos as i128);
        let sin0: u64 = isqrt_u128(sinq as u128);
        proof {
            if sin0 as int > SCALE as int {
                assert((sin0 as int) * (sin0 as int) > (SCALE as int) * (SCALE as int))
                    by (nonlinear_arith)
                    requires sin0 as int > SCALE as int, SCALE as int >= 0;
            }
        }
        let sin: i64 = sin0 as i64;
        proof {
            lemma_mul_bound(ratio as int, sin as int, 10 * SCALE as int, SCALE as int);
        }
        let cannot_refract: bool = fxmul(ratio, sin) > SCALE;
        let refl: i64 = Dielectric::reflectance(cos, ratio);
        let direction: Vec3 = if cannot_refract || refl > toss {
            proof {
                lemma_mul_bound(u.x as int, record.normal.x as int, SCALE as int, NORMAL_LIMIT as int);
                lemma_mul_bound(u.y as int, record.normal.y as int, SCALE as int, NORMAL_LIMIT as int);
                lemma_mul_bound(u.z as int, record.normal.z as int, SCALE as int, NORMAL_LIMIT as int);
                lemma_tdiv_cap(
                    u.x * record.normal.x + u.y * record.normal.y + u.z * record.normal.z,
                    SCALE as int,
                    6 * SCALE as int,
                );
                lemma_mul_bound(
                    2 * dotv(u, record.normal), record.normal.x as int,
                    12 * SCALE as int, NORMAL_LIMIT as int);
                lemma_mul_bound(
                    2 * dotv(u, record.normal), record.normal.y as int,
                    12 * SCALE as int, NORMAL_LIMIT as int);
                lemma_mul_bound(
                    2 * dotv(u, record.normal), record.normal.z as int,
                    12 * SCALE as int, NORMAL_LIMIT as int);
                lemma_tdiv_cap(
                    2 * dotv(u, record.normal) * record.normal.x, SCALE as int, 24 * SCALE as int);
                lemma_tdiv_cap(
                    2 * dotv(u, record.normal) * record.normal.y, SCALE as int, 24 * SCALE as int);
                lemma_tdiv_cap(
                    2 * dotv(u, record.normal) * record.normal.z, SCALE as int, 24 * SCALE as int);
            }
            u.reflect(&record.normal)
        } else {
            proof {
                lemma_mul_bound(cos as int, record.normal.x as int, SCALE as int, NORMAL_LIMIT as int);
                lemma_mul_bound(cos as int, record.normal.y as int, SCALE as int, NORMAL_LIMIT as int);
                lemma_mul_bound(cos as int, record.normal.z as int, SCALE as int, NORMAL_LIMIT as int);
                lemma_tdiv_cap(cos * record.normal.x, SCALE as int, 2 * SCALE as int);
                lemma_tdiv_cap(cos * record.normal.y, SCALE as int, 2 * SCALE as int);
                lemma_tdiv_cap(cos * record.normal.z, SCALE as int, 2 * SCALE as int);
            }
            let ix: i128 = (u.x as i128) + ((cos as i128) * (record.normal.x as i128))
                / (SCALE as i128);
            let iy: i128 = (u.y as i128) + ((cos as i128) * (record.normal.y as i128))
                / (SCALE as i128);
            let iz: i128 = (u.z as i128) + ((cos as i128) * (record.normal.z as i128))
                / (SCALE as i128);
            proof {
                lemma_mul_bound(ratio as int, ix as int, 10 * SCALE as int, 3 * SCALE as int);
                lemma_mul_bound(ratio as int, iy as int, 10 * SCALE as int, 3 * SCALE as int);
                lemma_mul_bound(ratio as int, iz as int, 10 * SCALE as int, 3 * SCALE as int);
                lemma_tdiv_cap((ratio as int) * (ix as int), SCALE as int, 30 * SCALE as int);
                lemma_tdiv_cap((ratio as int) * (iy as int), SCALE as int, 30 * SCALE as int);
                lemma_tdiv_cap((ratio as int) * (iz as int), SCALE as int, 30 * SCALE as int);
            }
            let px: i64 = (((ratio as i128) * ix) / (SCALE as i128)) as i64;
            let py: i64 = (((ratio as i128) * iy) / (SCALE as i128)) as i64;
            let pz: i64 = (((ratio as i128) * iz) / (SCALE as i128)) as i64;
            proof {
                lemma_mul_bound(px as int, px as int, 30 * SCALE as int, 30 * SCALE as int);
                lemma_mul_bound(py as int, py as int, 30 * SCALE as int, 30 * SCALE as int);
                lemma_mul_bound(pz as int, pz as int, 30 * SCALE as int, 30 * SCALE as int);
                assert((px as int) * (px as int) >= 0) by (nonlinear_arith);
                assert((py as int) * (py as int) >= 0) by (nonlinear_arith);
                assert((pz as int) * (pz as int) >= 0) by (nonlinear_arith);
                lemma_tdiv_cap(
                    (px as int) * (px as int) + (py as int) * (py as int)
                        + (pz as int) * (pz as int),
                    SCALE as int,
                    2700 * SCALE as int,
                );
            }
            let plen: i64 = (((px as i128) * (px as i128) + (py as i128) * (py as i128)
                + (pz as i128) * (pz as i128)) / (SCALE as i128)) as i64;
            let k: i64 = if SCALE - plen >= 0 {
                SCALE - plen
            } else {
                plen - SCALE
            };
            proof {
                lemma_mul_bound(k as int, SCALE as int, 2700 * SCALE as int, SCALE as int);
            }
            let sq0: u64 = isqrt_u128((k as u128) * (SCALE as u128));
            proof {
                if sq0 as int > 52_000_000int {
                    assert((sq0 as int) * (sq0 as int) > 2_704_000_000_000_000int)
                        by (nonlinear_arith)
                        requires sq0 as int > 52_000_000int;
                }
            }
            let sq: i64 = sq0 as i64;
            proof {
                lemma_mul_bound(sq as int, record.normal.x as int, 52_000_000int, NORMAL_LIMIT as int);
                lemma_mul_bound(sq as int, record.normal.y as int, 52_000_000int, NORMAL_LIMIT as int);
                lemma_mul_bound(sq as int, record.normal.z as int, 52_000_000int, NORMAL_LIMIT as int);
                lemma_tdiv_cap(sq * record.normal.x, SCALE as int, 104_000_000int);
                lemma_tdiv_cap(sq * record.normal.y, SCALE as int, 104_000_000int);
                lemma_tdiv_cap(sq * record.normal.z, SCALE as int, 104_000_000int);
            }
            let rx: i64 = ((px as i128) - ((sq as i128) * (record.normal.x as i128))
                / (SCALE as i128)) as i64;
            let ry: i64 = ((py as i128) - ((sq as i128) * (record.normal.y as i128))
                / (SCALE as i128)) as i64;
            let rz: i64 = ((pz as i128) - ((sq as i128) * (record.normal.z as i128))
                / (SCALE as i128)) as i64;
            Vec3 { x: rx, y: ry, z: rz }
        };
        (Vec3::white(), Ray::new(record.point, direction))
    }

    /// Scatter with a fresh uniform toss against the reflectance.
    pub fn scatter(
        &self,
        ray: &Ray,
        attenuation: &mut Color,
        record: &HitRecord,
        rng: &mut rand::rngs::StdRng,
    ) -> (res: Option<Ray>)
        requires
            SCALE / 10 <= self.refraction_index <= 10 * SCALE,
            in_bound(ray.dir, DIR_LIMIT as int),
            sq_sum(ray.dir) >= 1,
            in_bound(record.normal, NORMAL_LIMIT as int),
        ensures
            valid_color(*final(attenuation)),
            res is Some,
            res.unwrap().origin == record.point,
            in_bound(res.unwrap().dir, DIR_LIMIT as int),
            exists|t: int|
                0 <= t < SCALE && res.unwrap().dir == #[trigger] spec_dielectric_dir(
                    *self,
                    *ray,
                    *record,
                    t,
                ),
    {
        let toss: i64 = random_fraction(rng);
        let pair: (Color, Ray) = self.scatter_with(ray, record, toss);
        *attenuation = pair.0;
        proof {
            assert(pair.1.dir == spec_dielectric_dir(*self, *ray, *record, toss as int));
        }
        Some(pair.1)
    }
}

impl Material {
    /// Dispatch to the variant's scatter. Whatever the draws were, the
    /// attenuation is a valid color and any scattered ray starts at the hit
    /// point with a direction in the representable ray range.
    pub fn scatter(
        &self,
        ray: &Ray,
        attenuation: &mut Color,
        record: &HitRecord,
        rng: &mut rand::rngs::StdRng,
    ) -> (res: Option<Ray>)
        requires
            valid_material(*self),
            in_bound(ray.dir, DIR_LIMIT as int),
            sq_sum(ray.dir) >= 1,
            in_bound(record.normal, NORMAL_LIMIT as int),
        ensures
            valid_color(*final(attenuation)),
            res is Some ==> res.unwrap().origin == record.point
                && in_bound(res.unwrap().dir, DIR_LIMIT as int),
            self is Lambertian ==> res is Some,
            self is Dielectric ==> res is Some,
    {
        match self {
            Material::Lambertian(l) => l.scatter(ray, attenuation, record, rng),
            Material::Metal(m) => m.scatter(ray, attenuation, record, rng),
            Material::Dielectric(d) => d.scatter(ray, attenuation, record, rng),
        }
    }
}

/// At normal incidence (`cosine = 1`) Schlick's approximation collapses to
/// `r0 = ((1 - eta) / (1 + eta))^2` exactly: the angular term vanishes.
pub proof fn lemma_reflectance_normal_incidence(ref_idx: int)
    ensures
        spec_reflectance(SCALE as int, ref_idx) == ({
            let q = tdiv((SCALE - ref_idx) * SCALE, SCALE + ref_idx);
            fmul(q, q)
        }),
{
    let q = tdiv((SCALE - ref_idx) * SCALE, SCALE + ref_idx);
    let r0 = fmul(q, q);
    assert(SCALE - SCALE as int == 0);
    assert(fmul(0, 0) == 0);
    assert(fmul(16, 0) == 0);
    assert((SCALE - r0) * 0 == 0);
    assert(fmul(SCALE - r0, 0) == 0);
}

/// Total internal reflection: once `ratio * sin_theta` exceeds one, the
/// scattered direction is the reflection of the unit incoming direction,
/// never a refraction, whatever the reflectance toss was.
pub proof fn lemma_total_internal_reflection(d: Dielectric, ray: Ray, rec: HitRecord, toss: int)
    requires
        fmul(spec_ratio(d, rec), spec_sin(ray, rec)) > SCALE,
    ensures
        spec_dielectric_dir(d, ray, rec, toss) == reflectv(normalizev(ray.dir), rec.normal),
{
}

} // verus!
