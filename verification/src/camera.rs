//! The camera: an orthonormal basis, viewport vectors and a lens radius,
//! derived once from look-from/look-at, field of view, aspect ratio,
//! aperture and focus distance. Construction refuses degenerate inputs —
//! coincident look points, an up vector parallel to the view axis, a field
//! of view whose cosine vanishes, or derived vectors beyond the coordinate
//! range — configurations whose derivation has no usable value.

use vstd::prelude::*;
use crate::fixed::{
    SCALE, COORD_LIMIT, DIR_LIMIT, ORIGIN_LIMIT,
    tdiv, fmul, lemma_mul_bound, lemma_tdiv_cap,
};
use crate::vec3::{Vec3, in_bound, sq_sum, normalizev};
use crate::ray::Ray;
use crate::math::{degrees_to_radians, spec_degrees_to_radians, sin_fixed, cos_fixed, sin_series,
    cos_series};

verus! {

pub struct Camera {
    pub origin: Vec3,
    pub lower_left_corner: Vec3,
    pub horizontal: Vec3,
    pub vertical: Vec3,
    pub u: Vec3,
    pub v: Vec3,
    pub w: Vec3,
    pub lens_radius: i64,
}

/// The ranges a constructed camera's fields obey.
pub open spec fn camera_wf(c: Camera) -> bool {
    &&& in_bound(c.origin, COORD_LIMIT as int)
    &&& in_bound(c.lower_left_corner, COORD_LIMIT as int)
    &&& in_bound(c.horizontal, COORD_LIMIT as int)
    &&& in_bound(c.vertical, COORD_LIMIT as int)
    &&& in_bound(c.u, SCALE as int)
    &&& in_bound(c.v, 2 * SCALE as int)
    &&& in_bound(c.w, SCALE as int)
    &&& 0 <= c.lens_radius <= 5 * SCALE
}

/// The whole construction, step for step: radians, half-angle sine and
/// cosine, viewport size, orthonormal basis, viewport vectors and corner,
/// with `None` at every degenerate or out-of-range point.
pub open spec fn spec_camera(
    lookfrom: Vec3,
    lookat: Vec3,
    vup: Vec3,
    vfov: int,
    aspect_ratio: int,
    aperture: int,
    focus_dist: int,
) -> Option<Camera> {
    let half = tdiv(spec_degrees_to_radians(vfov), 2);
    let s = sin_series(half);
    let c = cos_series(half);
    if c <= 0 {
        None
    } else {
        let h = tdiv(s * SCALE, c);
        let vh = tdiv(2 * h * focus_dist, SCALE as int);
        let vw = tdiv(aspect_ratio * vh, SCALE as int);
        let w0 = Vec3 {
            x: (lookfrom.x - lookat.x) as i64,
            y: (lookfrom.y - lookat.y) as i64,
            z: (lookfrom.z - lookat.z) as i64,
        };
        if w0.x == 0 && w0.y == 0 && w0.z == 0 {
            None
        } else {
            let w = normalizev(w0);
            let u0 = Vec3 {
                x: tdiv(vup.y * w.z - vup.z * w.y, SCALE as int) as i64,
                y: tdiv(vup.z * w.x - vup.x * w.z, SCALE as int) as i64,
                z: tdiv(vup.x * w.y - vup.y * w.x, SCALE as int) as i64,
            };
            if u0.x == 0 && u0.y == 0 && u0.z == 0 {
                None
            } else {
                let u = normalizev(u0);
                let v = Vec3 {
                    x: tdiv(w.y * u.z - w.z * u.y, SCALE as int) as i64,
                    y: tdiv(w.z * u.x - w.x * u.z, SCALE as int) as i64,
                    z: tdiv(w.x * u.y - w.y * u.x, SCALE as int) as i64,
                };
                let hx = tdiv(u.x * vw, SCALE as int);
                let hy = tdiv(u.y * vw, SCALE as int);
                let hz = tdiv(u.z * vw, SCALE as int);
                let vx = tdiv(v.x * vh, SCALE as int);
                let vy = tdiv(v.y * vh, SCALE as int);
                let vz = tdiv(v.z * vh, SCALE as int);
                let lx = lookfrom.x - tdiv(hx, 2) - tdiv(vx, 2) - tdiv(
                    focus_dist * w.x, SCALE as int);
                let ly = lookfrom.y - tdiv(hy, 2) - tdiv(vy, 2) - tdiv(
                    focus_dist * w.y, SCALE as int);
                let lz = lookfrom.z - tdiv(hz, 2) - tdiv(vz, 2) - tdiv(
                    focus_dist * w.z, SCALE as int);
                if -COORD_LIMIT <= hx <= COORD_LIMIT && -COORD_LIMIT <= hy <= COORD_LIMIT
                    && -COORD_LIMIT <= hz <= COORD_LIMIT && -COORD_LIMIT <= vx <= COORD_LIMIT
                    && -COORD_LIMIT <= vy <= COORD_LIMIT && -COORD_LIMIT <= vz <= COORD_LIMIT
                    && -COORD_LIMIT <= lx <= COORD_LIMIT && -COORD_LIMIT <= ly <= COORD_LIMIT
                    && -COORD_LIMIT <= lz <= COORD_LIMIT {
                    Some(
                        Camera {
                            origin: lookfrom,
                            lower_left_corner: Vec3 { x: lx as i64, y: ly as i64, z: lz as i64 },
                            horizontal: Vec3 { x: hx as i64, y: hy as i64, z: hz as i64 },
                            vertical: Vec3 { x: vx as i64, y: vy as i64, z: vz as i64 },
                            u,
                            v,
                            w,
                            lens_radius: tdiv(aperture, 2) as i64,
                        },
                    )
                } else {
                    None
                }
            }
        }
    }
}

/// The ray through image-plane coordinates `(s, t)` for a given lens-disk
/// sample: the lens offset shifts the origin, and the direction points
/// from the shifted origin at the focal plane.
pub open spec fn spec_get_ray(cam: Camera, s: int, t: int, disk: Vec3) -> Ray {
    let rdx = fmul(cam.lens_radius as int, disk.x as int);
    let rdy = fmul(cam.lens_radius as int, disk.y as int);
    let ox = tdiv(cam.u.x * rdx + cam.v.x * rdy, SCALE as int);
    let oy = tdiv(cam.u.y * rdx + cam.v.y * rdy, SCALE as int);
    let oz = tdiv(cam.u.z * rdx + cam.v.z * rdy, SCALE as int);
    Ray {
        origin: Vec3 {
            x: (cam.origin.x + ox) as i64,
            y: (cam.origin.y + oy) as i64,
            z: (cam.origin.z + oz) as i64,
        },
        dir: Vec3 {
            x: (cam.lower_left_corner.x + fmul(s, cam.horizontal.x as int) + fmul(
                t, cam.vertical.x as int) - cam.origin.x - ox) as i64,
            y: (cam.lower_left_corner.y + fmul(s, cam.horizontal.y as int) + fmul(
                t, cam.vertical.y as int) - cam.origin.y - oy) as i64,
            z: (cam.lower_left_corner.z + fmul(s, cam.horizontal.z as int) + fmul(
                t, cam.vertical.z as int) - cam.origin.z - oz) as i64,
        },
    }
}

impl Camera {
    /// Derive the camera, refusing degenerate parameters.
    #[verifier::rlimit(100)]
    pub fn new(
        lookfrom: Vec3,
        lookat: Vec3,
        vup: Vec3,
        vfov: i64,
        aspect_ratio: i64,
        aperture: i64,
        focus_dist: i64,
    ) -> (res: Option<Camera>)
        requires
            in_bound(lookfrom, 1_000_000_000int),
            in_bound(lookat, 1_000_000_000int),
            in_bound(vup, 1_000_000_000int),
            0 < vfov < 180 * SCALE,
            0 < aspect_ratio <= 8 * SCALE,
            0 <= aperture <= 10 * SCALE,
            SCALE / 10 <= focus_dist <= 1_000_000_000,
        ensures
            res == spec_camera(
                lookfrom,
                lookat,
                vup,
                vfov as int,
                aspect_ratio as int,
                aperture as int,
                focus_dist as int,
            ),
            res is Some ==> camera_wf(res.unwrap()),
    {
        let theta: i64 = degrees_to_radians(vfov);
        proof {
            lemma_mul_bound(vfov as int, 3_141_593int, 180_000_000int, 3_141_593int);
            lemma_tdiv_cap(vfov * 3_141_593, 180_000_000int, 3_141_593int);
            lemma_tdiv_cap(theta as int, 2int, 3_141_593int);
        }
        let half: i64 = theta / 2;
        proof {
            assert(0 <= half <= 2 * SCALE);
        }
        let sn: i64 = sin_fixed(half);
        let cs: i64 = cos_fixed(half);
        if cs <= 0 {
            return None;
        }
        proof {
            lemma_mul_bound(sn as int, SCALE as int, 3_000_000_000int, 1_000_000int);
            assert(3_000_000_000_000_000int * (cs as int) >= 3_000_000_000_000_000int)
                by (nonlinear_arith)
                requires cs >= 1;
            lemma_tdiv_cap((sn as int) * (SCALE as int), cs as int, 3_000_000_000_000_000int);
        }
        let h: i64 = (((sn as i128) * (SCALE as i128)) / (cs as i128)) as i64;
        proof {
            lemma_mul_bound(2 * (h as int), focus_dist as int, 6_000_000_000_000_000int,
                1_000_000_000int);
            lemma_tdiv_cap(2 * (h as int) * (focus_dist as int), SCALE as int,
                6_000_000_000_000_000_000int);
        }
        let vh: i128 = (2 * (h as i128) * (focus_dist as i128)) / (SCALE as i128);
        proof {
            lemma_mul_bound(aspect_ratio as int, vh as int, 8_000_000int,
                6_000_000_000_000_000_000int);
            lemma_tdiv_cap((aspect_ratio as int) * (vh as int), SCALE as int,
                48_000_000_000_000_000_000int);
        }
        let vw: i128 = ((aspect_ratio as i128) * vh) / (SCALE as i128);
        let w0: Vec3 = lookfrom.sub(&lookat);
        if w0.near_zero() {
            return None;
        }
        proof {
            assert(1 <= sq_sum(w0)) by (nonlinear_arith)
                requires !(w0.x == 0 && w0.y == 0 && w0.z == 0);
        }
        let w: Vec3 = w0.normalize();
        proof {
            lemma_mul_bound(vup.y as int, w.z as int, 1_000_000_000int, 1_000_000int);
            lemma_mul_bound(vup.z as int, w.y as int, 1_000_000_000int, 1_000_000int);
            lemma_mul_bound(vup.z as int, w.x as int, 1_000_000_000int, 1_000_000int);
            lemma_mul_bound(vup.x as int, w.z as int, 1_000_000_000int, 1_000_000int);
            lemma_mul_bound(vup.x as int, w.y as int, 1_000_000_000int, 1_000_000int);
            lemma_mul_bound(vup.y as int, w.x as int, 1_000_000_000int, 1_000_000int);
            lemma_tdiv_cap(vup.y * w.z - vup.z * w.y, SCALE as int, 2_000_000_000int);
            lemma_tdiv_cap(vup.z * w.x - vup.x * w.z, SCALE as int, 2_000_000_000int);
            lemma_tdiv_cap(vup.x * w.y - vup.y * w.x, SCALE as int, 2_000_000_000int);
        }
        let u0: Vec3 = vup.cross(&w);
        if u0.near_zero() {
            return None;
        }
        proof {
            assert(1 <= sq_sum(u0)) by (nonlinear_arith)
                requires !(u0.x == 0 && u0.y == 0 && u0.z == 0);
        }
        let u: Vec3 = u0.normalize();
        proof {
            lemma_mul_bound(w.y as int, u.z as int, 1_000_000int, 1_000_000int);
            lemma_mul_bound(w.z as int, u.y as int, 1_000_000int, 1_000_000int);
            lemma_mul_bound(w.z as int, u.x as int, 1_000_000int, 1_000_000int);
            lemma_mul_bound(w.x as int, u.z as int, 1_000_000int, 1_000_000int);
            lemma_mul_bound(w.x as int, u.y as int, 1_000_000int, 1_000_000int);
            lemma_mul_bound(w.y as int, u.x as int, 1_000_000int, 1_000_000int);
            lemma_tdiv_cap(w.y * u.z - w.z * u.y, SCALE as int, 2_000_000int);
            lemma_tdiv_cap(w.z * u.x - w.x * u.z, SCALE as int, 2_000_000int);
            lemma_tdiv_cap(w.x * u.y - w.y * u.x, SCALE as int, 2_000_000int);
        }
        let v: Vec3 = w.cross(&u);
        proof {
            lemma_mul_bound(u.x as int, vw as int, 1_000_000int, 48_000_000_000_000_000_000int);
            lemma_mul_bound(u.y as int, vw as int, 1_000_000int, 48_000_000_000_000_000_000int);
            lemma_mul_bound(u.z as int, vw as int, 1_000_000int, 48_000_000_000_000_000_000int);
            lemma_tdiv_cap((u.x as int) * (vw as int), SCALE as int,
                48_000_000_000_000_000_000int);
            lemma_tdiv_cap((u.y as int) * (vw as int), SCALE as int,
                48_000_000_000_000_000_000int);
            lemma_tdiv_cap((u.z as int) * (vw as int), SCALE as int,
                48_000_000_000_000_000_000int);
            lemma_mul_bound(v.x as int, vh as int, 2_000_000int,
                6_000_000_000_000_000_000int);
            lemma_mul_bound(v.y as int, vh as int, 2_000_000int,
                6_000_000_000_000_000_000int);
            lemma_mul_bound(v.z as int, vh as int, 2_000_000int,
                6_000_000_000_000_000_000int);
            lemma_tdiv_cap((v.x as int) * (vh as int), SCALE as int,
                12_000_000_000_000_000_000int);
            lemma_tdiv_cap((v.y as int) * (vh as int), SCALE as int,
                12_000_000_000_000_000_000int);
            lemma_tdiv_cap((v.z as int) * (vh as int), SCALE as int,
                12_000_000_000_000_000_000int);
            lemma_mul_bound(focus_dist as int, w.x as int, 1_000_000_000int, 1_000_000int);
            lemma_mul_bound(focus_dist as int, w.y as int, 1_000_000_000int, 1_000_000int);
            lemma_mul_bound(focus_dist as int, w.z as int, 1_000_000_000int, 1_000_000int);
            lemma_tdiv_cap((focus_dist as int) * (w.x as int), SCALE as int, 1_000_000_000int);
            lemma_tdiv_cap((focus_dist as int) * (w.y as int), SCALE as int, 1_000_000_000int);
            lemma_tdiv_cap((focus_dist as int) * (w.z as int), SCALE as int, 1_000_000_000int);
        }
        let hx: i128 = ((u.x as i128) * vw) / (SCALE as i128);
        let hy: i128 = ((u.y as i128) * vw) / (SCALE as i128);
        let hz: i128 = ((u.z as i128) * vw) / (SCALE as i128);
        let vx: i128 = ((v.x as i128) * vh) / (SCALE as i128);
        let vy: i128 = ((v.y as i128) * vh) / (SCALE as i128);
        let vz: i128 = ((v.z as i128) * vh) / (SCALE as i128);
        proof {
            lemma_tdiv_cap(hx as int, 2int, 48_000_000_000_000_000_000int);
            lemma_tdiv_cap(hy as int, 2int, 48_000_000_000_000_000_000int);
            lemma_tdiv_cap(hz as int, 2int, 48_000_000_000_000_000_000int);
            lemma_tdiv_cap(vx as int, 2int, 12_000_000_000_000_000_000int);
            lemma_tdiv_cap(vy as int, 2int, 12_000_000_000_000_000_000int);
            lemma_tdiv_cap(vz as int, 2int, 12_000_000_000_000_000_000int);
        }
        let lx: i128 = (lookfrom.x as i128) - hx / 2 - vx / 2
            - ((focus_dist as i128) * (w.x as i128)) / (SCALE as i128);
        let ly: i128 = (lookfrom.y as i128) - hy / 2 - vy / 2
            - ((focus_dist as i128) * (w.y as i128)) / (SCALE as i128);
        let lz: i128 = (lookfrom.z as i128) - hz / 2 - vz / 2
            - ((focus_dist as i128) * (w.z as i128)) / (SCALE as i128);
        let cl: i128 = COORD_LIMIT as i128;
        if !(-cl <= hx && hx <= cl && -cl <= hy && hy <= cl && -cl <= hz && hz <= cl
            && -cl <= vx && vx <= cl && -cl <= vy && vy <= cl && -cl <= vz && vz <= cl
            && -cl <= lx && lx <= cl && -cl <= ly && ly <= cl && -cl <= lz && lz <= cl) {
            return None;
        }
        proof {
            lemma_tdiv_cap(aperture as int, 2int, 10 * SCALE as int);
        }
        Some(
            Camera {
                origin: lookfrom,
                lower_left_corner: Vec3 { x: lx as i64, y: ly as i64, z: lz as i64 },
                horizontal: Vec3 { x: hx as i64, y: hy as i64, z: hz as i64 },
                vertical: Vec3 { x: vx as i64, y: vy as i64, z: vz as i64 },
                u,
                v,
                w,
                lens_radius: aperture / 2,
            },
        )
    }

    /// The deterministic half of ray generation: the lens-disk sample comes
    /// in as an argument, so this holds for every value the sampler can
    /// produce.
    pub fn get_ray_with(&self, s: i64, t: i64, disk: Vec3) -> (r: Ray)
        requires
            camera_wf(*self),
            0 <= s <= 2 * SCALE,
            0 <= t <= 2 * SCALE,
            in_bound(disk, SCALE as int),
        ensures
            r == spec_get_ray(*self, s as int, t as int, disk),
            in_bound(r.origin, ORIGIN_LIMIT as int),
            in_bound(r.dir, DIR_LIMIT as int),
    {
        proof {
            lemma_mul_bound(self.lens_radius as int, disk.x as int, 5_000_000int, 1_000_000int);
            lemma_mul_bound(self.lens_radius as int, disk.y as int, 5_000_000int, 1_000_000int);
            lemma_tdiv_cap(self.lens_radius * disk.x, SCALE as int, 5_000_000int);
            lemma_tdiv_cap(self.lens_radius * disk.y, SCALE as int, 5_000_000int);
        }
        let rdx: i64 = (((self.lens_radius as i128) * (disk.x as i128)) / (SCALE as i128)) as i64;
        let rdy: i64 = (((self.lens_radius as i128) * (disk.y as i128)) / (SCALE as i128)) as i64;
        proof {
            lemma_mul_bound(self.u.x as int, rdx as int, 1_000_000int, 5_000_000int);
            lemma_mul_bound(self.u.y as int, rdx as int, 1_000_000int, 5_000_000int);
            lemma_mul_bound(self.u.z as int, rdx as int, 1_000_000int, 5_000_000int);
            lemma_mul_bound(self.v.x as int, rdy as int, 2_000_000int, 5_000_000int);
            lemma_mul_bound(self.v.y as int, rdy as int, 2_000_000int, 5_000_000int);
            lemma_mul_bound(self.v.z as int, rdy as int, 2_000_000int, 5_000_000int);
            lemma_tdiv_cap(self.u.x * rdx + self.v.x * rdy, SCALE as int, 15_000_000int);
            lemma_tdiv_cap(self.u.y * rdx + self.v.y * rdy, SCALE as int, 15_000_000int);
            lemma_tdiv_cap(self.u.z * rdx + self.v.z * rdy, SCALE as int, 15_000_000int);
        }
        let ox: i64 = (((self.u.x as i128) * (rdx as i128) + (self.v.x as i128) * (rdy as i128))
            / (SCALE as i128)) as i64;
        let oy: i64 = (((self.u.y as i128) * (rdx as i128) + (self.v.y as i128) * (rdy as i128))
            / (SCALE as i128)) as i64;
        let oz: i64 = (((self.u.z as i128) * (rdx as i128) + (self.v.z as i128) * (rdy as i128))
            / (SCALE as i128)) as i64;
        proof {
            lemma_mul_bound(s as int, self.horizontal.x as int, 2_000_000int, 10_000_000_000int);
            lemma_mul_bound(s as int, self.horizontal.y as int, 2_000_000int, 10_000_000_000int);
            lemma_mul_bound(s as int, self.horizontal.z as int, 2_000_000int, 10_000_000_000int);
            lemma_mul_bound(t as int, self.vertical.x as int, 2_000_000int, 10_000_000_000int);
            lemma_mul_bound(t as int, self.vertical.y as int, 2_000_000int, 10_000_000_000int);
            lemma_mul_bound(t as int, self.vertical.z as int, 2_000_000int, 10_000_000_000int);
            lemma_tdiv_cap(s * self.horizontal.x, SCALE as int, 20_000_000_000int);
            lemma_tdiv_cap(s * self.horizontal.y, SCALE as int, 20_000_000_000int);
            lemma_tdiv_cap(s * self.horizontal.z, SCALE as int, 20_000_000_000int);
            lemma_tdiv_cap(t * self.vertical.x, SCALE as int, 20_000_000_000int);
            lemma_tdiv_cap(t * self.vertical.y, SCALE as int, 20_000_000_000int);
            lemma_tdiv_cap(t * self.vertical.z, SCALE as int, 20_000_000_000int);
        }
        let dx: i64 = ((self.lower_left_corner.x as i128)
            + ((s as i128) * (self.horizontal.x as i128)) / (SCALE as i128)
            + ((t as i128) * (self.vertical.x as i128)) / (SCALE as i128)
            - (self.origin.x as i128) - (ox as i128)) as i64;
        let dy: i64 = ((self.lower_left_corner.y as i128)
            + ((s as i128) * (self.horizontal.y as i128)) / (SCALE as i128)
            + ((t as i128) * (self.vertical.y as i128)) / (SCALE as i128)
            - (self.origin.y as i128) - (oy as i128)) as i64;
        let dz: i64 = ((self.lower_left_corner.z as i128)
            + ((s as i128) * (self.horizontal.z as i128)) / (SCALE as i128)
            + ((t as i128) * (self.vertical.z as i128)) / (SCALE as i128)
            - (self.origin.z as i128) - (oz as i128)) as i64;
        Ray {
            origin: Vec3 { x: self.origin.x + ox, y: self.origin.y + oy, z: self.origin.z + oz },
            dir: Vec3 { x: dx, y: dy, z: dz },
        }
    }

    /// Generate the ray for `(s, t)` with a fresh lens-disk sample.
    pub fn get_ray(&self, s: i64, t: i64, rng: &mut rand::rngs::StdRng) -> (r: Ray)
        requires
            camera_wf(*self),
            0 <= s <= 2 * SCALE,
            0 <= t <= 2 * SCALE,
        ensures
            in_bound(r.origin, ORIGIN_LIMIT as int),
            in_bound(r.dir, DIR_LIMIT as int),
            exists|d: Vec3|
                in_bound(d, SCALE as int) && r == #[trigger] spec_get_ray(
                    *self,
                    s as int,
                    t as int,
                    d,
                ),
    {
        let d: Vec3 = Vec3::random_in_unit_disk(rng);
        let r: Ray = self.get_ray_with(s, t, d);
        proof {
            assert(r == spec_get_ray(*self, s as int, t as int, d));
        }
        r
    }
}

/// With a zero lens radius the lens sample cannot move the ray: for any two
/// disk samples the generated rays coincide, so an aperture of zero is
/// exactly a pinhole camera.
pub proof fn lemma_pinhole_camera(cam: Camera, s: int, t: int, d1: Vec3, d2: Vec3)
    requires
        cam.lens_radius == 0,
    ensures
        spec_get_ray(cam, s, t, d1) == spec_get_ray(cam, s, t, d2),
{
    assert(fmul(0, d1.x as int) == 0);
    assert(fmul(0, d1.y as int) == 0);
    assert(fmul(0, d2.x as int) == 0);
    assert(fmul(0, d2.y as int) == 0);
}

} // verus!
