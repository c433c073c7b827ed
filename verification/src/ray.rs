//! A ray: origin plus direction, with parameterized point evaluation.
//! Directions are not required to be normalized.

use vstd::prelude::*;
use crate::fixed::{SCALE, ORIGIN_LIMIT, DIR_LIMIT, T_LIMIT, fmul, lemma_mul_bound, lemma_tdiv_cap};
use crate::vec3::{Vec3, in_bound};

verus! {

#[derive(Clone, Copy, PartialEq, Eq, Structural, Debug)]
pub struct Ray {
    pub origin: Vec3,
    pub dir: Vec3,
}

/// The point `origin + t * dir`, component by component in fixed point.
pub open spec fn ray_at(r: Ray, t: int) -> (int, int, int) {
    (
        r.origin.x + fmul(r.dir.x as int, t),
        r.origin.y + fmul(r.dir.y as int, t),
        r.origin.z + fmul(r.dir.z as int, t),
    )
}

impl Ray {
    pub fn new(origin: Vec3, dir: Vec3) -> (r: Ray)
        ensures
            r.origin == origin,
            r.dir == dir,
    {
        Ray { origin, dir }
    }

    /// Evaluate the ray at parameter `t`, which may be negative; callers
    /// constrain it through their own range checks.
    pub fn at(&self, t: i64) -> (r: Vec3)
        requires
            in_bound(self.origin, ORIGIN_LIMIT as int),
            in_bound(self.dir, DIR_LIMIT as int),
            -T_LIMIT <= t <= T_LIMIT,
        ensures
            r.x as int == ray_at(*self, t as int).0,
            r.y as int == ray_at(*self, t as int).1,
            r.z as int == ray_at(*self, t as int).2,
    {
        proof {
            lemma_mul_bound(self.dir.x as int, t as int, DIR_LIMIT as int, T_LIMIT as int);
            lemma_mul_bound(self.dir.y as int, t as int, DIR_LIMIT as int, T_LIMIT as int);
            lemma_mul_bound(self.dir.z as int, t as int, DIR_LIMIT as int, T_LIMIT as int);
            lemma_tdiv_cap(self.dir.x * t, SCALE as int, 700_000_000_000_000_000int);
            lemma_tdiv_cap(self.dir.y * t, SCALE as int, 700_000_000_000_000_000int);
            lemma_tdiv_cap(self.dir.z * t, SCALE as int, 700_000_000_000_000_000int);
        }
        let x: i64 = ((self.origin.x as i128)
            + (self.dir.x as i128) * (t as i128) / (SCALE as i128)) as i64;
        let y: i64 = ((self.origin.y as i128)
            + (self.dir.y as i128) * (t as i128) / (SCALE as i128)) as i64;
        let z: i64 = ((self.origin.z as i128)
            + (self.dir.z as i128) * (t as i128) / (SCALE as i128)) as i64;
        Vec3 { x, y, z }
    }

    pub fn dir(&self) -> (r: Vec3)
        ensures
            r == self.dir,
    {
        self.dir
    }

    pub fn origin(&self) -> (r: Vec3)
        ensures
            r == self.origin,
    {
        self.origin
    }
}

} // verus!
