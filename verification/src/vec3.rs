//! Three-component fixed-point vectors, used for points, directions and
//! colors alike. Every operation's contract gives the exact integer value
//! of each result component.

use vstd::prelude::*;
use crate::fixed::{SCALE, DOT_LIMIT, DIR_LIMIT, NORMAL_LIMIT, REFLECT_LIMIT};
use crate::fixed::{tdiv, fmul, sqrt_floor, fxmul, isqrt_u128};
use crate::fixed::{
    lemma_mul_bound, lemma_tdiv_cap, lemma_tdiv_near, lemma_sq_close, lemma_sqrt_floor_props,
};
use crate::rng::random_in_range;

verus! {

#[derive(Clone, Copy, PartialEq, Eq, Structural, Debug)]
pub struct Vec3 {
    pub x: i64,
    pub y: i64,
    pub z: i64,
}

/// Every component of `v` has magnitude at most `m`.
pub open spec fn in_bound(v: Vec3, m: int) -> bool {
    &&& -m <= v.x <= m
    &&& -m <= v.y <= m
    &&& -m <= v.z <= m
}

/// The fixed-point dot product: the raw products are summed first and
/// scaled back once, so only one truncation happens.
pub open spec fn dotv(a: Vec3, b: Vec3) -> int {
    tdiv(a.x * b.x + a.y * b.y + a.z * b.z, SCALE as int)
}

/// The raw sum of squared components; `v`'s length in fixed point is its
/// floor square root, since the two scale factors cancel.
pub open spec fn sq_sum(v: Vec3) -> int {
    v.x * v.x + v.y * v.y + v.z * v.z
}

/// The fixed-point length of `v`.
pub open spec fn norm_of(v: Vec3) -> int {
    sqrt_floor(sq_sum(v))
}

/// The component-wise negation of `v`, faithful for in-range components.
pub open spec fn negv(v: Vec3) -> Vec3 {
    Vec3 { x: (-(v.x as int)) as i64, y: (-(v.y as int)) as i64, z: (-(v.z as int)) as i64 }
}

/// The mirror of `v` about the plane normal to `n`:
/// `v - 2 * dot(v, n) * n`, component by component in fixed point.
pub open spec fn reflectv(v: Vec3, n: Vec3) -> Vec3 {
    Vec3 {
        x: (v.x - tdiv(2 * dotv(v, n) * n.x, SCALE as int)) as i64,
        y: (v.y - tdiv(2 * dotv(v, n) * n.y, SCALE as int)) as i64,
        z: (v.z - tdiv(2 * dotv(v, n) * n.z, SCALE as int)) as i64,
    }
}

/// `v` scaled to unit length; meaningful when `sq_sum(v) >= 1`.
pub open spec fn normalizev(v: Vec3) -> Vec3 {
    Vec3 {
        x: tdiv(v.x * SCALE, norm_of(v)) as i64,
        y: tdiv(v.y * SCALE, norm_of(v)) as i64,
        z: tdiv(v.z * SCALE, norm_of(v)) as i64,
    }
}

/// One scaled component of a normalization: the truncated quotient
/// `q = (c * 1e6) / n` stays within one unit, and `q^2 * n^2` sits within
/// about `2 n^2` millionths of `c^2` scaled by `1e12`.
proof fn lemma_component_scaled(c: int, n: int)
    requires
        n >= 1,
        -n <= c <= n,
    ensures
        -1_000_000 <= tdiv(c * 1_000_000, n) <= 1_000_000,
        1_000_000_000_000 * (c * c) - 2_000_001 * (n * n)
            <= (tdiv(c * 1_000_000, n) * tdiv(c * 1_000_000, n)) * (n * n),
        (tdiv(c * 1_000_000, n) * tdiv(c * 1_000_000, n)) * (n * n)
            <= 1_000_000_000_000 * (c * c) + 2_000_001 * (n * n),
{
    let q = tdiv(c * 1_000_000, n);
    assert(-(1_000_000 * n) <= c * 1_000_000 <= 1_000_000 * n) by (nonlinear_arith)
        requires -n <= c <= n;
    lemma_tdiv_cap(c * 1_000_000, n, 1_000_000);
    lemma_tdiv_near(c * 1_000_000, n);
    lemma_sq_close(q * n, c * 1_000_000, n - 1, 1_000_000 * n);
    assert((n - 1) * (2 * (1_000_000 * n) + (n - 1)) <= 2_000_001 * (n * n)) by (nonlinear_arith)
        requires n >= 1;
    assert(0 <= (n - 1) * (2 * (1_000_000 * n) + (n - 1))) by (nonlinear_arith)
        requires n >= 1;
    assert((q * n) * (q * n) == (q * q) * (n * n)) by (nonlinear_arith);
    assert((c * 1_000_000) * (c * 1_000_000) == 1_000_000_000_000 * (c * c)) by (nonlinear_arith);
}

/// Normalization yields unit length up to quantization: for every vector
/// of length at least one unit, the fixed-point length of its normalized
/// form lies within four millionths of one.
pub proof fn lemma_normalize_near_unit(v: Vec3)
    requires
        in_bound(v, DOT_LIMIT as int),
        sq_sum(v) >= 1_000_000_000_000,
    ensures
        SCALE - 4 <= norm_of(normalizev(v)) <= SCALE + 4,
{
    let ss = sq_sum(v);
    assert(v.x * v.x >= 0) by (nonlinear_arith);
    assert(v.y * v.y >= 0) by (nonlinear_arith);
    assert(v.z * v.z >= 0) by (nonlinear_arith);
    lemma_sqrt_floor_props(ss);
    let n = norm_of(v);
    assert(n >= 1_000_000) by (nonlinear_arith)
        requires n >= 0, ss < (n + 1) * (n + 1), ss >= 1_000_000_000_000;
    assert(-n <= v.x <= n) by (nonlinear_arith)
        requires v.x * v.x <= ss, ss < (n + 1) * (n + 1), n >= 0;
    assert(-n <= v.y <= n) by (nonlinear_arith)
        requires v.y * v.y <= ss, ss < (n + 1) * (n + 1), n >= 0;
    assert(-n <= v.z <= n) by (nonlinear_arith)
        requires v.z * v.z <= ss, ss < (n + 1) * (n + 1), n >= 0;
    lemma_component_scaled(v.x as int, n);
    lemma_component_scaled(v.y as int, n);
    lemma_component_scaled(v.z as int, n);
    let qx = tdiv(v.x * 1_000_000, n);
    let qy = tdiv(v.y * 1_000_000, n);
    let qz = tdiv(v.z * 1_000_000, n);
    let sq = qx * qx + qy * qy + qz * qz;
    assert((qx * qx) * (n * n) + (qy * qy) * (n * n) + (qz * qz) * (n * n) == sq * (n * n))
        by (nonlinear_arith)
        requires sq == qx * qx + qy * qy + qz * qz;
    assert(2_000_000_000_000 * n <= 2_000_000 * (n * n)) by (nonlinear_arith)
        requires n >= 1_000_000;
    assert(1_000_000_000_000 <= n * n) by (nonlinear_arith)
        requires n >= 1_000_000;
    assert((n + 1) * (n + 1) == n * n + 2 * n + 1) by (nonlinear_arith);
    assert(999_993_999_997 * (n * n) <= sq * (n * n));
    assert(sq * (n * n) <= 1_000_008_000_004 * (n * n));
    assert(999_993_999_997 <= sq) by (nonlinear_arith)
        requires 999_993_999_997 * (n * n) <= sq * (n * n), n * n >= 1;
    assert(sq <= 1_000_008_000_004) by (nonlinear_arith)
        requires sq * (n * n) <= 1_000_008_000_004 * (n * n), n * n >= 1;
    assert(sq_sum(normalizev(v)) == sq);
    lemma_sqrt_floor_props(sq);
    let r = norm_of(normalizev(v));
    assert(r >= 999_996) by (nonlinear_arith)
        requires r >= 0, sq < (r + 1) * (r + 1), sq >= 999_993_999_997;
    assert(r <= 1_000_004) by (nonlinear_arith)
        requires r >= 0, r * r <= sq, sq <= 1_000_008_000_004;
}

impl Vec3 {
    /// The zero vector.
    pub fn origin() -> (r: Vec3)
        ensures
            r.x == 0 && r.y == 0 && r.z == 0,
    {
        Vec3 { x: 0, y: 0, z: 0 }
    }

    pub fn new(x: i64, y: i64, z: i64) -> (r: Vec3)
        ensures
            r.x == x && r.y == y && r.z == z,
    {
        Vec3 { x, y, z }
    }

    pub fn x(&self) -> (r: i64)
        ensures
            r == self.x,
    {
        self.x
    }

    pub fn y(&self) -> (r: i64)
        ensures
            r == self.y,
    {
        self.y
    }

    pub fn z(&self) -> (r: i64)
        ensures
            r == self.z,
    {
        self.z
    }

    pub fn add(&self, other: &Vec3) -> (r: Vec3)
        requires
            i64::MIN <= self.x + other.x <= i64::MAX,
            i64::MIN <= self.y + other.y <= i64::MAX,
            i64::MIN <= self.z + other.z <= i64::MAX,
        ensures
            r.x == self.x + other.x,
            r.y == self.y + other.y,
            r.z == self.z + other.z,
    {
        Vec3 { x: self.x + other.x, y: self.y + other.y, z: self.z + other.z }
    }

    pub fn sub(&self, other: &Vec3) -> (r: Vec3)
        requires
            i64::MIN <= self.x - other.x <= i64::MAX,
            i64::MIN <= self.y - other.y <= i64::MAX,
            i64::MIN <= self.z - other.z <= i64::MAX,
        ensures
            r.x == self.x - other.x,
            r.y == self.y - other.y,
            r.z == self.z - other.z,
    {
        Vec3 { x: self.x - other.x, y: self.y - other.y, z: self.z - other.z }
    }

    pub fn neg(&self) -> (r: Vec3)
        requires
            self.x > i64::MIN,
            self.y > i64::MIN,
            self.z > i64::MIN,
        ensures
            r.x == -self.x,
            r.y == -self.y,
            r.z == -self.z,
    {
        Vec3 { x: -self.x, y: -self.y, z: -self.z }
    }

    /// Scale by a fixed-point factor `k`.
    pub fn scale(&self, k: i64) -> (r: Vec3)
        requires
            -((i64::MAX as int) * (SCALE as int)) <= self.x * k <= (i64::MAX as int) * (SCALE as int),
            -((i64::MAX as int) * (SCALE as int)) <= self.y * k <= (i64::MAX as int) * (SCALE as int),
            -((i64::MAX as int) * (SCALE as int)) <= self.z * k <= (i64::MAX as int) * (SCALE as int),
        ensures
            r.x as int == fmul(self.x as int, k as int),
            r.y as int == fmul(self.y as int, k as int),
            r.z as int == fmul(self.z as int, k as int),
    {
        Vec3 { x: fxmul(self.x, k), y: fxmul(self.y, k), z: fxmul(self.z, k) }
    }

    /// Component-wise product, the color-tinting multiply.
    pub fn mul(&self, other: &Vec3) -> (r: Vec3)
        requires
            -((i64::MAX as int) * (SCALE as int)) <= self.x * other.x <= (i64::MAX as int) * (SCALE as int),
            -((i64::MAX as int) * (SCALE as int)) <= self.y * other.y <= (i64::MAX as int) * (SCALE as int),
            -((i64::MAX as int) * (SCALE as int)) <= self.z * other.z <= (i64::MAX as int) * (SCALE as int),
        ensures
            r.x as int == fmul(self.x as int, other.x as int),
            r.y as int == fmul(self.y as int, other.y as int),
            r.z as int == fmul(self.z as int, other.z as int),
    {
        Vec3 { x: fxmul(self.x, other.x), y: fxmul(self.y, other.y), z: fxmul(self.z, other.z) }
    }

    /// Divide by a positive fixed-point scalar `k`.
    pub fn div(&self, k: i64) -> (r: Vec3)
        requires
            k >= 1,
            in_bound(*self, DOT_LIMIT as int),
        ensures
            r.x as int == tdiv(self.x * SCALE, k as int),
            r.y as int == tdiv(self.y * SCALE, k as int),
            r.z as int == tdiv(self.z * SCALE, k as int),
    {
        proof {
            assert((i64::MAX as int) * (k as int) >= i64::MAX as int) by (nonlinear_arith)
                requires k >= 1;
            lemma_tdiv_cap(self.x * SCALE, k as int, i64::MAX as int);
            lemma_tdiv_cap(self.y * SCALE, k as int, i64::MAX as int);
            lemma_tdiv_cap(self.z * SCALE, k as int, i64::MAX as int);
        }
        let x: i64 = (((self.x as i128) * (SCALE as i128)) / (k as i128)) as i64;
        let y: i64 = (((self.y as i128) * (SCALE as i128)) / (k as i128)) as i64;
        let z: i64 = (((self.z as i128) * (SCALE as i128)) / (k as i128)) as i64;
        Vec3 { x, y, z }
    }

    pub fn dot(&self, other: &Vec3) -> (r: i64)
        requires
            in_bound(*self, DOT_LIMIT as int),
            in_bound(*other, DOT_LIMIT as int),
        ensures
            r as int == dotv(*self, *other),
    {
        proof {
            lemma_mul_bound(self.x as int, other.x as int, DOT_LIMIT as int, DOT_LIMIT as int);
            lemma_mul_bound(self.y as int, other.y as int, DOT_LIMIT as int, DOT_LIMIT as int);
            lemma_mul_bound(self.z as int, other.z as int, DOT_LIMIT as int, DOT_LIMIT as int);
            lemma_tdiv_cap(
                self.x * other.x + self.y * other.y + self.z * other.z,
                SCALE as int,
                i64::MAX as int,
            );
        }
        let s: i128 = (self.x as i128) * (other.x as i128)
            + (self.y as i128) * (other.y as i128)
            + (self.z as i128) * (other.z as i128);
        (s / (SCALE as i128)) as i64
    }

    pub fn cross(&self, other: &Vec3) -> (r: Vec3)
        requires
            in_bound(*self, DOT_LIMIT as int),
            in_bound(*other, DOT_LIMIT as int),
        ensures
            r.x as int == tdiv(self.y * other.z - self.z * other.y, SCALE as int),
            r.y as int == tdiv(self.z * other.x - self.x * other.z, SCALE as int),
            r.z as int == tdiv(self.x * other.y - self.y * other.x, SCALE as int),
    {
        proof {
            lemma_mul_bound(self.y as int, other.z as int, DOT_LIMIT as int, DOT_LIMIT as int);
            lemma_mul_bound(self.z as int, other.y as int, DOT_LIMIT as int, DOT_LIMIT as int);
            lemma_mul_bound(self.z as int, other.x as int, DOT_LIMIT as int, DOT_LIMIT as int);
            lemma_mul_bound(self.x as int, other.z as int, DOT_LIMIT as int, DOT_LIMIT as int);
            lemma_mul_bound(self.x as int, other.y as int, DOT_LIMIT as int, DOT_LIMIT as int);
            lemma_mul_bound(self.y as int, other.x as int, DOT_LIMIT as int, DOT_LIMIT as int);
            lemma_tdiv_cap(self.y * other.z - self.z * other.y, SCALE as int, i64::MAX as int);
            lemma_tdiv_cap(self.z * other.x - self.x * other.z, SCALE as int, i64::MAX as int);
            lemma_tdiv_cap(self.x * other.y - self.y * other.x, SCALE as int, i64::MAX as int);
        }
        let x: i64 = (((self.y as i128) * (other.z as i128) - (self.z as i128) * (other.y as i128))
            / (SCALE as i128)) as i64;
        let y: i64 = (((self.z as i128) * (other.x as i128) - (self.x as i128) * (other.z as i128))
            / (SCALE as i128)) as i64;
        let z: i64 = (((self.x as i128) * (other.y as i128) - (self.y as i128) * (other.x as i128))
            / (SCALE as i128)) as i64;
        Vec3 { x, y, z }
    }

    pub fn squared_norm(&self) -> (r: i64)
        requires
            in_bound(*self, DOT_LIMIT as int),
        ensures
            r as int == dotv(*self, *self),
            r >= 0,
    {
        proof {
            lemma_mul_bound(self.x as int, self.x as int, DOT_LIMIT as int, DOT_LIMIT as int);
            lemma_mul_bound(self.y as int, self.y as int, DOT_LIMIT as int, DOT_LIMIT as int);
            lemma_mul_bound(self.z as int, self.z as int, DOT_LIMIT as int, DOT_LIMIT as int);
            assert(self.x * self.x >= 0) by (nonlinear_arith);
            assert(self.y * self.y >= 0) by (nonlinear_arith);
            assert(self.z * self.z >= 0) by (nonlinear_arith);
            lemma_tdiv_cap(sq_sum(*self), SCALE as int, i64::MAX as int);
        }
        self.dot(self)
    }

    /// Fixed-point length, computed from the raw sum of squares so the whole
    /// quantum of precision is kept.
    pub fn norm(&self) -> (r: i64)
        requires
            in_bound(*self, DOT_LIMIT as int),
        ensures
            r as int == norm_of(*self),
            r >= 0,
            r * r <= sq_sum(*self) < (r + 1) * (r + 1),
    {
        proof {
            lemma_mul_bound(self.x as int, self.x as int, DOT_LIMIT as int, DOT_LIMIT as int);
            lemma_mul_bound(self.y as int, self.y as int, DOT_LIMIT as int, DOT_LIMIT as int);
            lemma_mul_bound(self.z as int, self.z as int, DOT_LIMIT as int, DOT_LIMIT as int);
            assert(self.x * self.x >= 0) by (nonlinear_arith);
            assert(self.y * self.y >= 0) by (nonlinear_arith);
            assert(self.z * self.z >= 0) by (nonlinear_arith);
        }
        let s: u128 = ((self.x as i128) * (self.x as i128)
            + (self.y as i128) * (self.y as i128)
            + (self.z as i128) * (self.z as i128)) as u128;
        let r0: u64 = isqrt_u128(s);
        proof {
            if r0 as int > i64::MAX as int {
                assert((r0 as int) * (r0 as int) > (i64::MAX as int) * (i64::MAX as int))
                    by (nonlinear_arith)
                    requires r0 as int > i64::MAX as int, i64::MAX as int >= 0;
            }
        }
        r0 as i64
    }

    /// Scale to unit length. Demands a vector that is not all zero; the
    /// result's components never exceed one unit in magnitude.
    pub fn normalize(&self) -> (r: Vec3)
        requires
            in_bound(*self, DOT_LIMIT as int),
            sq_sum(*self) >= 1,
        ensures
            r == normalizev(*self),
            r.x as int == tdiv(self.x * SCALE, norm_of(*self)),
            r.y as int == tdiv(self.y * SCALE, norm_of(*self)),
            r.z as int == tdiv(self.z * SCALE, norm_of(*self)),
            in_bound(r, SCALE as int),
    {
        let n: i64 = self.norm();
        proof {
            assert(n >= 1) by (nonlinear_arith)
                requires
                    (n as int) * (n as int) <= sq_sum(*self),
                    sq_sum(*self) < ((n as int) + 1) * ((n as int) + 1),
                    sq_sum(*self) >= 1,
                    n >= 0;
            assert(-(n as int) <= self.x as int <= n as int) by (nonlinear_arith)
                requires
                    (n as int) * (n as int) <= sq_sum(*self) < ((n as int) + 1) * ((n as int) + 1),
                    n >= 1,
                    sq_sum(*self) == self.x * self.x + self.y * self.y + self.z * self.z;
            assert(-(n as int) <= self.y as int <= n as int) by (nonlinear_arith)
                requires
                    (n as int) * (n as int) <= sq_sum(*self) < ((n as int) + 1) * ((n as int) + 1),
                    n >= 1,
                    sq_sum(*self) == self.x * self.x + self.y * self.y + self.z * self.z;
            assert(-(n as int) <= self.z as int <= n as int) by (nonlinear_arith)
                requires
                    (n as int) * (n as int) <= sq_sum(*self) < ((n as int) + 1) * ((n as int) + 1),
                    n >= 1,
                    sq_sum(*self) == self.x * self.x + self.y * self.y + self.z * self.z;
            assert(-((SCALE as int) * (n as int)) <= self.x * SCALE <= (SCALE as int) * (n as int))
                by (nonlinear_arith)
                requires -(n as int) <= self.x as int <= n as int, SCALE as int > 0;
            assert(-((SCALE as int) * (n as int)) <= self.y * SCALE <= (SCALE as int) * (n as int))
                by (nonlinear_arith)
                requires -(n as int) <= self.y as int <= n as int, SCALE as int > 0;
            assert(-((SCALE as int) * (n as int)) <= self.z * SCALE <= (SCALE as int) * (n as int))
                by (nonlinear_arith)
                requires -(n as int) <= self.z as int <= n as int, SCALE as int > 0;
            lemma_tdiv_cap(self.x * SCALE, n as int, SCALE as int);
            lemma_tdiv_cap(self.y * SCALE, n as int, SCALE as int);
            lemma_tdiv_cap(self.z * SCALE, n as int, SCALE as int);
        }
        let x: i64 = (((self.x as i128) * (SCALE as i128)) / (n as i128)) as i64;
        let y: i64 = (((self.y as i128) * (SCALE as i128)) / (n as i128)) as i64;
        let z: i64 = (((self.z as i128) * (SCALE as i128)) / (n as i128)) as i64;
        Vec3 { x, y, z }
    }

    /// True when every component is below the conventional `1e-8`
    /// threshold, which in fixed point means exactly zero.
    pub fn near_zero(&self) -> (r: bool)
        ensures
            r == (self.x == 0 && self.y == 0 && self.z == 0),
    {
        self.x == 0 && self.y == 0 && self.z == 0
    }

    /// A vector whose components are independent uniform draws from
    /// `[min, max)`.
    pub fn random(rng: &mut rand::rngs::StdRng, min: i64, max: i64) -> (r: Vec3)
        requires
            min < max,
        ensures
            min <= r.x < max,
            min <= r.y < max,
            min <= r.z < max,
    {
        let x: i64 = random_in_range(rng, min, max);
        let y: i64 = random_in_range(rng, min, max);
        let z: i64 = random_in_range(rng, min, max);
        Vec3 { x, y, z }
    }

    /// Rejection sampling: uniform draws from the cube `[-1, 1)^3` until one
    /// falls strictly inside the unit sphere. The all-zero draw is rejected
    /// along with the out-of-sphere ones, so the result can always be
    /// normalized. The step bound exists only to satisfy the termination
    /// checker; with acceptance odds above one half it is beyond any
    /// physical run, and the fallback is itself a valid in-sphere vector.
    pub fn random_in_unit_sphere(rng: &mut rand::rngs::StdRng) -> (r: Vec3)
        ensures
            in_bound(r, SCALE as int),
            dotv(r, r) < SCALE,
            1 <= sq_sum(r),
    {
        let mut fuel: u64 = u64::MAX;
        while fuel > 0
            decreases fuel,
        {
            fuel = fuel - 1;
            let p: Vec3 = Vec3::random(rng, -SCALE, SCALE);
            let s: i64 = p.squared_norm();
            if !p.near_zero() && s < SCALE {
                proof {
                    assert(1 <= sq_sum(p)) by (nonlinear_arith)
                        requires !(p.x == 0 && p.y == 0 && p.z == 0);
                }
                return p;
            }
        }
        let p: Vec3 = Vec3 { x: 500_000, y: 0, z: 0 };
        proof {
            assert(500_000int * 500_000int == 250_000_000_000int) by (nonlinear_arith);
            assert(sq_sum(p) == 250_000_000_000int);
            assert(dotv(p, p) == 250_000int);
        }
        p
    }

    /// A random direction of unit length.
    pub fn random_unit_vector(rng: &mut rand::rngs::StdRng) -> (r: Vec3)
        ensures
            in_bound(r, SCALE as int),
    {
        let p: Vec3 = Vec3::random_in_unit_sphere(rng);
        p.normalize()
    }

    /// Rejection sampling restricted to the `z = 0` plane, for lens offsets.
    /// The step bound and fallback are as in `random_in_unit_sphere`.
    pub fn random_in_unit_disk(rng: &mut rand::rngs::StdRng) -> (r: Vec3)
        ensures
            in_bound(r, SCALE as int),
            dotv(r, r) < SCALE,
            r.z == 0,
    {
        let mut fuel: u64 = u64::MAX;
        while fuel > 0
            decreases fuel,
        {
            fuel = fuel - 1;
            let x: i64 = random_in_range(rng, -SCALE, SCALE);
            let y: i64 = random_in_range(rng, -SCALE, SCALE);
            let p: Vec3 = Vec3 { x, y, z: 0 };
            let s: i64 = p.squared_norm();
            if s < SCALE {
                return p;
            }
        }
        let p: Vec3 = Vec3 { x: 0, y: 0, z: 0 };
        proof {
            assert(dotv(p, p) == 0int);
        }
        p
    }

    /// Mirror about the plane normal to `n`.
    pub fn reflect(&self, n: &Vec3) -> (r: Vec3)
        requires
            in_bound(*self, DIR_LIMIT as int),
            in_bound(*n, NORMAL_LIMIT as int),
        ensures
            r == reflectv(*self, *n),
            in_bound(r, REFLECT_LIMIT as int),
    {
        let d: i64 = self.dot(n);
        proof {
            lemma_mul_bound(self.x as int, n.x as int, DIR_LIMIT as int, NORMAL_LIMIT as int);
            lemma_mul_bound(self.y as int, n.y as int, DIR_LIMIT as int, NORMAL_LIMIT as int);
            lemma_mul_bound(self.z as int, n.z as int, DIR_LIMIT as int, NORMAL_LIMIT as int);
            lemma_tdiv_cap(
                self.x * n.x + self.y * n.y + self.z * n.z,
                SCALE as int,
                420_000_000_000int,
            );
            lemma_mul_bound(2 * (d as int), n.x as int, 840_000_000_000int, NORMAL_LIMIT as int);
            lemma_mul_bound(2 * (d as int), n.y as int, 840_000_000_000int, NORMAL_LIMIT as int);
            lemma_mul_bound(2 * (d as int), n.z as int, 840_000_000_000int, NORMAL_LIMIT as int);
            lemma_tdiv_cap(2 * (d as int) * (n.x as int), SCALE as int, 1_700_000_000_000int);
            lemma_tdiv_cap(2 * (d as int) * (n.y as int), SCALE as int, 1_700_000_000_000int);
            lemma_tdiv_cap(2 * (d as int) * (n.z as int), SCALE as int, 1_700_000_000_000int);
        }
        let x: i64 = (self.x as i128 - 2 * (d as i128) * (n.x as i128) / (SCALE as i128)) as i64;
        let y: i64 = (self.y as i128 - 2 * (d as i128) * (n.y as i128) / (SCALE as i128)) as i64;
        let z: i64 = (self.z as i128 - 2 * (d as i128) * (n.z as i128) / (SCALE as i128)) as i64;
        Vec3 { x, y, z }
    }
}

} // verus!
