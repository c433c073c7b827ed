//! Fixed-point scalars: an `i64` counts millionths of a unit.
//!
//! `tdiv` is division truncated toward zero (the semantics of Rust's `/` on
//! signed integers), the form every derived quantity in this crate is stated
//! in. `isqrt_u128` is the integer square root that intersection,
//! normalization and gamma correction build on. The `*_LIMIT` constants are
//! the machine ranges inside which the renderer's arithmetic provably fits
//! in 64 bits; out-of-range intermediate results are rejected at run time by
//! the functions that could produce them, and every such rejection is stated
//! in the contract.

use vstd::prelude::*;
use vstd::arithmetic::div_mod::lemma_fundamental_div_mod;
use vstd::arithmetic::div_mod::lemma_div_is_ordered;
use vstd::arithmetic::div_mod::lemma_div_multiples_vanish;
use vstd::arithmetic::div_mod::lemma_div_pos_is_pos;
use vstd::arithmetic::div_mod::lemma_div_nonincreasing;

verus! {

/// Number of fixed-point steps in one unit.
pub const SCALE: i64 = 1_000_000;

/// Largest magnitude of a scene coordinate, sphere radius, or camera basis
/// component: ten thousand units.
pub const COORD_LIMIT: i64 = 10_000_000_000;

/// Largest magnitude of a ray origin component: a camera origin plus a lens
/// offset, or a guarded hit point, stays within twice `COORD_LIMIT`.
pub const ORIGIN_LIMIT: i64 = 20_000_000_000;

/// Largest magnitude of a ray direction component: the camera builds
/// directions out of at most seven `COORD_LIMIT`-bounded vectors.
pub const DIR_LIMIT: i64 = 70_000_000_000;

/// Largest magnitude accepted by the dot product, cross product and norm:
/// a million units, far above anything a ray or scene holds.
pub const DOT_LIMIT: i64 = 1_000_000_000_000;

/// Largest magnitude of a surface normal component: normals are near unit
/// length, and the hit test refuses records beyond two units.
pub const NORMAL_LIMIT: i64 = 2_000_000;

/// Largest magnitude of a reflected direction component: an incoming
/// direction within `DIR_LIMIT` mirrored about a bounded normal.
pub const REFLECT_LIMIT: i64 = 2_000_000_000_000;

/// The far end of every hit query made by the integrator: ten million
/// units stands in for an unbounded range, since hit points are refused
/// beyond `COORD_LIMIT` anyway.
pub const T_LIMIT: i64 = 10_000_000_000_000;

/// The near end of every hit query made by the integrator: a thousandth of
/// a unit, so a scattered ray cannot immediately re-hit its own surface.
pub const EPS_T: i64 = 1_000;

/// Division truncated toward zero, as Rust's `/` computes it on signed
/// integers. Unspecified for `b == 0`, like `/` itself.
pub open spec fn tdiv(a: int, b: int) -> int {
    if a >= 0 {
        a / b
    } else {
        -((-a) / b)
    }
}

/// The product of two fixed-point scalars, scaled back to fixed point.
pub open spec fn fmul(a: int, b: int) -> int {
    tdiv(a * b, SCALE as int)
}

/// Largest `r >= 0` with `r * r <= n`; meaningful for `n >= 0` only.
pub open spec fn sqrt_floor(n: int) -> int {
    choose|r: int| 0 <= r && #[trigger] (r * r) <= n < (r + 1) * (r + 1)
}

/// Any integer in `[0, n]` whose square does not exceed `n` while the next
/// square does is the floor square root.
pub proof fn lemma_sqrt_floor_unique(n: int, r: int)
    requires
        0 <= r,
        r * r <= n,
        n < (r + 1) * (r + 1),
    ensures
        sqrt_floor(n) == r,
{
    assert(exists|q: int| 0 <= q && #[trigger] (q * q) <= n < (q + 1) * (q + 1)) by {
        assert(0 <= r && r * r <= n < (r + 1) * (r + 1));
    }
    let q = sqrt_floor(n);
    assert(0 <= q && q * q <= n < (q + 1) * (q + 1));
    if q < r {
        assert((q + 1) * (q + 1) <= r * r) by (nonlinear_arith)
            requires 0 <= q, q < r;
    }
    if r < q {
        assert((r + 1) * (r + 1) <= q * q) by (nonlinear_arith)
            requires 0 <= r, r < q;
    }
}

/// The floor square root of any nonnegative integer exists and is what
/// `sqrt_floor` picks: its square does not exceed the input while the next
/// square does.
pub proof fn lemma_sqrt_floor_props(m: int)
    requires
        0 <= m,
    ensures
        0 <= sqrt_floor(m),
        sqrt_floor(m) * sqrt_floor(m) <= m,
        m < (sqrt_floor(m) + 1) * (sqrt_floor(m) + 1),
    decreases m,
{
    if m == 0 {
        assert(0 <= 0int && #[trigger] (0int * 0int) <= m < (0int + 1) * (0int + 1));
    } else {
        lemma_sqrt_floor_props(m - 1);
        let r0 = sqrt_floor(m - 1);
        if (r0 + 1) * (r0 + 1) <= m {
            assert(m == (r0 + 1) * (r0 + 1));
            assert(((r0 + 1) + 1) * ((r0 + 1) + 1) > m) by (nonlinear_arith)
                requires m == (r0 + 1) * (r0 + 1), r0 >= 0;
            assert(0 <= r0 + 1 && #[trigger] ((r0 + 1) * (r0 + 1)) <= m
                < ((r0 + 1) + 1) * ((r0 + 1) + 1));
        } else {
            assert(0 <= r0 && #[trigger] (r0 * r0) <= m < (r0 + 1) * (r0 + 1));
        }
    }
}

/// The product of the truncated quotient and the divisor lands within one
/// divisor of the dividend, on either side of zero.
pub proof fn lemma_tdiv_near(a: int, b: int)
    requires
        b >= 1,
    ensures
        a - (b - 1) <= tdiv(a, b) * b <= a + (b - 1),
{
    if a >= 0 {
        lemma_fundamental_div_mod(a, b);
        assert(tdiv(a, b) * b == b * (a / b)) by (nonlinear_arith)
            requires tdiv(a, b) == a / b;
    } else {
        lemma_fundamental_div_mod(-a, b);
        assert(tdiv(a, b) * b == -(b * ((-a) / b))) by (nonlinear_arith)
            requires tdiv(a, b) == -((-a) / b);
    }
}

/// Nearby numbers have nearby squares: a difference of at most `e` around
/// a value of magnitude at most `m` moves the square by at most
/// `e * (2m + e)`.
pub proof fn lemma_sq_close(x: int, y: int, e: int, m: int)
    requires
        0 <= e,
        -e <= x - y <= e,
        -m <= y <= m,
        0 <= m,
    ensures
        y * y - e * (2 * m + e) <= x * x <= y * y + e * (2 * m + e),
{
    let d = x - y;
    assert(x * x == y * y + 2 * y * d + d * d) by (nonlinear_arith)
        requires d == x - y;
    assert(-(2 * m * e) <= 2 * y * d <= 2 * m * e) by (nonlinear_arith)
        requires -m <= y <= m, -e <= d <= e, 0 <= m, 0 <= e;
    assert(0 <= d * d <= e * e) by (nonlinear_arith)
        requires -e <= d <= e, 0 <= e;
    assert(e * (2 * m + e) == 2 * m * e + e * e) by (nonlinear_arith);
}

/// Magnitudes bound a product: `|a| <= x` and `|b| <= y` give `|a*b| <= x*y`.
pub proof fn lemma_mul_bound(a: int, b: int, x: int, y: int)
    requires
        -x <= a <= x,
        -y <= b <= y,
    ensures
        -(x * y) <= a * b <= x * y,
{
    assert(-(x * y) <= a * b <= x * y) by (nonlinear_arith)
        requires -x <= a <= x, -y <= b <= y;
}

/// Truncated division by a positive divisor keeps the sign of the dividend
/// and can only shrink its magnitude in units of the divisor:
/// `|a| <= m * b` caps the quotient at `m`.
pub proof fn lemma_tdiv_cap(a: int, b: int, m: int)
    requires
        b >= 1,
        0 <= m,
        -(m * b) <= a <= m * b,
    ensures
        -m <= tdiv(a, b) <= m,
        a >= 0 ==> 0 <= tdiv(a, b) <= a,
        a <= 0 ==> a <= tdiv(a, b) <= 0,
{
    assert(m * b == b * m) by (nonlinear_arith);
    if a >= 0 {
        lemma_div_is_ordered(a, b * m, b);
        lemma_div_multiples_vanish(m, b);
        lemma_div_pos_is_pos(a, b);
        lemma_div_nonincreasing(a, b);
    } else {
        lemma_div_is_ordered(-a, b * m, b);
        lemma_div_multiples_vanish(m, b);
        lemma_div_pos_is_pos(-a, b);
        lemma_div_nonincreasing(-a, b);
    }
}

/// A quotient is at least `m` once the dividend reaches `m` divisors.
pub proof fn lemma_tdiv_lower(a: int, b: int, m: int)
    requires
        b >= 1,
        0 <= m,
        m * b <= a,
    ensures
        tdiv(a, b) >= m,
{
    assert(m * b == b * m) by (nonlinear_arith);
    assert(m * b >= 0) by (nonlinear_arith)
        requires m >= 0, b >= 1;
    lemma_div_is_ordered(b * m, a, b);
    lemma_div_multiples_vanish(m, b);
}

/// Fixed-point product of two scalars, truncated toward zero.
pub fn fxmul(a: i64, b: i64) -> (r: i64)
    requires
        -((i64::MAX as int) * (SCALE as int)) <= (a as int) * (b as int)
            <= (i64::MAX as int) * (SCALE as int),
    ensures
        r as int == fmul(a as int, b as int),
{
    let p: i128 = (a as i128) * (b as i128);
    let q: i128 = p / (SCALE as i128);
    proof {
        lemma_tdiv_cap(p as int, SCALE as int, i64::MAX as int);
    }
    q as i64
}

/// `x` forced into `[min, max]`, `min` checked first as the output
/// clamping of the encoder expects.
pub fn clamp(x: i64, min: i64, max: i64) -> (r: i64)
    ensures
        r == if x < min { min as int } else if x > max { max as int } else { x as int },
{
    if x < min {
        return min;
    }
    if x > max {
        return max;
    }
    x
}

/// Floor square root of a 128-bit integer by bisection.
pub fn isqrt_u128(n: u128) -> (r: u64)
    ensures
        r * r <= n < (r + 1) * (r + 1),
        r == sqrt_floor(n as int),
{
    let mut lo: u64 = 0;
    let mut hi: u64 = u64::MAX;
    if n >= 0xffff_ffff_ffff_fffe_0000_0000_0000_0001u128 {
        // Past the square of u64::MAX only that top root fits.
        proof {
            assert((u64::MAX as int) * (u64::MAX as int)
                == 0xffff_ffff_ffff_fffe_0000_0000_0000_0001int);
            assert(((u64::MAX as int) + 1) * ((u64::MAX as int) + 1)
                == 0x1_0000_0000_0000_0000_0000_0000_0000_0000int);
            assert(n < 0x1_0000_0000_0000_0000_0000_0000_0000_0000int);
            lemma_sqrt_floor_unique(n as int, u64::MAX as int);
        }
        return u64::MAX;
    }
    proof {
        assert((u64::MAX as int) * (u64::MAX as int)
            == 0xffff_ffff_ffff_fffe_0000_0000_0000_0001int);
    }
    hi = u64::MAX - 1;
    while lo < hi
        invariant
            (lo as int) * (lo as int) <= n as int,
            (n as int) < ((hi as int) + 1) * ((hi as int) + 1),
            lo <= hi,
            hi <= u64::MAX - 1,
        decreases hi - lo,
    {
        let mid: u64 = lo + (hi - lo + 1) / 2;
        proof {
            lemma_mul_bound(mid as int, mid as int, u64::MAX as int, u64::MAX as int);
        }
        let sq: u128 = (mid as u128) * (mid as u128);
        if sq <= n {
            lo = mid;
        } else {
            hi = mid - 1;
        }
    }
    proof {
        lemma_sqrt_floor_unique(n as int, lo as int);
    }
    lo
}

} // verus!
