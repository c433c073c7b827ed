//! Angle helpers in fixed point: degree conversion and truncated power
//! series for sine and cosine on `[0, 2]` radians, enough for the camera's
//! half-field-of-view tangent.

use vstd::prelude::*;
use crate::fixed::{SCALE, tdiv, fmul, fxmul, lemma_mul_bound, lemma_tdiv_cap};

verus! {

/// The circle constant to the nearest millionth.
pub const PI_FIXED: i64 = 3_141_593;

/// `deg * pi / 180` in fixed point.
pub open spec fn spec_degrees_to_radians(deg: int) -> int {
    tdiv(deg * PI_FIXED, 180 * (SCALE as int))
}

pub fn degrees_to_radians(deg: i64) -> (r: i64)
    requires
        -1_000_000_000_000 <= deg <= 1_000_000_000_000,
    ensures
        r as int == spec_degrees_to_radians(deg as int),
{
    proof {
        lemma_mul_bound(deg as int, PI_FIXED as int, 1_000_000_000_000int, 3_141_593int);
        lemma_tdiv_cap(deg * PI_FIXED, 180_000_000int, 100_000_000_000_000_000int);
        assert(180 * (SCALE as int) == 180_000_000int);
    }
    (((deg as i128) * (PI_FIXED as i128)) / 180_000_000i128) as i64
}

/// The sine power series with six terms, evaluated in fixed point exactly
/// as `sin_fixed` computes it.
pub open spec fn sin_series(x: int) -> int {
    let x2 = fmul(x, x);
    let p3 = fmul(x2, x);
    let p5 = fmul(p3, x2);
    let p7 = fmul(p5, x2);
    let p9 = fmul(p7, x2);
    let p11 = fmul(p9, x2);
    x - tdiv(p3, 6) + tdiv(p5, 120) - tdiv(p7, 5040) + tdiv(p9, 362_880) - tdiv(
        p11,
        39_916_800,
    )
}

/// The cosine power series with six terms, evaluated in fixed point exactly
/// as `cos_fixed` computes it.
pub open spec fn cos_series(x: int) -> int {
    let x2 = fmul(x, x);
    let p4 = fmul(x2, x2);
    let p6 = fmul(p4, x2);
    let p8 = fmul(p6, x2);
    let p10 = fmul(p8, x2);
    SCALE - tdiv(x2, 2) + tdiv(p4, 24) - tdiv(p6, 720) + tdiv(p8, 40_320) - tdiv(
        p10,
        3_628_800,
    )
}

/// Sine by truncated power series; the argument stays within two radians.
pub fn sin_fixed(x: i64) -> (r: i64)
    requires
        0 <= x <= 2 * SCALE,
    ensures
        r as int == sin_series(x as int),
        -3000 * SCALE <= r <= 3000 * SCALE,
{
    proof {
        lemma_mul_bound(x as int, x as int, 2_000_000int, 2_000_000int);
        assert((x as int) * (x as int) >= 0) by (nonlinear_arith);
        lemma_tdiv_cap((x as int) * (x as int), SCALE as int, 4_000_000int);
    }
    let x2: i64 = fxmul(x, x);
    proof {
        lemma_mul_bound(x2 as int, x as int, 4_000_000int, 2_000_000int);
        lemma_tdiv_cap((x2 as int) * (x as int), SCALE as int, 8_000_000int);
    }
    let p3: i64 = fxmul(x2, x);
    proof {
        lemma_mul_bound(p3 as int, x2 as int, 8_000_000int, 4_000_000int);
        lemma_tdiv_cap((p3 as int) * (x2 as int), SCALE as int, 32_000_000int);
    }
    let p5: i64 = fxmul(p3, x2);
    proof {
        lemma_mul_bound(p5 as int, x2 as int, 32_000_000int, 4_000_000int);
        lemma_tdiv_cap((p5 as int) * (x2 as int), SCALE as int, 128_000_000int);
    }
    let p7: i64 = fxmul(p5, x2);
    proof {
        lemma_mul_bound(p7 as int, x2 as int, 128_000_000int, 4_000_000int);
        lemma_tdiv_cap((p7 as int) * (x2 as int), SCALE as int, 512_000_000int);
    }
    let p9: i64 = fxmul(p7, x2);
    proof {
        lemma_mul_bound(p9 as int, x2 as int, 512_000_000int, 4_000_000int);
        lemma_tdiv_cap((p9 as int) * (x2 as int), SCALE as int, 2_048_000_000int);
        lemma_tdiv_cap(p3 as int, 6int, 8_000_000int);
        lemma_tdiv_cap(p5 as int, 120int, 32_000_000int);
        lemma_tdiv_cap(p7 as int, 5040int, 128_000_000int);
        lemma_tdiv_cap(p9 as int, 362_880int, 512_000_000int);
    }
    let p11: i64 = fxmul(p9, x2);
    proof {
        lemma_tdiv_cap(p11 as int, 39_916_800int, 2_048_000_000int);
    }
    x - p3 / 6 + p5 / 120 - p7 / 5040 + p9 / 362_880 - p11 / 39_916_800
}

/// Cosine by truncated power series; the argument stays within two radians.
pub fn cos_fixed(x: i64) -> (r: i64)
    requires
        0 <= x <= 2 * SCALE,
    ensures
        r as int == cos_series(x as int),
        -3000 * SCALE <= r <= 3000 * SCALE,
{
    proof {
        lemma_mul_bound(x as int, x as int, 2_000_000int, 2_000_000int);
        assert((x as int) * (x as int) >= 0) by (nonlinear_arith);
        lemma_tdiv_cap((x as int) * (x as int), SCALE as int, 4_000_000int);
    }
    let x2: i64 = fxmul(x, x);
    proof {
        lemma_mul_bound(x2 as int, x2 as int, 4_000_000int, 4_000_000int);
        lemma_tdiv_cap((x2 as int) * (x2 as int), SCALE as int, 16_000_000int);
    }
    let p4: i64 = fxmul(x2, x2);
    proof {
        lemma_mul_bound(p4 as int, x2 as int, 16_000_000int, 4_000_000int);
        lemma_tdiv_cap((p4 as int) * (x2 as int), SCALE as int, 64_000_000int);
    }
    let p6: i64 = fxmul(p4, x2);
    proof {
        lemma_mul_bound(p6 as int, x2 as int, 64_000_000int, 4_000_000int);
        lemma_tdiv_cap((p6 as int) * (x2 as int), SCALE as int, 256_000_000int);
    }
    let p8: i64 = fxmul(p6, x2);
    proof {
        lemma_mul_bound(p8 as int, x2 as int, 256_000_000int, 4_000_000int);
        lemma_tdiv_cap((p8 as int) * (x2 as int), SCALE as int, 1_024_000_000int);
        lemma_tdiv_cap(x2 as int, 2int, 4_000_000int);
        lemma_tdiv_cap(p4 as int, 24int, 16_000_000int);
        lemma_tdiv_cap(p6 as int, 720int, 64_000_000int);
        lemma_tdiv_cap(p8 as int, 40_320int, 256_000_000int);
    }
    let p10: i64 = fxmul(p8, x2);
    proof {
        lemma_tdiv_cap(p10 as int, 3_628_800int, 1_024_000_000int);
    }
    SCALE - x2 / 2 + p4 / 24 - p6 / 720 + p8 / 40_320 - p10 / 3_628_800
}

} // verus!
