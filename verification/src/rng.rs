//! Randomness, drawn from an explicit `rand::rngs::StdRng` handed through
//! every sampling call, so renders are seedable and reproducible.
//!
//! The single trusted call into `rand` is `rand_below`; everything else is
//! verified arithmetic on top of it.

use vstd::prelude::*;
use rand::RngExt;
use rand::SeedableRng;

verus! {

#[verifier::external_type_specification]
#[verifier::external_body]
pub struct ExStdRng(rand::rngs::StdRng);

/// Relies on rand's `SeedableRng::seed_from_u64`, which builds a `StdRng`
/// from a 64-bit seed. Nothing is assumed about the stream it produces.
#[verifier::external_body]
pub(crate) fn new_rng(seed: u64) -> rand::rngs::StdRng {
    rand::rngs::StdRng::seed_from_u64(seed)
}

/// Relies on rand's `RngExt::random_range` over `0..n`: a draw from that
/// half-open range. The call panics on an empty range, hence `n >= 1`.
#[verifier::external_body]
pub(crate) fn rand_below(rng: &mut rand::rngs::StdRng, n: u64) -> (r: u64)
    requires
        n >= 1,
    ensures
        r < n,
{
    rng.random_range(0..n)
}

/// A uniform fixed-point draw from `[0, 1)`, the unit interval.
pub fn random_fraction(rng: &mut rand::rngs::StdRng) -> (r: i64)
    ensures
        0 <= r < crate::fixed::SCALE,
{
    let d: u64 = rand_below(rng, crate::fixed::SCALE as u64);
    d as i64
}

/// A uniform fixed-point draw from `[low, high)`.
pub fn random_in_range(rng: &mut rand::rngs::StdRng, low: i64, high: i64) -> (r: i64)
    requires
        low < high,
    ensures
        low <= r < high,
{
    let span: u64 = ((high as i128) - (low as i128)) as u64;
    let d: u64 = rand_below(rng, span);
    ((low as i128) + (d as i128)) as i64
}

} // verus!
