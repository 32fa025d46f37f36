//! Random numbers, drawn from a generator of the `rand` crate.

use rand::rngs::SmallRng;
use rand::Rng;
use vstd::prelude::*;

verus! {

/// The small, fast generator of the `rand` crate. Nothing is said of its
/// state.
#[verifier::external_type_specification]
#[verifier::external_body]
pub struct ExSmallRng(SmallRng);

/// Draws a position below `n` with `rand::Rng::gen_range` on the range
/// `0..n`. That call panics on an empty range, so `n` must not be zero; of
/// the number it returns, only that it lies in the range is known.
#[verifier::external_body]
pub(crate) fn random_below(rng: &mut SmallRng, n: usize) -> (r: usize)
    requires
        n > 0,
    ensures
        r < n,
{
    rng.gen_range(0..n)
}

/// Draws 64 bits with `rand::Rng::gen`. Nothing is known of them.
#[verifier::external_body]
pub(crate) fn random_u64(rng: &mut SmallRng) -> (r: u64) {
    rng.gen()
}

} // verus!
