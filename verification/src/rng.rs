//! Random draws, taken from the seeded generator of the `rand` crate.
//!
//! Nothing here states which value a draw gives: only the range it lies in,
//! which holds of every outcome.

use rand::rngs::StdRng;
use rand::seq::SliceRandom;
use rand::Rng;
use rand::SeedableRng;
use vstd::prelude::*;

verus! {

/// `rand::rngs::StdRng`, the seedable generator; its state is opaque here.
#[verifier::external_type_specification]
#[verifier::external_body]
pub struct ExStdRng(StdRng);

/// Calls `StdRng::seed_from_u64`. Nothing is claimed of the generator that
/// comes back.
#[verifier::external_body]
pub(crate) fn seeded_rng(seed: u64) -> StdRng {
    StdRng::seed_from_u64(seed)
}

/// Calls `Rng::gen_range` on the inclusive range `low..=high` of `u64`
/// (which panics on an empty range, hence the `requires`); the claim is
/// only that the draw lies in that range.
#[verifier::external_body]
pub(crate) fn random_u64_in(rng: &mut StdRng, low: u64, high: u64) -> (r: u64)
    requires
        low <= high,
    ensures
        low <= r <= high,
{
    rng.gen_range(low..=high)
}

/// Calls `Rng::gen_range` on the inclusive range `low..=high` of `i32`;
/// the claim is only that the draw lies in that range.
#[verifier::external_body]
pub(crate) fn random_i32_in(rng: &mut StdRng, low: i32, high: i32) -> (r: i32)
    requires
        low <= high,
    ensures
        low <= r <= high,
{
    rng.gen_range(low..=high)
}

/// Calls `Rng::gen_ratio`, a coin that shows `true` with probability
/// `numerator / denominator`. It panics unless `0 < denominator` and
/// `numerator <= denominator`. The source shows that a ratio of `0` never
/// gives `true` and a ratio of `1` always does; that is all that is claimed.
#[verifier::external_body]
pub(crate) fn random_ratio(rng: &mut StdRng, numerator: u32, denominator: u32) -> (r: bool)
    requires
        0 < denominator,
        numerator <= denominator,
    ensures
        numerator == 0 ==> !r,
        numerator == denominator ==> r,
{
    rng.gen_ratio(numerator, denominator)
}

/// Calls `SliceRandom::shuffle` on the vector's elements; the claim is that
/// the result is a rearrangement of them (the same multiset).
#[verifier::external_body]
pub(crate) fn shuffle_indices(values: &mut Vec<usize>, rng: &mut StdRng)
    ensures
        final(values)@.to_multiset() == old(values)@.to_multiset(),
{
    values.shuffle(rng)
}

} // verus!
