use rand::rngs::StdRng;
use rand::{RngExt, SeedableRng};
use vstd::prelude::*;

verus! {

/// rand's standard generator, carried through the simulation as an opaque value.
#[verifier::external_type_specification]
#[verifier::external_body]
pub struct ExStdRng(StdRng);

/// Calls `StdRng::seed_from_u64`. Nothing is claimed of the generator it returns.
#[verifier::external_body]
pub(crate) fn seeded_rng(seed: u64) -> StdRng {
    StdRng::seed_from_u64(seed)
}

/// Calls `RngExt::random_range(0..=upper)`. The contract claims only what rand documents:
/// the value lies in the inclusive range `0..=upper`, which is never empty, so the call
/// does not panic. Which value comes out is left unsaid: it depends on the generator state.
#[verifier::external_body]
pub(crate) fn sample_up_to(upper: u32, rng: &mut StdRng) -> (value: u32)
    ensures
        value <= upper,
{
    rng.random_range(0..=upper)
}

/// Calls `RngExt::random_range(0..upper)`. rand panics on an empty range, so `upper`
/// must be positive; the value then lies in `0..upper`. Which value comes out is left
/// unsaid: it depends on the generator state.
#[verifier::external_body]
pub(crate) fn sample_below(upper: u32, rng: &mut StdRng) -> (value: u32)
    requires
        upper > 0,
    ensures
        value < upper,
{
    rng.random_range(0..upper)
}

} // verus!
