//! The pseudorandom generator, taken from rand.
use rand::rngs::SmallRng;
use rand::{Rng, SeedableRng};
use vstd::prelude::*;

verus! {

#[verifier::external_type_specification]
#[verifier::external_body]
pub struct ExSmallRng(SmallRng);

/// Relies on rand's `SeedableRng::seed_from_u64`, which builds a generator from a seed.
#[verifier::external_body]
pub(crate) fn seeded(seed: u64) -> (r: SmallRng) {
    SmallRng::seed_from_u64(seed)
}

/// Relies on rand's `Rng::gen_range`: on `0..bound` it returns a value below `bound`.
/// It panics on an empty range, which the precondition excludes.
#[verifier::external_body]
pub(crate) fn draw_below(rng: &mut SmallRng, bound: u64) -> (r: u64)
    requires
        bound > 0,
    ensures
        r < bound,
{
    rng.gen_range(0..bound)
}

} // verus!
