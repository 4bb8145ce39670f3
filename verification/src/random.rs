//! The crate's only source of randomness: a seedable generator from the
//! `rand` crate, passed explicitly into every randomized routine so that a
//! fixed seed reproduces a run exactly.

use vstd::prelude::*;

verus! {

#[verifier::external_type_specification]
#[verifier::external_body]
pub struct ExStdRng(rand::rngs::StdRng);

/// Relies on rand's `RngExt::random_range` over `0..bound`: draws an index
/// strictly below `bound` (the range is non-empty, so the call cannot
/// panic). Nothing else is assumed of the value: it depends on the
/// generator's state.
#[verifier::external_body]
pub(crate) fn rand_below(rng: &mut rand::rngs::StdRng, bound: usize) -> (r: usize)
    requires
        bound > 0,
    ensures
        r < bound,
{
    rand::RngExt::random_range(rng, 0..bound)
}

} // verus!
