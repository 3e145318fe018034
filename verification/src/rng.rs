//! Trusted boundary to the pseudo-random generator used during maze
//! generation. Nothing is assumed of the drawn values beyond their range.
use vstd::prelude::*;

verus! {

#[verifier::external_type_specification]
#[verifier::external_body]
pub struct ExStdRng(rand::rngs::StdRng);

/// Relies on rand's `StdRng::from_os_rng`: a generator seeded from the
/// operating system. Nothing can be promised of the values it will yield.
#[verifier::external_body]
pub(crate) fn fresh_rng() -> rand::rngs::StdRng {
    <rand::rngs::StdRng as rand::SeedableRng>::from_os_rng()
}

/// Relies on rand's `SeedableRng::seed_from_u64`: a generator derived from the
/// given seed. Nothing is claimed about the values it will yield.
#[verifier::external_body]
pub(crate) fn seeded_rng(seed: u64) -> rand::rngs::StdRng {
    <rand::rngs::StdRng as rand::SeedableRng>::seed_from_u64(seed)
}

/// Relies on rand's `Rng::random_range` over `usize`: it returns a value of
/// the given half-open range, and panics only when the range is empty, which
/// the precondition rules out.
#[verifier::external_body]
pub(crate) fn rng_range(rng: &mut rand::rngs::StdRng, lo: usize, hi: usize) -> (r: usize)
    requires
        lo < hi,
    ensures
        lo <= r < hi,
{
    rand::Rng::random_range(rng, lo..hi)
}

} // verus!
