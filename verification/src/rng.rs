//! Trusted interface to `rand`'s standard generator, the seedable random
//! source used by the uniform-random move picker and the Monte-Carlo
//! rollouts.

use vstd::prelude::*;

verus! {

#[verifier::external_type_specification]
#[verifier::external_body]
pub struct ExStdRng(rand::rngs::StdRng);

/// Relies on `SeedableRng::seed_from_u64`: builds a generator from a
/// 64-bit seed. Nothing is promised of the state it produces.
#[verifier::external_body]
pub(crate) fn rng_from_seed(seed: u64) -> (r: rand::rngs::StdRng) {
    <rand::rngs::StdRng as rand::SeedableRng>::seed_from_u64(seed)
}

/// Relies on `RngExt::random_range` over `0..n`: it panics on an empty
/// range, so `n` must be positive, and it returns a value of the range;
/// nothing more is promised of the draw.
#[verifier::external_body]
pub(crate) fn rng_below(rng: &mut rand::rngs::StdRng, n: usize) -> (r: usize)
    requires
        n >= 1,
    ensures
        r < n,
{
    rand::RngExt::random_range(rng, 0..n)
}

} // verus!
