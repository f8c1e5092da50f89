//! Trusted boundary to the `rand` and `rand_xoshiro` crates: the trainer's
//! owned, explicitly seeded generator and the two draws the logic needs,
//! a raw word and a uniform index.

use vstd::prelude::*;

verus! {

#[verifier::external_type_specification]
#[verifier::external_body]
pub struct ExXoshiro256StarStar(rand_xoshiro::Xoshiro256StarStar);

/// Relies on `rand_core::SeedableRng::seed_from_u64` for
/// `rand_xoshiro::Xoshiro256StarStar`: builds a generator whose state is a
/// function of the seed alone (via SplitMix64), so runs are reproducible.
/// Nothing about the state is claimed.
#[verifier::external_body]
pub(crate) fn rng_from_seed(seed: u64) -> rand_xoshiro::Xoshiro256StarStar {
    <rand_xoshiro::Xoshiro256StarStar as rand::SeedableRng>::seed_from_u64(seed)
}

/// Relies on `rand_core::RngCore::next_u64` for
/// `rand_xoshiro::Xoshiro256StarStar`: one generator step returning one
/// word. Nothing is promised of the value.
#[verifier::external_body]
pub(crate) fn next_word(rng: &mut rand_xoshiro::Xoshiro256StarStar) -> u64 {
    rand::RngCore::next_u64(rng)
}

/// Relies on `rand::Rng::gen_range` on the range `0..n`: the sample lies in
/// the range, that is strictly below `n`; the call panics only on an empty
/// range, which the precondition rules out.
#[verifier::external_body]
pub(crate) fn sample_index(rng: &mut rand_xoshiro::Xoshiro256StarStar, n: usize) -> (r: usize)
    requires
        n >= 1,
    ensures
        r < n,
{
    rand::Rng::gen_range(rng, 0..n)
}

} // verus!
