//! Pseudo-random generation, behind trusted wrappers around `rand`.
//!
//! The simulation owns one `SmallRng` instance, threaded explicitly through
//! every call that needs randomness. Nothing is assumed about the values a
//! generator produces: every caller's contract holds for every possible
//! draw.

use vstd::prelude::*;

verus! {

/// `rand::rngs::SmallRng`, declared opaquely so that verified code can hold
/// a generator in fields and pass it by `&mut`.
#[verifier::external_type_specification]
#[verifier::external_body]
pub struct ExSmallRng(rand::rngs::SmallRng);

/// Relies on rand's `SeedableRng::seed_from_u64` for `SmallRng`: builds a
/// generator from a 64-bit seed.
#[verifier::external_body]
pub(crate) fn rng_from_seed(seed: u64) -> rand::rngs::SmallRng {
    <rand::rngs::SmallRng as rand::SeedableRng>::seed_from_u64(seed)
}

/// Relies on rand's `RngCore::next_u32` for `SmallRng`: one 32-bit draw.
/// Nothing is promised of the value.
#[verifier::external_body]
pub(crate) fn rng_next_u32(rng: &mut rand::rngs::SmallRng) -> u32 {
    rand::RngCore::next_u32(rng)
}

} // verus!
