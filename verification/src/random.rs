//! The calls into rand that draw identities and tokens.
use vstd::prelude::*;

verus! {

/// rand's thread-local generator, carried as an opaque value.
#[verifier::external_type_specification]
#[verifier::external_body]
pub struct ExThreadRng(rand::rngs::ThreadRng);

/// Calls `rand::Rng::gen_range` on the range from `low` to `high`, both included,
/// which is taken to draw a number from that range. How the draws are
/// distributed is not stated. Like every use of this generator, the call panics
/// where the operating system has no entropy to reseed it with.
#[verifier::external_body]
pub(crate) fn draw_between(rng: &mut rand::rngs::ThreadRng, low: u32, high: u32) -> (n: u32)
    requires
        low <= high,
    ensures
        low <= n <= high,
{
    rand::Rng::gen_range(rng, low..=high)
}

/// Calls `rand::RngCore::fill_bytes`, which overwrites `dest` with random bytes.
/// They can be any bytes, so nothing is stated of them. Like every use of this
/// generator, the call panics where the operating system has no entropy to
/// reseed it with.
#[verifier::external_body]
pub(crate) fn fill_bytes(rng: &mut rand::rngs::ThreadRng, dest: &mut [u8; 16]) {
    rand::RngCore::fill_bytes(rng, dest)
}

} // verus!
