//! Source of randomness.
//!
//! All random draws come from rand's `StdRng`, which verification
//! treats as opaque: nothing is assumed about the values it yields.
//! Everything derived from the raw 64-bit draws is verified code.

use vstd::prelude::*;

verus! {

/// rand's standard pseudo-random generator, opaque to verification.
#[verifier::external_type_specification]
#[verifier::external_body]
pub struct ExStdRng(rand::rngs::StdRng);

/// Relies on `rand::SeedableRng::seed_from_u64`: builds a `StdRng`
/// from a 64-bit seed by pure computation (no system entropy), so the
/// same seed always yields the same stream.  Never panics.
#[verifier::external_body]
pub fn rng_from_seed(seed: u64) -> rand::rngs::StdRng {
    <rand::rngs::StdRng as rand::SeedableRng>::seed_from_u64(seed)
}

/// Relies on `rand::RngCore::next_u64` for `StdRng`: yields the next
/// 64 bits of the generator's stream.  Total; nothing is promised of
/// the value.
#[verifier::external_body]
pub fn rng_next(rng: &mut rand::rngs::StdRng) -> u64 {
    rand::RngCore::next_u64(rng)
}

/// A fixed-point scalar drawn from `[lower, upper)`.
pub fn rand_fx(rng: &mut rand::rngs::StdRng, lower: i64, upper: i64) -> (r: i64)
    requires
        lower < upper,
        upper - lower <= i64::MAX,
    ensures
        lower <= r < upper,
{
    let span = (upper as i128 - lower as i128) as u64;
    let x = rng_next(rng) % span;
    lower + (x as i64)
}

} // verus!
