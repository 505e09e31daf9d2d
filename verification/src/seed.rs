//! The seed of a simulation's random phase generator.

use rand::TryRngCore;
use vstd::prelude::*;

verus! {

/// Draws a fresh 64-bit seed from the operating system's random source with
/// `rand::rngs::OsRng::try_next_u64` (which asks `getrandom::u64`), giving
/// `None` when the operating system refuses. The value is random, so
/// nothing is stated of it.
#[verifier::external_body]
fn fresh_seed() -> Option<u64> {
    rand::rngs::OsRng.try_next_u64().ok()
}

/// The seed a simulation runs with: the one given, for reproducible runs,
/// or else a fresh random one; `None` only when no seed was given and the
/// operating system could not supply one.
pub fn resolve_seed(rng_seed: Option<u64>) -> (r: Option<u64>)
    ensures
        rng_seed matches Some(s) ==> r == Some(s),
        r is None ==> rng_seed is None,
{
    match rng_seed {
        Some(s) => Some(s),
        None => fresh_seed(),
    }
}

} // verus!
