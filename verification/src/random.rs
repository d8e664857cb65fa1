//! The random numbers the relay draws, from the `rand` crate.

use rand::Rng;
use vstd::prelude::*;

verus! {

/// Calls `Rng::random_range` on a fresh `rand::rngs::ThreadRng` with the
/// inclusive range `low..=high`. Its documentation promises a value inside
/// the range (and a panic only for an empty range, which `requires` rules
/// out); which value comes out is chance, so nothing more is claimed.
#[verifier::external_body]
pub(crate) fn random_u64_between(low: u64, high: u64) -> (r: u64)
    requires
        low <= high,
    ensures
        low <= r <= high,
{
    rand::rngs::ThreadRng::default().random_range(low..=high)
}

/// Calls `Rng::random_range` on a fresh `rand::rngs::ThreadRng` with the
/// inclusive range `low..=high`, for bytes: a value inside the range.
#[verifier::external_body]
pub(crate) fn random_u8_between(low: u8, high: u8) -> (r: u8)
    requires
        low <= high,
    ensures
        low <= r <= high,
{
    rand::rngs::ThreadRng::default().random_range(low..=high)
}

/// Calls `Rng::random_range` on a fresh `rand::rngs::ThreadRng` with the
/// half-open range `0..n`: an index below `n`.
#[verifier::external_body]
pub(crate) fn random_index(n: usize) -> (r: usize)
    requires
        n > 0,
    ensures
        r < n,
{
    rand::rngs::ThreadRng::default().random_range(0..n)
}

/// Calls `Rng::fill` on a fresh `rand::rngs::ThreadRng` to fill six bytes.
/// Any six bytes can come out, so nothing is claimed of them.
#[verifier::external_body]
pub(crate) fn random_six_bytes() -> (r: [u8; 6]) {
    let mut bytes = [0u8; 6];
    rand::rngs::ThreadRng::default().fill(&mut bytes);
    bytes
}

} // verus!
