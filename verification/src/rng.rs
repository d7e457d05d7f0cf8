//! Randomness, behind trusted wrappers around the rand crate.
//!
//! Nothing is promised of a random draw beyond its range: every verified
//! caller must hold for every outcome.

use rand::RngExt;
use vstd::prelude::*;

verus! {

/// Relies on rand::random: a uniformly random 64-bit value; nothing is
/// promised of it.
#[verifier::external_body]
pub(crate) fn random_u64() -> u64 {
    rand::random()
}

/// Relies on rand::random_range: a uniformly random index below `n`.
#[verifier::external_body]
pub(crate) fn random_below(n: usize) -> (r: usize)
    requires
        n > 0,
    ensures
        r < n,
{
    rand::random_range(0..n)
}

/// Relies on rand::random_ratio: true with probability `num / den`;
/// nothing is promised of the outcome.
#[verifier::external_body]
pub(crate) fn random_coin(num: u32, den: u32) -> bool
    requires
        den > 0,
        num <= den,
{
    rand::random_ratio(num, den)
}

/// Relies on rand's Alphanumeric distribution: a uniformly random ASCII
/// alphanumeric byte.
#[verifier::external_body]
pub(crate) fn random_alnum_byte() -> (r: u8)
    ensures
        0x30 <= r <= 0x39 || 0x41 <= r <= 0x5a || 0x61 <= r <= 0x7a,
{
    rand::rng().sample(rand::distr::Alphanumeric)
}

} // verus!
