use vstd::prelude::*;

pub mod addr_set;
pub mod evaluation;
pub mod evolution;
pub mod fitness;
pub mod observer;
pub mod pack;
pub mod profile;
pub mod profiler;
pub mod sketch;
mod rng;

verus! {

/// Scale used for fixed-point ratio scores: a ratio r in [0, 1] is stored
/// as the integer floor(r * SCORE_SCALE).
pub const SCORE_SCALE: u64 = 1_000_000;

/// First value paired with `key` in an association list, if any.
pub open spec fn assoc_lookup<K, V>(s: Seq<(K, V)>, key: K) -> Option<V>
    decreases s.len(),
{
    if s.len() == 0 {
        None
    } else if s[0].0 == key {
        Some(s[0].1)
    } else {
        assoc_lookup(s.drop_first(), key)
    }
}

} // verus!

