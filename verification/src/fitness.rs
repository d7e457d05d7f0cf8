//! Named fitness scores.
//!
//! A `Weighted` value maps objective names to raw integer scores.  Ratio
//! scores use the fixed-point scale [`crate::SCORE_SCALE`].  Combining the
//! per-objective scores into one scalar rank is the caller's business; the
//! aggregator stores raw scores and performs no normalization.

use vstd::prelude::*;

use crate::assoc_lookup;

verus! {

/// The objectives the fitness strategies score.
#[derive(Copy, Clone, PartialEq, Eq, Structural, Hash, Debug)]
pub enum Objective {
    CodeCoverage,
    CodeFrequency,
    GadgetsExecuted,
    MemRatioWritten,
    RegisterError,
    CrashCount,
    Zeroes,
}

/// Raw per-objective scores, keyed by objective name.
#[derive(Clone, Debug)]
pub struct Weighted {
    pub scores: Vec<(Objective, u64)>,
}

/// `assoc_lookup` finds the first occurrence of a key.
proof fn lemma_assoc_first(s: Seq<(Objective, u64)>, key: Objective, i: int)
    requires
        0 <= i < s.len(),
        s[i].0 == key,
        forall|j: int| 0 <= j < i ==> (#[trigger] s[j]).0 != key,
    ensures
        assoc_lookup(s, key) == Some(s[i].1),
    decreases i,
{
    if i == 0 {
    } else {
        assert(s.drop_first()[i - 1] == s[i]);
        assert forall|j: int| 0 <= j < i - 1 implies (#[trigger] s.drop_first()[j]).0 != key by {
            assert(s.drop_first()[j] == s[j + 1]);
        }
        lemma_assoc_first(s.drop_first(), key, i - 1);
    }
}

/// `assoc_lookup` misses a key that occurs nowhere.
proof fn lemma_assoc_absent(s: Seq<(Objective, u64)>, key: Objective)
    requires
        forall|j: int| 0 <= j < s.len() ==> (#[trigger] s[j]).0 != key,
    ensures
        assoc_lookup(s, key) is None,
    decreases s.len(),
{
    if s.len() > 0 {
        assert forall|j: int|
            0 <= j < s.drop_first().len() implies (#[trigger] s.drop_first()[j]).0 != key by {
            assert(s.drop_first()[j] == s[j + 1]);
        }
        lemma_assoc_absent(s.drop_first(), key);
    }
}

/// Overwriting an entry in place leaves every other key's lookup alone.
proof fn lemma_assoc_update_other(s: Seq<(Objective, u64)>, i: int, p: (Objective, u64), k: Objective)
    requires
        0 <= i < s.len(),
        s[i].0 == p.0,
        k != p.0,
    ensures
        assoc_lookup(s.update(i, p), k) == assoc_lookup(s, k),
    decreases i,
{
    let t = s.update(i, p);
    if i == 0 {
        assert(t[0].0 == p.0);
        assert(t.drop_first() =~= s.drop_first());
    } else {
        assert(t[0] == s[0]);
        if s[0].0 == k {
        } else {
            assert(t.drop_first() =~= s.drop_first().update(i - 1, p));
            assert(s.drop_first()[i - 1] == s[i]);
            lemma_assoc_update_other(s.drop_first(), i - 1, p, k);
        }
    }
}

impl Weighted {
    /// The score stored for `key`, if any.
    pub open spec fn score_of(&self, key: Objective) -> Option<u64> {
        assoc_lookup(self.scores@, key)
    }

    /// An aggregator with no scores yet.
    pub fn new() -> (r: Weighted)
        ensures
            r.scores@ == Seq::<(Objective, u64)>::empty(),
            forall|k: Objective| r.score_of(k) is None,
    {
        let w = Weighted { scores: Vec::new() };
        proof {
            assert forall|k: Objective| w.score_of(k) is None by {
                lemma_assoc_absent(w.scores@, k);
            }
        }
        w
    }

    /// First index at which `key` occurs, if it occurs.
    fn find(&self, key: Objective) -> (r: Option<usize>)
        ensures
            match r {
                Some(i) => i < self.scores@.len() && self.scores@[i as int].0 == key
                    && forall|j: int| 0 <= j < i ==> (#[trigger] self.scores@[j]).0 != key,
                None => forall|j: int|
                    0 <= j < self.scores@.len() ==> (#[trigger] self.scores@[j]).0 != key,
            },
    {
        let mut i: usize = 0;
        while i < self.scores.len()
            invariant
                i <= self.scores@.len(),
                forall|j: int| 0 <= j < i ==> (#[trigger] self.scores@[j]).0 != key,
            decreases self.scores@.len() - i,
        {
            if self.scores[i].0 == key {
                return Some(i);
            }
            i += 1;
        }
        None
    }

    /// Stores `score` under `key`, replacing any earlier score for `key`
    /// and leaving every other key's score alone.
    pub fn insert(&mut self, key: Objective, score: u64)
        ensures
            final(self).score_of(key) == Some(score),
            forall|k: Objective| k != key ==> final(self).score_of(k) == old(self).score_of(k),
            old(self).score_of(key) is None ==> final(self).scores@ == old(self).scores@.push(
                (key, score),
            ),
    {
        match self.find(key) {
            Some(i) => {
                proof {
                    lemma_assoc_first(old(self).scores@, key, i as int);
                }
                self.scores.set(i, (key, score));
                proof {
                    lemma_assoc_first(self.scores@, key, i as int);
                    assert forall|k: Objective|
                        k != key implies self.score_of(k) == old(self).score_of(k) by {
                        lemma_assoc_update_other(old(self).scores@, i as int, (key, score), k);
                    }
                }
            },
            None => {
                proof {
                    lemma_assoc_absent(old(self).scores@, key);
                }
                self.scores.push((key, score));
                proof {
                    lemma_assoc_first(self.scores@, key, self.scores@.len() - 1);
                    assert forall|k: Objective|
                        k != key implies self.score_of(k) == old(self).score_of(k) by {
                        lemma_assoc_push(old(self).scores@, k, (key, score));
                    }
                }
            },
        }
    }

    /// The stored score for `key`, if any.
    pub fn get(&self, key: Objective) -> (r: Option<u64>)
        ensures
            r == self.score_of(key),
    {
        match self.find(key) {
            Some(i) => {
                proof {
                    lemma_assoc_first(self.scores@, key, i as int);
                }
                Some(self.scores[i].1)
            },
            None => {
                proof {
                    lemma_assoc_absent(self.scores@, key);
                }
                None
            },
        }
    }
}

/// Pushing a pair whose key differs from `k` leaves `k`'s lookup alone.
proof fn lemma_assoc_push(s: Seq<(Objective, u64)>, k: Objective, p: (Objective, u64))
    requires
        p.0 != k,
    ensures
        assoc_lookup(s.push(p), k) == assoc_lookup(s, k),
    decreases s.len(),
{
    if s.len() == 0 {
        assert(s.push(p)[0] == p);
        assert(s.push(p).drop_first() =~= Seq::<(Objective, u64)>::empty());
        assert(assoc_lookup(Seq::<(Objective, u64)>::empty(), k) is None);
        assert(assoc_lookup(s.push(p), k) == assoc_lookup(s.push(p).drop_first(), k));
    } else {
        assert(s.push(p)[0] == s[0]);
        if s[0].0 == k {
        } else {
            assert(s.push(p).drop_first() =~= s.drop_first().push(p));
            lemma_assoc_push(s.drop_first(), k, p);
        }
    }
}

} // verus!
