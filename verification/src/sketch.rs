//! Approximate per-address visitation counter.
//!
//! A `CountMinSketch` keeps four rows of saturating counters; inserting an
//! address bumps one counter per row and querying returns the smallest of
//! the four counters the address maps to.  The estimate never goes down as
//! insertions arrive and never undercounts the true number of insertions
//! (it may overestimate through collisions), so consumers must treat it as
//! an upper bound.

use vstd::multiset::Multiset;
use vstd::prelude::*;

verus! {

pub const ROW_SEED_0: u64 = 0x9E37_79B9_7F4A_7C15;

pub const ROW_SEED_1: u64 = 0xC2B2_AE3D_27D4_EB4F;

pub const ROW_SEED_2: u64 = 0x1656_67B1_9E37_79F9;

pub const ROW_SEED_3: u64 = 0x27D4_EB2F_1656_67C5;

/// The counter index that `seed` maps address `a` to, in a row of `width`
/// counters.
pub open spec fn bucket_spec(seed: u64, a: u64, width: int) -> int {
    ((a as int) * (seed as int) + (seed as int)) % width
}

/// The smaller of a count bound and the counter ceiling.
pub open spec fn capped(n: nat) -> int {
    if n > u64::MAX {
        u64::MAX as int
    } else {
        n as int
    }
}

fn bucket(seed: u64, a: u64, width: usize) -> (r: usize)
    requires
        width > 0,
    ensures
        r == bucket_spec(seed, a, width as int),
        r < width,
{
    proof {
        vstd::arithmetic::mul::lemma_mul_upper_bound(
            a as int,
            u64::MAX as int,
            seed as int,
            u64::MAX as int,
        );
    }
    let m: u128 = (a as u128) * (seed as u128) + (seed as u128);
    (m % (width as u128)) as usize
}

/// Approximate multiset counter over addresses.
pub struct CountMinSketch {
    pub row0: Vec<u64>,
    pub row1: Vec<u64>,
    pub row2: Vec<u64>,
    pub row3: Vec<u64>,
    pub width: usize,
    pub hist: Ghost<Multiset<u64>>,
}

impl CountMinSketch {
    /// The multiset of addresses inserted so far.
    pub open spec fn history(&self) -> Multiset<u64> {
        self.hist@
    }

    pub open spec fn width_spec(&self) -> int {
        self.width as int
    }

    /// One row's counter at the bucket of `a` bounds the true count.
    pub open spec fn row_sound(&self, row: Seq<u64>, seed: u64) -> bool {
        &&& row.len() == self.width
        &&& forall|a: u64|
            #[trigger] row[bucket_spec(seed, a, self.width as int)] >= capped(self.hist@.count(a))
    }

    pub open spec fn wf(&self) -> bool {
        &&& self.width > 0
        &&& self.row_sound(self.row0@, ROW_SEED_0)
        &&& self.row_sound(self.row1@, ROW_SEED_1)
        &&& self.row_sound(self.row2@, ROW_SEED_2)
        &&& self.row_sound(self.row3@, ROW_SEED_3)
    }

    /// The estimate the sketch currently holds for `a`: the least of the
    /// four counters `a` maps to.
    pub open spec fn query_spec(&self, a: u64) -> u64 {
        let w = self.width as int;
        let c0 = self.row0@[bucket_spec(ROW_SEED_0, a, w)];
        let c1 = self.row1@[bucket_spec(ROW_SEED_1, a, w)];
        let c2 = self.row2@[bucket_spec(ROW_SEED_2, a, w)];
        let c3 = self.row3@[bucket_spec(ROW_SEED_3, a, w)];
        let m01 = if c0 <= c1 {
            c0
        } else {
            c1
        };
        let m23 = if c2 <= c3 {
            c2
        } else {
            c3
        };
        if m01 <= m23 {
            m01
        } else {
            m23
        }
    }

    /// A fresh sketch with `width` counters per row, all zero.
    pub fn new(width: usize) -> (r: CountMinSketch)
        requires
            width > 0,
        ensures
            r.wf(),
            r.history() == Multiset::<u64>::empty(),
            r.width_spec() == width,
    {
        let row0 = zero_row(width);
        let row1 = zero_row(width);
        let row2 = zero_row(width);
        let row3 = zero_row(width);
        CountMinSketch { row0, row1, row2, row3, width, hist: Ghost(Multiset::empty()) }
    }

    /// Bumps the estimate of `a`: the estimate of no address goes down,
    /// and the estimate of every address keeps bounding its true count.
    pub fn insert(&mut self, a: u64)
        requires
            old(self).wf(),
        ensures
            final(self).wf(),
            final(self).history() == old(self).history().insert(a),
            final(self).width_spec() == old(self).width_spec(),
            forall|x: u64| final(self).query_spec(x) >= old(self).query_spec(x),
    {
        let w = self.width;
        let i0 = bucket(ROW_SEED_0, a, w);
        let c0 = self.row0[i0];
        self.row0.set(i0, if c0 == u64::MAX { c0 } else { c0 + 1 });
        let i1 = bucket(ROW_SEED_1, a, w);
        let c1 = self.row1[i1];
        self.row1.set(i1, if c1 == u64::MAX { c1 } else { c1 + 1 });
        let i2 = bucket(ROW_SEED_2, a, w);
        let c2 = self.row2[i2];
        self.row2.set(i2, if c2 == u64::MAX { c2 } else { c2 + 1 });
        let i3 = bucket(ROW_SEED_3, a, w);
        let c3 = self.row3[i3];
        self.row3.set(i3, if c3 == u64::MAX { c3 } else { c3 + 1 });
        proof {
            self.hist@ = old(self).hist@.insert(a);
            broadcast use vstd::multiset::group_multiset_axioms;

            assert forall|x: u64|
                #[trigger] self.row0@[bucket_spec(ROW_SEED_0, x, self.width as int)] >= capped(
                self.hist@.count(x),
            ) by {
                assert(old(self).row0@[bucket_spec(ROW_SEED_0, x, self.width as int)] >= capped(
                    old(self).hist@.count(x),
                ));
            }
            assert forall|x: u64|
                #[trigger] self.row1@[bucket_spec(ROW_SEED_1, x, self.width as int)] >= capped(
                self.hist@.count(x),
            ) by {
                assert(old(self).row1@[bucket_spec(ROW_SEED_1, x, self.width as int)] >= capped(
                    old(self).hist@.count(x),
                ));
            }
            assert forall|x: u64|
                #[trigger] self.row2@[bucket_spec(ROW_SEED_2, x, self.width as int)] >= capped(
                self.hist@.count(x),
            ) by {
                assert(old(self).row2@[bucket_spec(ROW_SEED_2, x, self.width as int)] >= capped(
                    old(self).hist@.count(x),
                ));
            }
            assert forall|x: u64|
                #[trigger] self.row3@[bucket_spec(ROW_SEED_3, x, self.width as int)] >= capped(
                self.hist@.count(x),
            ) by {
                assert(old(self).row3@[bucket_spec(ROW_SEED_3, x, self.width as int)] >= capped(
                    old(self).hist@.count(x),
                ));
            }
        }
    }

    /// The current estimate for `a`; never below the number of times `a`
    /// was inserted (capped at the counter ceiling), possibly above it.
    pub fn query(&self, a: u64) -> (r: u64)
        requires
            self.wf(),
        ensures
            r == self.query_spec(a),
            r >= capped(self.history().count(a)),
    {
        let w = self.width;
        let c0 = self.row0[bucket(ROW_SEED_0, a, w)];
        let c1 = self.row1[bucket(ROW_SEED_1, a, w)];
        let c2 = self.row2[bucket(ROW_SEED_2, a, w)];
        let c3 = self.row3[bucket(ROW_SEED_3, a, w)];
        let m01 = if c0 <= c1 {
            c0
        } else {
            c1
        };
        let m23 = if c2 <= c3 {
            c2
        } else {
            c3
        };
        if m01 <= m23 {
            m01
        } else {
            m23
        }
    }

    /// Inserts every address of `addrs`, in order.
    pub fn insert_all(&mut self, addrs: &Vec<u64>)
        requires
            old(self).wf(),
        ensures
            final(self).wf(),
            final(self).history() == old(self).history().add(addrs@.to_multiset()),
            final(self).width_spec() == old(self).width_spec(),
            forall|x: u64| final(self).query_spec(x) >= old(self).query_spec(x),
    {
        let mut i: usize = 0;
        proof {
            broadcast use vstd::seq_lib::group_to_multiset_ensures;
            broadcast use vstd::multiset::group_multiset_axioms;

            assert(old(self).history().add(addrs@.take(0).to_multiset()) =~= old(self).history());
        }
        while i < addrs.len()
            invariant
                i <= addrs@.len(),
                self.wf(),
                self.width_spec() == old(self).width_spec(),
                self.history() == old(self).history().add(addrs@.take(i as int).to_multiset()),
                forall|x: u64| self.query_spec(x) >= old(self).query_spec(x),
            decreases addrs@.len() - i,
        {
            self.insert(addrs[i]);
            i += 1;
            proof {
                broadcast use vstd::seq_lib::group_to_multiset_ensures;
                broadcast use vstd::multiset::group_multiset_axioms;

                assert(addrs@.take(i as int).drop_last() =~= addrs@.take(i as int - 1));
                assert(addrs@.take(i as int) =~= addrs@.take(i as int - 1).push(
                    addrs@[i as int - 1],
                ));
                assert(self.history() =~= old(self).history().add(
                    addrs@.take(i as int).to_multiset(),
                ));
            }
        }
        proof {
            assert(addrs@.take(i as int) =~= addrs@);
        }
    }
}

/// A row of `width` zeroed counters.
fn zero_row(width: usize) -> (r: Vec<u64>)
    ensures
        r@.len() == width,
        forall|i: int| 0 <= i < width ==> r@[i] == 0,
{
    let mut v: Vec<u64> = Vec::new();
    let mut i: usize = 0;
    while i < width
        invariant
            i <= width,
            v@.len() == i,
            forall|k: int| 0 <= k < i ==> v@[k] == 0,
        decreases width - i,
    {
        v.push(0);
        i += 1;
    }
    v
}

} // verus!
