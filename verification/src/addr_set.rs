//! A set of 64-bit addresses backed by hashbrown's `HashSet`.
//!
//! The library stores gadget addresses, written addresses and visited
//! addresses in hash sets; the hash set itself comes from hashbrown and is
//! specified through the mathematical set it holds.

use vstd::prelude::*;

verus! {

/// A finite set of addresses.  The backing store is hashbrown's `HashSet`;
/// its contents are described by [`addr_set_contents`].
#[verifier::external_body]
pub struct AddrSet {
    set: hashbrown::HashSet<u64>,
}

/// What an [`AddrSet`] holds.
pub uninterp spec fn addr_set_contents(s: AddrSet) -> Set<u64>;

impl AddrSet {
    /// The mathematical set of addresses held.
    pub open spec fn view_set(&self) -> Set<u64> {
        addr_set_contents(*self)
    }

    /// Relies on hashbrown's HashSet::new: creates an empty set.
    #[verifier::external_body]
    pub fn new() -> (r: AddrSet)
        ensures
            addr_set_contents(r) == Set::<u64>::empty(),
    {
        AddrSet { set: hashbrown::HashSet::new() }
    }

    /// Relies on hashbrown's HashSet::insert: adds one address; the result
    /// says whether the address was not yet present.
    #[verifier::external_body]
    pub fn insert(&mut self, a: u64) -> (r: bool)
        ensures
            addr_set_contents(*final(self)) == addr_set_contents(*old(self)).insert(a),
            r == !addr_set_contents(*old(self)).contains(a),
    {
        self.set.insert(a)
    }

    /// Relies on hashbrown's HashSet::contains: membership test.
    #[verifier::external_body]
    pub fn contains(&self, a: u64) -> (r: bool)
        ensures
            r == addr_set_contents(*self).contains(a),
    {
        self.set.contains(&a)
    }

    /// Relies on hashbrown's HashSet::len: the number of elements held.
    #[verifier::external_body]
    pub fn len(&self) -> (r: usize)
        ensures
            r == addr_set_contents(*self).len(),
    {
        self.set.len()
    }

    /// Relies on hashbrown's HashSet::iter: hands the elements out once
    /// each, in no promised order.
    #[verifier::external_body]
    pub fn to_vec(&self) -> (r: Vec<u64>)
        ensures
            r@.no_duplicates(),
            forall|a: u64| r@.contains(a) <==> addr_set_contents(*self).contains(a),
    {
        self.set.iter().copied().collect()
    }
}

} // verus!
