//! The identity tracker: which hard-link identity keys were met before.

use std::collections::HashSet;
use vstd::prelude::*;
use vstd::std_specs::hash::*;

verus! {

broadcast use group_hash_axioms;

/// Remembers the identity keys that were offered to it, so that storage with
/// several directory entries is counted once.
pub struct InodeFilter {
    seen: HashSet<u64>,
}

impl View for InodeFilter {
    type V = Set<u64>;

    closed spec fn view(&self) -> Set<u64> {
        self.seen@
    }
}

impl Default for InodeFilter {
    fn default() -> (r: Self)
        ensures
            r@ == Set::<u64>::empty(),
    {
        InodeFilter { seen: HashSet::new() }
    }
}

impl InodeFilter {
    /// A tracker that has met no key yet.
    pub fn new() -> (r: Self)
        ensures
            r@ == Set::<u64>::empty(),
    {
        InodeFilter { seen: HashSet::new() }
    }

    /// Records `key`. The result says whether `key` was met for the first
    /// time, that is, whether its size is still to be counted.
    pub fn add(&mut self, key: u64) -> (first: bool)
        ensures
            first == !old(self)@.contains(key),
            final(self)@ == old(self)@.insert(key),
    {
        self.seen.insert(key)
    }

    /// Tells whether `key` was recorded before, and records nothing.
    pub fn contains(&self, key: u64) -> (met: bool)
        ensures
            met == self@.contains(key),
    {
        self.seen.contains(&key)
    }
}

/// A key is counted at most once: after it was recorded, the tracker never
/// reports it as new again, whatever else is recorded in between.
pub proof fn lemma_key_counted_once(seen: Set<u64>, key: u64, later: Seq<u64>)
    ensures
        recorded_all(seen.insert(key), later).contains(key),
    decreases later.len(),
{
    if later.len() > 0 {
        lemma_key_counted_once(seen, key, later.drop_last());
    }
}

/// The keys met after each key of `keys` was recorded in turn.
pub open spec fn recorded_all(seen: Set<u64>, keys: Seq<u64>) -> Set<u64>
    decreases keys.len(),
{
    if keys.len() == 0 {
        seen
    } else {
        recorded_all(seen, keys.drop_last()).insert(keys.last())
    }
}

} // verus!
