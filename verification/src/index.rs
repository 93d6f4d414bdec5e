//! An index from a number to the positions filed under it, kept in a hash
//! map.

use std::collections::HashMap;
use vstd::prelude::*;
use vstd::std_specs::hash::*;

verus! {

/// Positions filed under numbers.
pub struct PositionIndex {
    buckets: HashMap<u64, Vec<usize>>,
}

impl PositionIndex {
    /// The positions filed under `key`, in the order in which they were
    /// added.
    pub closed spec fn positions(&self, key: u64) -> Seq<usize> {
        if self.buckets@.contains_key(key) {
            self.buckets@[key]@
        } else {
            Seq::empty()
        }
    }

    /// An index that holds nothing.
    pub fn new() -> (index: PositionIndex)
        ensures
            forall|key: u64| (#[trigger] index.positions(key)) == Seq::<usize>::empty(),
    {
        PositionIndex { buckets: HashMap::new() }
    }

    /// Files `position` under `key`.
    pub fn add(&mut self, key: u64, position: usize)
        ensures
            final(self).positions(key) == old(self).positions(key).push(position),
            forall|other: u64|
                other != key ==> (#[trigger] final(self).positions(other)) == old(self).positions(
                    other,
                ),
    {
        broadcast use group_hash_axioms;

        let mut bucket: Vec<usize> = match self.buckets.get(&key) {
            Some(bucket) => bucket.clone(),
            None => Vec::new(),
        };
        bucket.push(position);
        self.buckets.insert(key, bucket);
    }

    /// The positions filed under `key`; `None` where there are none.
    pub fn get(&self, key: u64) -> (found: Option<&Vec<usize>>)
        ensures
            match found {
                Some(bucket) => bucket@ == self.positions(key),
                None => self.positions(key) == Seq::<usize>::empty(),
            },
    {
        broadcast use group_hash_axioms;

        self.buckets.get(&key)
    }
}

} // verus!
