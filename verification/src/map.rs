//! The map over the trie: it owns the root, and only its own operations
//! shape it.

use crate::key::BitKey;
use crate::tree::{CritBit, Empty};
use vstd::prelude::*;

verus! {

/// A map from keys `K` to values `V`, held as a crit-bit trie.
#[derive(Debug, PartialEq, Eq)]
pub struct CritBitMap<K: BitKey, V> {
    root: CritBit<K, V>,
}

impl<K: BitKey, V> View for CritBitMap<K, V> {
    type V = Map<K, V>;

    open spec fn view(&self) -> Map<K, V> {
        self.trie().entries()
    }
}

impl<K: BitKey, V> CritBitMap<K, V> {
    /// The trie that holds the entries.
    pub closed spec fn trie(self) -> CritBit<K, V> {
        self.root
    }

    /// Well-formedness: the trie is well-formed. `new` establishes it and
    /// every operation keeps it.
    pub open spec fn wf(self) -> bool {
        self.trie().wf()
    }

    /// What a lookup of `key` gives.
    pub open spec fn value_of(self, key: K) -> Option<V> {
        self.trie().value_of(key)
    }

    /// The map without entries.
    pub fn new() -> (map: Self)
        ensures
            map.wf(),
            map.trie() is Empty,
            map@ == Map::<K, V>::empty(),
    {
        CritBitMap { root: Empty }
    }

    /// Drops every entry.
    pub fn clear(&mut self)
        ensures
            final(self).wf(),
            final(self).trie() is Empty,
            final(self)@ == Map::<K, V>::empty(),
    {
        self.root.clear();
    }

    /// The number of entries, counted leaf by leaf.
    pub fn len(&self) -> (count: usize)
        requires
            self.wf(),
            self@.len() <= usize::MAX,
        ensures
            count == self@.len(),
    {
        self.root.len()
    }

    /// Whether `key` has an entry.
    pub fn contains_key(&self, key: &K) -> (present: bool)
        requires
            self.wf(),
        ensures
            present == self@.contains_key(*key),
    {
        self.root.contains_key(key)
    }

    /// Looks `key` up.
    pub fn get(&self, key: &K) -> (found: Option<&V>)
        requires
            self.wf(),
        ensures
            found == match self.value_of(*key) {
                Some(v) => Some(&v),
                None => None,
            },
    {
        self.root.find(key)
    }

    /// Looks `key` up for writing: what the caller stores through the
    /// reference becomes the value of `key`, and nothing else changes.
    pub fn get_mut(&mut self, key: &K) -> (found: Option<&mut V>)
        requires
            old(self).wf(),
        ensures
            final(self).wf(),
            match found {
                Some(slot) => {
                    &&& old(self).value_of(*key) == Some(*slot)
                    &&& final(self).trie() == old(self).trie().with_entry(*key, *final(slot))
                    &&& final(self)@ == old(self)@.insert(*key, *final(slot))
                },
                None => old(self).value_of(*key) is None && *final(self) == *old(self),
            },
    {
        self.root.find_mut(key)
    }

    /// Inserts `value` under `key`, and returns the value that `key` had before.
    pub fn insert(&mut self, key: K, value: V) -> (previous: Option<V>)
        requires
            old(self).wf(),
        ensures
            final(self).wf(),
            final(self).trie() == old(self).trie().with_entry(key, value),
            final(self)@ == old(self)@.insert(key, value),
            previous == old(self).value_of(key),
    {
        self.root.swap(key, value)
    }

    /// Removes the entry of `key`, and returns its value. Where `key` has no
    /// entry the map stays as it is.
    pub fn remove(&mut self, key: &K) -> (removed: Option<V>)
        requires
            old(self).wf(),
        ensures
            final(self).wf(),
            final(self).trie() == old(self).trie().without(*key),
            final(self)@ == old(self)@.remove(*key),
            removed == old(self).value_of(*key),
            removed is None ==> *final(self) == *old(self),
    {
        self.root.pop(key)
    }
}

} // verus!
