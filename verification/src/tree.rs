//! The trie itself: its shape, what it means as a map, and its operations.

use crate::key::{bit_at, BitKey};
use vstd::arithmetic::div_mod::lemma_small_mod;
use vstd::prelude::*;
use vstd::set_lib::{lemma_int_range, lemma_len_subset, set_int_range};

pub use CritBit::{Empty, Internal, Leaf};

verus! {

/// A crit-bit trie over keys `K` with values `V`.
///
/// A `Leaf` holds one entry. An `Internal` node holds two subtries and the bit
/// position that tells them apart: keys on the left have that bit clear, keys
/// on the right have it set. `Empty` is the trie without entries; it stands at
/// the root only.
#[derive(Debug, PartialEq, Eq)]
pub enum CritBit<K, V> {
    Leaf(K, V),
    Internal((Box<CritBit<K, V>>, Box<CritBit<K, V>>), K),
    Empty,
}

impl<K: BitKey, V> CritBit<K, V> {
    /// The entries of the trie, as a map.
    pub open spec fn entries(self) -> Map<K, V>
        decreases self,
    {
        match self {
            Empty => Map::empty(),
            Leaf(k, v) => Map::empty().insert(k, v),
            Internal((left, right), _) => left.entries().union_prefer_right(right.entries()),
        }
    }

    /// The number of leaves.
    pub open spec fn leaves(self) -> nat
        decreases self,
    {
        match self {
            Empty => 0,
            Leaf(_, _) => 1,
            Internal((left, right), _) => left.leaves() + right.leaves(),
        }
    }

    /// The number of internal nodes on the longest way from the root to a leaf.
    pub open spec fn depth(self) -> nat
        decreases self,
    {
        match self {
            Empty => 0,
            Leaf(_, _) => 0,
            Internal((left, right), _) => 1 + if left.depth() >= right.depth() {
                left.depth()
            } else {
                right.depth()
            },
        }
    }

    /// Whether every key of the trie has `expected` as its bit at `pos`.
    pub open spec fn uniform_at(self, pos: nat, expected: bool) -> bool {
        forall|k: K| #[trigger] self.entries().contains_key(k) ==> k.bit(pos) == expected
    }

    /// A subtrie that holds at least one entry and keeps the branching
    /// discipline: below every internal node both sides are populated, the
    /// critical bit is a position of the key, and it is clear in every key on
    /// the left and set in every key on the right.
    pub open spec fn populated(self) -> bool
        decreases self,
    {
        match self {
            Empty => false,
            Leaf(_, _) => true,
            Internal((left, right), crit) => {
                &&& crit.index() < K::width()
                &&& left.populated()
                &&& right.populated()
                &&& left.uniform_at(crit.index(), false)
                &&& right.uniform_at(crit.index(), true)
            },
        }
    }

    /// The left subtrie of an internal node.
    pub open spec fn left(self) -> Self {
        match self {
            Internal((left, _), _) => *left,
            _ => Empty,
        }
    }

    /// The right subtrie of an internal node.
    pub open spec fn right(self) -> Self {
        match self {
            Internal((_, right), _) => *right,
            _ => Empty,
        }
    }

    /// The key that holds the position at which an internal node branches.
    pub open spec fn branch_key(self) -> K
        recommends
            self is Internal,
    {
        self->Internal_1
    }

    /// The position at which an internal node branches.
    pub open spec fn branch_bit(self) -> nat {
        match self {
            Internal(_, crit) => crit.index(),
            _ => 0,
        }
    }

    /// Whether `node` is the trie itself or a subtrie somewhere below it.
    pub open spec fn has_node(self, node: Self) -> bool
        decreases self,
    {
        self == node || match self {
            Internal((left, right), _) => left.has_node(node) || right.has_node(node),
            _ => false,
        }
    }

    /// Well-formedness: the trie is empty, or populated throughout.
    pub open spec fn wf(self) -> bool {
        self is Empty || self.populated()
    }

    /// The trie after `value` is stored under `key`: the value of a leaf with
    /// that key is replaced; a leaf with another key is split at the critical
    /// bit of the two keys, the smaller key going left; an internal node hands
    /// the entry to the side that the key's bit names.
    pub open spec fn with_entry(self, key: K, value: V) -> Self
        decreases self,
    {
        match self {
            Empty => Leaf(key, value),
            Leaf(k, v) => if k == key {
                Leaf(key, value)
            } else if k.index() < key.index() {
                Internal((Box::new(Leaf(k, v)), Box::new(Leaf(key, value))), k.crit(key))
            } else {
                Internal((Box::new(Leaf(key, value)), Box::new(Leaf(k, v))), k.crit(key))
            },
            Internal((left, right), crit) => if key.bit(crit.index()) {
                Internal((left, Box::new(right.with_entry(key, value))), crit)
            } else {
                Internal((Box::new(left.with_entry(key, value)), right), crit)
            },
        }
    }

    /// The trie after the entry of `key` is removed: a leaf with that key
    /// goes; an internal node whose side becomes empty gives its place to the
    /// other side; a trie without the key stays as it is.
    pub open spec fn without(self, key: K) -> Self
        decreases self,
    {
        match self {
            Empty => Empty,
            Leaf(k, v) => if k == key {
                Empty
            } else {
                self
            },
            Internal((left, right), crit) => if key.bit(crit.index()) {
                match right.without(key) {
                    Empty => *left,
                    rest => Internal((left, Box::new(rest)), crit),
                }
            } else {
                match left.without(key) {
                    Empty => *right,
                    rest => Internal((Box::new(rest), right), crit),
                }
            },
        }
    }

    /// What a lookup of `key` gives.
    pub open spec fn value_of(self, key: K) -> Option<V> {
        if self.entries().contains_key(key) {
            Some(self.entries()[key])
        } else {
            None
        }
    }
}

impl<K: BitKey, V> View for CritBit<K, V> {
    type V = Map<K, V>;

    open spec fn view(&self) -> Map<K, V> {
        self.entries()
    }
}

impl<K: BitKey, V> CritBit<K, V> {
    /// Looks `key` up.
    pub fn find(&self, key: &K) -> (found: Option<&V>)
        requires
            self.wf(),
        ensures
            found == match self.value_of(*key) {
                Some(v) => Some(&v),
                None => None,
            },
        decreases self,
    {
        match self {
            Leaf(k, v) => {
                if k.same(key) {
                    Some(v)
                } else {
                    None
                }
            },
            Internal((left, right), crit) => {
                proof {
                    self.lemma_side(*key);
                }
                if bit_at(key, crit) {
                    right.find(key)
                } else {
                    left.find(key)
                }
            },
            Empty => None,
        }
    }

    /// Whether `key` has an entry.
    pub fn contains_key(&self, key: &K) -> (present: bool)
        requires
            self.wf(),
        ensures
            present == self@.contains_key(*key),
    {
        self.find(key).is_some()
    }

    /// Drops every entry.
    pub fn clear(&mut self)
        ensures
            final(self).wf(),
            *final(self) == Empty::<K, V>,
            final(self)@ == Map::<K, V>::empty(),
    {
        *self = Empty;
    }

    /// The number of entries, counted leaf by leaf.
    pub fn len(&self) -> (count: usize)
        requires
            self.wf(),
            self@.len() <= usize::MAX,
        ensures
            count == self@.len(),
        decreases self,
    {
        proof {
            self.lemma_leaves();
        }
        match self {
            Empty => 0,
            Leaf(_, _) => 1,
            Internal((left, right), _) => {
                proof {
                    left.lemma_leaves();
                    right.lemma_leaves();
                }
                left.len() + right.len()
            },
        }
    }

    /// A well-formed trie holds finitely many entries, one for each leaf.
    pub proof fn lemma_leaves(self)
        requires
            self.wf(),
        ensures
            self@.dom().finite(),
            self@.len() == self.leaves(),
        decreases self,
    {
        match self {
            Empty => {},
            Leaf(k, v) => {
            },
            Internal((left, right), crit) => {
                left.lemma_leaves();
                right.lemma_leaves();
                assert(self@.dom() =~= left@.dom().union(right@.dom()));
                vstd::set_lib::lemma_set_disjoint_lens(left@.dom(), right@.dom());
            },
        }
    }

    /// Whether every key of the trie has `expected` as its bit at `pos`.
    pub fn all_have_bit(&self, pos: &K, expected: bool) -> (all: bool)
        requires
            pos.index() < K::width(),
        ensures
            all == self.uniform_at(pos.index(), expected),
        decreases self,
    {
        proof {
            lemma_small_mod(pos.index(), K::width());
        }
        match self {
            Empty => true,
            Leaf(k, _) => {
                assert(self.entries().contains_key(*k));
                bit_at(k, pos) == expected
            },
            Internal((left, right), _) => {
                let on_left = left.all_have_bit(pos, expected);
                let on_right = right.all_have_bit(pos, expected);
                proof {
                    if on_left && on_right {
                        assert forall|k: K| #[trigger]
                            self.entries().contains_key(k) implies k.bit(pos.index())
                            == expected by {
                            assert(left.entries().contains_key(k) || right.entries().contains_key(
                                k,
                            ));
                        }
                    }
                    if self.uniform_at(pos.index(), expected) {
                        assert forall|k: K| #[trigger]
                            left.entries().contains_key(k) implies k.bit(pos.index())
                            == expected by {
                            assert(self.entries().contains_key(k));
                        }
                        assert forall|k: K| #[trigger]
                            right.entries().contains_key(k) implies k.bit(pos.index())
                            == expected by {
                            assert(self.entries().contains_key(k));
                        }
                    }
                }
                on_left && on_right
            },
        }
    }

    /// Whether the subtrie holds an entry and keeps the branching discipline.
    pub fn is_populated(&self) -> (holds: bool)
        ensures
            holds == self.populated(),
        decreases self,
    {
        match self {
            Empty => false,
            Leaf(_, _) => true,
            Internal((left, right), crit) => {
                crit.in_width() && left.is_populated() && right.is_populated()
                    && left.all_have_bit(crit, false) && right.all_have_bit(crit, true)
            },
        }
    }

    /// Whether the trie is well-formed.
    pub fn is_wf(&self) -> (holds: bool)
        ensures
            holds == self.wf(),
    {
        match self {
            Empty => true,
            _ => self.is_populated(),
        }
    }

    /// Looks `key` up for writing: what the caller stores through the
    /// reference becomes the value of `key`, and nothing else changes.
    pub fn find_mut(&mut self, key: &K) -> (found: Option<&mut V>)
        requires
            old(self).wf(),
        ensures
            final(self).wf(),
            match found {
                Some(slot) => {
                    &&& old(self).value_of(*key) == Some(*slot)
                    &&& *final(self) == old(self).with_entry(*key, *final(slot))
                    &&& final(self)@ == old(self)@.insert(*key, *final(slot))
                },
                None => old(self).value_of(*key) is None && *final(self) == *old(self),
            },
        decreases *old(self),
    {
        match self {
            Leaf(k, v) => {
                if k.same(key) {
                    proof {
                        old(self).lemma_with_entry(*key, *final(v));
                    }
                    Some(v)
                } else {
                    None
                }
            },
            Internal((left, right), crit) => {
                proof {
                    old(self).lemma_side(*key);
                }
                let found = if bit_at(key, crit) {
                    right.find_mut(key)
                } else {
                    left.find_mut(key)
                };
                proof {
                    if found is Some {
                        old(self).lemma_with_entry(*key, *final(found->Some_0));
                    }
                }
                found
            },
            Empty => None,
        }
    }

    /// Inserts `value` under `key`, and returns the value that `key` had before.
    ///
    /// A leaf with another key is split: an internal node takes its place, at
    /// the critical bit of the two keys, with the smaller key on the left.
    pub fn swap(&mut self, key: K, value: V) -> (previous: Option<V>)
        requires
            old(self).wf(),
        ensures
            final(self).wf(),
            final(self).populated(),
            *final(self) == old(self).with_entry(key, value),
            final(self)@ == old(self)@.insert(key, value),
            previous == old(self).value_of(key),
        decreases *old(self),
    {
        proof {
            old(self).lemma_with_entry(key, value);
        }
        let mut node = Empty;
        std::mem::swap(self, &mut node);
        match node {
            Empty => {
                *self = Leaf(key, value);
                None
            },
            Leaf(k, v) => {
                if k.same(&key) {
                    *self = Leaf(key, value);
                    Some(v)
                } else {
                    let crit = k.critical_bit(&key);
                    if k.below(&key) {
                        *self = Internal((Box::new(Leaf(k, v)), Box::new(Leaf(key, value))), crit);
                    } else {
                        *self = Internal((Box::new(Leaf(key, value)), Box::new(Leaf(k, v))), crit);
                    }
                    None
                }
            },
            Internal((mut left, mut right), crit) => {
                proof {
                    old(self).lemma_side(key);
                }
                let previous = if bit_at(&key, &crit) {
                    right.swap(key, value)
                } else {
                    left.swap(key, value)
                };
                *self = Internal((left, right), crit);
                previous
            },
        }
    }

    /// Removes the entry of `key`, and returns its value.
    ///
    /// An internal node that loses one side gives its place to the other
    /// side. Where `key` has no entry the trie stays as it is.
    pub fn pop(&mut self, key: &K) -> (removed: Option<V>)
        requires
            old(self).wf(),
        ensures
            final(self).wf(),
            *final(self) == old(self).without(*key),
            final(self)@ == old(self)@.remove(*key),
            removed == old(self).value_of(*key),
            removed is None ==> *final(self) == *old(self),
        decreases *old(self),
    {
        proof {
            old(self).lemma_without(*key);
        }
        let mut node = Empty;
        std::mem::swap(self, &mut node);
        match node {
            Empty => None,
            Leaf(k, v) => {
                if k.same(key) {
                    Some(v)
                } else {
                    *self = Leaf(k, v);
                    None
                }
            },
            Internal((mut left, mut right), crit) => {
                proof {
                    old(self).lemma_side(*key);
                }
                if bit_at(key, &crit) {
                    let removed = right.pop(key);
                    match *right {
                        Empty => {
                            *self = *left;
                        },
                        rest => {
                            *self = Internal((left, Box::new(rest)), crit);
                        },
                    }
                    removed
                } else {
                    let removed = left.pop(key);
                    match *left {
                        Empty => {
                            *self = *right;
                        },
                        rest => {
                            *self = Internal((Box::new(rest), right), crit);
                        },
                    }
                    removed
                }
            },
        }
    }

    /// Storing an entry keeps the trie populated, and adds the entry to its
    /// entries.
    pub proof fn lemma_with_entry(self, key: K, value: V)
        requires
            self.wf(),
        ensures
            self.with_entry(key, value).populated(),
            self.with_entry(key, value).entries() == self.entries().insert(key, value),
        decreases self,
    {
        match self {
            Empty => {},
            Leaf(k, v) => {
                if k != key {
                    K::lemma_crit(k, key);
                    let kept = Leaf::<K, V>(k, v);
                    let added = Leaf::<K, V>(key, value);
                    assert(added.entries() =~= Map::empty().insert(key, value));
                    assert(kept.populated() && added.populated());
                }
            },
            Internal((left, right), crit) => {
                self.lemma_side(key);
                if key.bit(crit.index()) {
                    right.lemma_with_entry(key, value);
                } else {
                    left.lemma_with_entry(key, value);
                }
            },
        }
    }

    /// Removing a key keeps the trie well-formed, and removes the key from its
    /// entries; a trie that does not hold the key stays as it is.
    pub proof fn lemma_without(self, key: K)
        requires
            self.wf(),
        ensures
            self.without(key).wf(),
            self.without(key).entries() == self.entries().remove(key),
            !self.entries().contains_key(key) ==> self.without(key) == self,
        decreases self,
    {
        match self {
            Empty => {},
            Leaf(_, _) => {},
            Internal((left, right), crit) => {
                self.lemma_side(key);
                if key.bit(crit.index()) {
                    right.lemma_without(key);
                } else {
                    left.lemma_without(key);
                }
            },
        }
    }

    /// A populated trie holds an entry.
    pub proof fn lemma_inhabited(self)
        requires
            self.populated(),
        ensures
            exists|k: K| self.entries().contains_key(k),
        decreases self,
    {
        match self {
            Empty => {},
            Leaf(k, _) => {
                assert(self.entries().contains_key(k));
            },
            Internal((left, _), _) => {
                left.lemma_inhabited();
                let k = choose|k: K| left.entries().contains_key(k);
                assert(self.entries().contains_key(k));
            },
        }
    }

    /// No way down a populated trie branches twice at one position: where the
    /// keys of the trie agree at each position of `fixed`, the depth and the
    /// size of `fixed` together stay within the width of a key.
    pub proof fn lemma_depth_with_fixed(self, fixed: Set<int>)
        requires
            self.populated(),
            fixed.finite(),
            forall|p: int| #[trigger]
                fixed.contains(p) ==> 0 <= p < K::width() && (self.uniform_at(p as nat, false)
                    || self.uniform_at(p as nat, true)),
        ensures
            self.depth() + fixed.len() <= K::width(),
        decreases self,
    {
        match self {
            Empty => {},
            Leaf(_, _) => {
                let all = set_int_range(0, K::width() as int);
                lemma_int_range(0, K::width() as int);
                lemma_len_subset(fixed, all);
            },
            Internal((left, right), crit) => {
                let c = crit.index() as int;
                left.lemma_inhabited();
                right.lemma_inhabited();
                let on_left = choose|k: K| left.entries().contains_key(k);
                let on_right = choose|k: K| right.entries().contains_key(k);
                assert(self.entries().contains_key(on_left));
                assert(self.entries().contains_key(on_right));
                let more = fixed.insert(c);
                assert forall|p: int| #[trigger] more.contains(p) implies 0 <= p < K::width() && (
                left.uniform_at(p as nat, false) || left.uniform_at(p as nat, true)) && (
                right.uniform_at(p as nat, false) || right.uniform_at(p as nat, true)) by {
                    if p != c {
                        let b = self.uniform_at(p as nat, true);
                        assert forall|k: K| #[trigger] left.entries().contains_key(k) implies k.bit(
                            p as nat,
                        ) == b by {
                            assert(self.entries().contains_key(k));
                        }
                        assert forall|k: K| #[trigger] right.entries().contains_key(k) implies k.bit(
                            p as nat,
                        ) == b by {
                            assert(self.entries().contains_key(k));
                        }
                    }
                }
                left.lemma_depth_with_fixed(more);
                right.lemma_depth_with_fixed(more);
            },
        }
    }

    /// The depth of a populated trie is at most the width of a key.
    pub proof fn lemma_depth(self)
        requires
            self.populated(),
        ensures
            self.depth() <= K::width(),
    {
        self.lemma_depth_with_fixed(Set::empty());
    }

    /// Below an internal node a key can only be on the side that its critical
    /// bit names, and the node holds for it what that side holds.
    pub proof fn lemma_side(self, key: K)
        requires
            self.populated(),
            self is Internal,
        ensures
            self.branch_bit() % K::width() == self.branch_bit(),
            key.bit(self.branch_bit()) ==> !self.left().entries().contains_key(key)
                && self.value_of(key) == self.right().value_of(key),
            !key.bit(self.branch_bit()) ==> !self.right().entries().contains_key(key)
                && self.value_of(key) == self.left().value_of(key),
    {
        lemma_small_mod(self.branch_bit(), K::width());
    }
}

} // verus!
