//! Laws of the operations, stated over the entries of the tries involved.

use crate::key::BitKey;
use crate::tree::{CritBit, Empty, Internal, Leaf};
use vstd::prelude::*;

verus! {

/// One insertion of a run: `states[i + 1]` is what `swap` makes of
/// `states[i]` when it is given `keys[i]` and `values[i]`.
pub open spec fn inserted_at<K: BitKey, V>(
    states: Seq<CritBit<K, V>>,
    keys: Seq<K>,
    values: Seq<V>,
    i: int,
) -> bool {
    states[i + 1].entries() == states[i].entries().insert(keys[i], values[i])
}

/// A run of insertions, one for each key, each into the state that the one
/// before it left.
pub open spec fn inserted_in_turn<K: BitKey, V>(
    states: Seq<CritBit<K, V>>,
    keys: Seq<K>,
    values: Seq<V>,
) -> bool {
    &&& states.len() == keys.len() + 1
    &&& values.len() == keys.len()
    &&& forall|i: int| 0 <= i < keys.len() ==> #[trigger] inserted_at(states, keys, values, i)
}

/// Whether `k` is among the first `n` keys.
pub open spec fn among<K>(keys: Seq<K>, n: int, k: K) -> bool {
    exists|i: int| 0 <= i < n && keys[i] == k
}

/// Whether the key at `i` does not come again among the first `n` keys.
pub open spec fn last_of_its_key<K>(keys: Seq<K>, n: int, i: int) -> bool {
    0 <= i < n && forall|j: int| i < j < n ==> keys[j] != keys[i]
}

/// In a well-formed trie every internal node has two populated sides, and
/// branches at a position of the key that is clear in every key on its left
/// and set in every key on its right.
pub proof fn law_branching<K: BitKey, V>(trie: CritBit<K, V>, node: CritBit<K, V>)
    requires
        trie.wf(),
        trie.has_node(node),
        node is Internal,
    ensures
        node.left().populated(),
        node.right().populated(),
        node.branch_bit() < K::width(),
        node.left().uniform_at(node.branch_bit(), false),
        node.right().uniform_at(node.branch_bit(), true),
    decreases trie,
{
    if trie != node {
        if trie.left().has_node(node) {
            law_branching(trie.left(), node);
        } else {
            law_branching(trie.right(), node);
        }
    }
}

/// The empty trie is well-formed and has no entries: its length is zero, no
/// key has a value in it, and removing a key leaves it empty.
pub proof fn law_empty<K: BitKey, V>(key: K)
    ensures
        Empty::<K, V>.wf(),
        Empty::<K, V>@.len() == 0,
        Empty::<K, V>.value_of(key) is None,
        !Empty::<K, V>@.contains_key(key),
        Empty::<K, V>@.remove(key) == Empty::<K, V>@,
{
}

/// After the first `n` insertions of a run that starts from the empty trie,
/// the keys of the trie are the first `n` keys, each with the value of its
/// last insertion.
pub proof fn lemma_insertions_prefix<K: BitKey, V>(
    states: Seq<CritBit<K, V>>,
    keys: Seq<K>,
    values: Seq<V>,
    n: int,
)
    requires
        states.len() > 0,
        states[0] is Empty,
        inserted_in_turn(states, keys, values),
        0 <= n <= keys.len(),
    ensures
        forall|k: K| states[n]@.contains_key(k) <==> among(keys, n, k),
        forall|i: int| #[trigger]
            last_of_its_key(keys, n, i) ==> states[n]@.contains_key(keys[i]) && states[n]@[keys[i]]
                == values[i],
    decreases n,
{
    if n > 0 {
        let m = n - 1;
        lemma_insertions_prefix(states, keys, values, m);
        assert(inserted_at(states, keys, values, m));
        assert forall|k: K| states[n]@.contains_key(k) <==> among(keys, n, k) by {
            if among(keys, n, k) {
                let i = choose|i: int| 0 <= i < n && keys[i] == k;
            }
            if among(keys, m, k) {
                let i = choose|i: int| 0 <= i < m && keys[i] == k;
            }
        }
        assert forall|i: int| #[trigger] last_of_its_key(keys, n, i) implies states[n]@.contains_key(
            keys[i],
        ) && states[n]@[keys[i]] == values[i] by {
            if i < m {
                assert(last_of_its_key(keys, m, i));
            }
        }
    }
}

/// After a run of insertions into the empty trie the keys of the trie are the
/// keys inserted, so its length is the number of distinct keys among them, and
/// each key has the value of its last insertion. Where no key was inserted
/// twice, the length is the number of insertions.
pub proof fn law_insertions<K: BitKey, V>(
    states: Seq<CritBit<K, V>>,
    keys: Seq<K>,
    values: Seq<V>,
)
    requires
        states.len() > 0,
        states[0] is Empty,
        inserted_in_turn(states, keys, values),
    ensures
        states.last()@.dom() == keys.to_set(),
        states.last()@.len() == keys.to_set().len(),
        keys.no_duplicates() ==> states.last()@.len() == keys.len(),
        forall|i: int| #[trigger]
            last_of_its_key(keys, keys.len() as int, i) ==> states.last().value_of(keys[i]) == Some(
                values[i],
            ),
{
    let n = keys.len() as int;
    lemma_insertions_prefix(states, keys, values, n);
    assert(states.last()@.dom() =~= keys.to_set()) by {
        assert forall|k: K| states[n]@.dom().contains(k) <==> keys.to_set().contains(k) by {
            assert(states[n]@.contains_key(k) <==> among(keys, n, k));
        }
    }
    if keys.no_duplicates() {
        keys.unique_seq_to_set();
    }
}

/// Inserting under a key that has an entry keeps the keys and the length, and
/// gives the key the new value; the value it had is what a lookup gave
/// before.
pub proof fn law_reinsert<K: BitKey, V>(
    before: CritBit<K, V>,
    after: CritBit<K, V>,
    key: K,
    value: V,
)
    requires
        before.wf(),
        before@.contains_key(key),
        after@ == before@.insert(key, value),
    ensures
        before.value_of(key) == Some(before@[key]),
        after@.dom() == before@.dom(),
        after@.len() == before@.len(),
        after.value_of(key) == Some(value),
{
}

/// Removing a key that has an entry shortens the trie by exactly one entry,
/// leaves the key without a value, and leaves every other key as it was.
pub proof fn law_remove_present<K: BitKey, V>(
    before: CritBit<K, V>,
    after: CritBit<K, V>,
    key: K,
)
    requires
        before.wf(),
        before@.contains_key(key),
        after@ == before@.remove(key),
    ensures
        before.value_of(key) == Some(before@[key]),
        after@.len() == before@.len() - 1,
        after.value_of(key) is None,
        !after@.contains_key(key),
        forall|other: K| other != key ==> after.value_of(other) == before.value_of(other),
{
    before.lemma_leaves();
}

/// Removing a key after inserting it leaves the entries that a trie without
/// the key had; where the key had no entry before, the trie is again the very
/// trie it was.
pub proof fn law_insert_then_remove<K: BitKey, V>(trie: CritBit<K, V>, key: K, value: V)
    requires
        trie.wf(),
    ensures
        trie.with_entry(key, value).without(key).wf(),
        trie.with_entry(key, value).without(key)@ == trie@.remove(key),
        !trie@.contains_key(key) ==> trie.with_entry(key, value).without(key) == trie,
    decreases trie,
{
    let grown = trie.with_entry(key, value);
    trie.lemma_with_entry(key, value);
    grown.lemma_without(key);
    assert(grown.without(key)@ =~= trie@.remove(key));
    if !trie@.contains_key(key) {
        match trie {
            Empty => {},
            Leaf(k, v) => {
                assert(trie@.contains_key(k));
                K::lemma_crit(k, key);
                let added = Leaf::<K, V>(key, value);
                assert(added.without(key) is Empty);
                if k.index() < key.index() {
                    assert(grown.right() == added && grown.left() == trie);
                } else {
                    assert(grown.left() == added && grown.right() == trie);
                }
            },
            Internal((left, right), crit) => {
                trie.lemma_side(key);
                if key.bit(crit.index()) {
                    law_insert_then_remove(*right, key, value);
                    assert(grown.right() == right.with_entry(key, value));
                    assert(grown.right().without(key) == *right);
                } else {
                    law_insert_then_remove(*left, key, value);
                    assert(grown.left() == left.with_entry(key, value));
                    assert(grown.left().without(key) == *left);
                }
            },
        }
    }
}

/// Removing a key that has no entry changes nothing.
pub proof fn law_remove_absent<K: BitKey, V>(before: CritBit<K, V>, key: K)
    requires
        before.wf(),
        !before@.contains_key(key),
    ensures
        before.value_of(key) is None,
        before@.remove(key) == before@,
{
}

} // verus!
