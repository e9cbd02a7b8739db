//! The keys of a hash map, as a vector.
use vstd::prelude::*;
use std::collections::HashMap;
use vstd::std_specs::iter::IteratorSpec;

verus! {

broadcast use vstd::std_specs::hash::group_hash_axioms;

/// The keys of `map`, each once, in the order in which the map hands them out.
pub fn keys_of<V>(map: &HashMap<u64, V>) -> (keys: Vec<u64>)
    ensures
        keys@.no_duplicates(),
        keys@.to_set() == map@.dom(),
        keys@.len() == map@.dom().len(),
{
    let mut keys: Vec<u64> = Vec::new();
    let ghost all = map.keys().remaining();
    for k in it: map.keys()
        invariant
            it.seq() == all,
            keys@.len() == it.index(),
            forall|j: int| 0 <= j < keys@.len() ==> keys@[j] == *it.seq()[j],
    {
        keys.push(*k);
    }
    assert(keys@ =~= all.unref());
    keys
}

/// Among keys that come each once, the key at `n` is not among the first
/// `n`, and the first `n + 1` keys are the first `n` and that one.
pub proof fn lemma_take_next(keys: Seq<u64>, n: int)
    requires
        0 <= n < keys.len(),
        keys.no_duplicates(),
    ensures
        keys.contains(keys[n]),
        !keys.take(n).contains(keys[n]),
        forall|id: u64| keys.take(n + 1).contains(id) <==> (keys.take(n).contains(id) || id == keys[n]),
{
    assert(keys.take(n + 1) == keys.take(n).push(keys[n]));
    assert forall|id: u64| keys.take(n + 1).contains(id) <==> (keys.take(n).contains(id) || id
        == keys[n]) by {
        if keys.take(n).contains(id) {
            let j = choose|j: int| 0 <= j < keys.take(n).len() && keys.take(n)[j] == id;
            assert(keys.take(n + 1)[j] == id);
        }
        if id == keys[n] {
            assert(keys.take(n + 1)[n] == id);
        }
    }
}

/// A key that is new, put behind keys that come each once, leaves keys
/// that come each once: those that were there, and the new one.
pub proof fn lemma_push_new(keys: Seq<u64>, k: u64)
    requires
        keys.no_duplicates(),
        !keys.contains(k),
    ensures
        keys.push(k).no_duplicates(),
        forall|id: u64| keys.push(k).contains(id) <==> (keys.contains(id) || id == k),
{
    let after = keys.push(k);
    assert forall|i: int, j: int| 0 <= i < j < after.len() implies after[i] != after[j] by {
        if j == keys.len() {
            assert(keys.contains(keys[i]));
        }
    }
    assert forall|id: u64| after.contains(id) <==> (keys.contains(id) || id == k) by {
        if after.contains(id) {
            let j = choose|j: int| 0 <= j < after.len() && after[j] == id;
            if j < keys.len() {
                assert(keys[j] == id);
            }
        }
        if keys.contains(id) {
            let j = choose|j: int| 0 <= j < keys.len() && keys[j] == id;
            assert(after[j] == id);
        }
        if id == k {
            assert(after[keys.len() as int] == id);
        }
    }
}

} // verus!
