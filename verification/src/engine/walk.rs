//! Walking through a map.

use std::collections::{HashMap, HashSet};
use std::hash::Hash;
use vstd::prelude::*;
use vstd::std_specs::hash::*;
use vstd::std_specs::iter::IteratorSpec;

verus! {

/// The keys of a map, in some order, each once.
pub fn key_list<K: Copy + Eq + Hash, V>(m: &HashMap<K, V>) -> (keys: Vec<K>)
    requires
        obeys_key_model::<K>(),
    ensures
        keys@.no_duplicates(),
        keys@.to_set() == m@.dom(),
        forall|k: K| #[trigger] keys@.contains(k) <==> m@.contains_key(k),
{
    broadcast use group_hash_axioms;

    let mut keys: Vec<K> = Vec::new();
    let ghost all = spec_keys_iter(m).remaining().unref();
    for k in it: m.keys()
        invariant
            all == it.seq().unref(),
            all.to_set() == m@.dom(),
            it.seq().no_duplicates(),
            keys@.len() == it.index(),
            forall|i: int| 0 <= i < keys@.len() ==> keys@[i] == *it.seq()[i],
    {
        keys.push(*k);
    }
    proof {
        assert(keys@ =~= all);
        assert forall|k: K| #[trigger] keys@.contains(k) <==> m@.contains_key(k) by {
            assert(all.to_set().contains(k) <==> all.contains(k));
        }
    }
    keys
}

/// A copy of a set.
pub fn copy_set(set: &HashSet<i64>) -> (copy: HashSet<i64>)
    ensures
        copy@ == set@,
{
    broadcast use group_hash_axioms;

    let mut copy: HashSet<i64> = HashSet::new();
    let ghost all = spec_hash_keys_iter(set).remaining().unref();
    assert(copy@ =~= all.take(0).to_set());
    for k in it: set.iter()
        invariant
            all == it.seq().unref(),
            all.to_set() == set@,
            copy@ == all.take(it.index() as int).to_set(),
    {
        broadcast use group_hash_axioms;

        proof {
            let i = it.index() as int;
            let part = all.take(i);
            assert(all[i] == *k);
            assert(all.take(i + 1) =~= part.push(*k));
            lemma_push_to_set(part, *k);
        }
        copy.insert(*k);
    }
    assert(all.take(all.len() as int) =~= all);
    copy
}

/// A longer list holds one more.
proof fn lemma_push_to_set(list: Seq<i64>, k: i64)
    ensures
        list.push(k).to_set() == list.to_set().insert(k),
{
    let more = list.push(k);
    assert forall|x: i64| more.contains(x) <==> list.contains(x) || x == k by {
        if list.contains(x) {
            let j = choose|j: int| 0 <= j < list.len() && list[j] == x;
            assert(more[j] == x);
        }
        assert(more[list.len() as int] == k);
        if more.contains(x) && x != k {
            let j = choose|j: int| 0 <= j < more.len() && more[j] == x;
            assert(list[j] == x);
        }
    }
    assert(more.to_set() =~= list.to_set().insert(k));
}

/// One key more of a list.
pub proof fn lemma_next_key<K>(keys: Seq<K>, i: int)
    requires
        keys.no_duplicates(),
        0 <= i < keys.len(),
    ensures
        keys.contains(keys[i]),
        !keys.take(i).contains(keys[i]),
        forall|x: K| #[trigger]
            keys.take(i + 1).contains(x) <==> keys.take(i).contains(x) || x == keys[i],
{
    let done = keys.take(i);
    let k = keys[i];
    if done.contains(k) {
        let j = choose|j: int| 0 <= j < i && done[j] == k;
        assert(keys[j] == keys[i]);
    }
    let more = keys.take(i + 1);
    assert forall|x: K| #[trigger] more.contains(x) <==> done.contains(x) || x == k by {
        if done.contains(x) {
            let j = choose|j: int| 0 <= j < done.len() && done[j] == x;
            assert(more[j] == x);
        }
        assert(more[i] == k);
        if more.contains(x) {
            let j = choose|j: int| 0 <= j < more.len() && more[j] == x;
            if j < i {
                assert(done[j] == x);
            }
        }
    }
}

} // verus!
