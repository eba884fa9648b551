//! Putting things in order.

use vstd::prelude::*;

verus! {

/// Whether place `a` stands before place `b`: it has the larger key, or the same key and came first.
pub open spec fn stands_before(keys: Seq<i64>, a: int, b: int) -> bool {
    keys[a] > keys[b] || (keys[a] == keys[b] && a < b)
}

/// Whether `order` lists the places of `keys`, each once, from the largest key down, equal ones as
/// they came.
pub open spec fn is_descending(keys: Seq<i64>, order: Seq<usize>) -> bool {
    &&& order.len() == keys.len()
    &&& order.no_duplicates()
    &&& forall|i: int| 0 <= i < order.len() ==> (#[trigger] order[i]) < keys.len()
    &&& forall|i: int, j: int|
        0 <= i < j < order.len() ==> stands_before(keys, #[trigger] order[i] as int, #[trigger]
            order[j] as int)
}

/// The places of `keys` from the largest key down, equal ones as they came.
pub fn order_desc(keys: &Vec<i64>) -> (order: Vec<usize>)
    ensures
        is_descending(keys@, order@),
{
    let n: usize = keys.len();
    let mut order: Vec<usize> = Vec::new();
    for i in 0..n
        invariant
            n == keys@.len(),
            order@.len() == i,
            order@.no_duplicates(),
            forall|a: int| 0 <= a < order@.len() ==> (#[trigger] order@[a]) < i,
            forall|a: int, b: int|
                0 <= a < b < order@.len() ==> stands_before(
                    keys@,
                    #[trigger] order@[a] as int,
                    #[trigger] order@[b] as int,
                ),
    {
        let mut p: usize = i;
        while p > 0 && keys[order[p - 1]] < keys[i]
            invariant
                p <= i < n,
                n == keys@.len(),
                order@.len() == i,
                forall|a: int| 0 <= a < order@.len() ==> (#[trigger] order@[a]) < i,
                forall|a: int| p <= a < i ==> keys@[#[trigger] order@[a] as int] < keys@[i as int],
            decreases p,
        {
            p -= 1;
        }
        let ghost before = order@;
        order.insert(p, i);
        proof {
            assert(order@ =~= before.insert(p as int, i));
            assert forall|a: int| 0 <= a < p implies keys@[#[trigger] before[a] as int]
                >= keys@[i as int] by {
                if a < p - 1 {
                    assert(stands_before(keys@, before[a] as int, before[p - 1] as int));
                }
            }
            assert forall|a: int, b: int| 0 <= a < b < order@.len() implies stands_before(
                keys@,
                #[trigger] order@[a] as int,
                #[trigger] order@[b] as int,
            ) by {
                let x = if a < p {
                    a
                } else {
                    a - 1
                };
                let y = if b < p {
                    b
                } else {
                    b - 1
                };
                if a != p {
                    assert(order@[a] == before[x]);
                }
                if b != p {
                    assert(order@[b] == before[y]);
                }
            }
        }
    }
    order
}

/// Only one list is the order.
pub proof fn law_order_is_unique(keys: Seq<i64>, a: Seq<usize>, b: Seq<usize>)
    requires
        is_descending(keys, a),
        is_descending(keys, b),
    ensures
        a == b,
{
    lemma_order_prefix(keys, a, b, keys.len() as int);
    assert(a =~= b);
}

/// Each place occurs in an order.
pub proof fn lemma_order_holds_all(keys: Seq<i64>, order: Seq<usize>, k: int)
    requires
        is_descending(keys, order),
        0 <= k < keys.len(),
    ensures
        exists|i: int| 0 <= i < order.len() && #[trigger] order[i] == k,
{
    let s = order.map_values(|x: usize| x as int);
    assert forall|i: int, j: int| 0 <= i < s.len() && 0 <= j < s.len() && i != j implies s[i]
        != s[j] by {
        assert(order[i] != order[j]);
    }
    s.unique_seq_to_set();
    let all = vstd::set_lib::set_int_range(0, keys.len() as int);
    vstd::set_lib::lemma_int_range(0, keys.len() as int);
    assert(s.to_set().subset_of(all)) by {
        assert forall|x: int| s.to_set().contains(x) implies all.contains(x) by {
            let i = choose|i: int| 0 <= i < s.len() && s[i] == x;
            assert(order[i] < keys.len());
        }
    }
    vstd::set_lib::lemma_subset_equality(s.to_set(), all);
    assert(s.to_set().contains(k));
    let i = choose|i: int| 0 <= i < s.len() && s[i] == k;
    assert(order[i] == k);
}

proof fn lemma_order_prefix(keys: Seq<i64>, a: Seq<usize>, b: Seq<usize>, n: int)
    requires
        is_descending(keys, a),
        is_descending(keys, b),
        0 <= n <= keys.len(),
    ensures
        forall|i: int| 0 <= i < n ==> a[i] == b[i],
    decreases n,
{
    if n > 0 {
        lemma_order_prefix(keys, a, b, n - 1);
        let m = n - 1;
        if a[m] != b[m] {
            lemma_order_holds_all(keys, b, a[m] as int);
            lemma_order_holds_all(keys, a, b[m] as int);
            let i = choose|i: int| 0 <= i < b.len() && b[i] == a[m] as int;
            let j = choose|j: int| 0 <= j < a.len() && a[j] == b[m] as int;
            assert(i > m) by {
                if i < m {
                    assert(a[i] == b[i]);
                }
            }
            assert(j > m) by {
                if j < m {
                    assert(a[j] == b[j]);
                }
            }
            assert(stands_before(keys, b[m] as int, b[i] as int));
            assert(stands_before(keys, a[m] as int, a[j] as int));
        }
    }
}

} // verus!
