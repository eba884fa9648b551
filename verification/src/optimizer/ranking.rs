//! The order of solutions and the collector of the best ones.

use crate::optimizer::accum::{key_view, Key};
use vstd::multiset::Multiset;
use vstd::prelude::*;

verus! {

/// Whether `a` comes before `b` in lexicographic order (a proper prefix comes first).
pub open spec fn lex_lt(a: Seq<int>, b: Seq<int>) -> bool
    decreases a.len(),
{
    if b.len() == 0 {
        false
    } else if a.len() == 0 {
        true
    } else if a[0] != b[0] {
        a[0] < b[0]
    } else {
        lex_lt(a.drop_first(), b.drop_first())
    }
}

/// A ranked combination: its key, and the positions of its modules among the candidates.
pub struct Entry {
    pub key: Seq<int>,
    pub combo: Seq<int>,
}

/// Whether `x` ranks before `y`: by the larger key, then by the combination that comes first.
pub open spec fn better(x: Entry, y: Entry) -> bool {
    lex_lt(y.key, x.key) || (x.key == y.key && lex_lt(x.combo, y.combo))
}

/// `list` holds the best `cap` entries of `all`, the best one first.
pub open spec fn is_top(list: Seq<Entry>, cap: nat, all: Set<Entry>) -> bool {
    &&& list.len() <= cap
    &&& forall|i: int, j: int| 0 <= i < j < list.len() ==> better(list[i], list[j])
    &&& forall|i: int| 0 <= i < list.len() ==> all.contains(#[trigger] list[i])
    &&& forall|e: Entry| #[trigger]
        all.contains(e) && !list.contains(e) ==> list.len() == cap && forall|i: int|
            0 <= i < list.len() ==> better(#[trigger] list[i], e)
}

pub proof fn lemma_lex_irreflexive(a: Seq<int>)
    ensures
        !lex_lt(a, a),
    decreases a.len(),
{
    if a.len() > 0 {
        lemma_lex_irreflexive(a.drop_first());
    }
}

pub proof fn lemma_lex_transitive(a: Seq<int>, b: Seq<int>, c: Seq<int>)
    requires
        lex_lt(a, b),
        lex_lt(b, c),
    ensures
        lex_lt(a, c),
    decreases a.len(),
{
    if a.len() > 0 && b.len() > 0 && c.len() > 0 && a[0] == b[0] && b[0] == c[0] {
        lemma_lex_transitive(a.drop_first(), b.drop_first(), c.drop_first());
    }
}

pub proof fn lemma_lex_total(a: Seq<int>, b: Seq<int>)
    ensures
        a == b || lex_lt(a, b) || lex_lt(b, a),
    decreases a.len(),
{
    if a.len() == 0 && b.len() == 0 {
        assert(a =~= b);
    } else if a.len() > 0 && b.len() > 0 && a[0] == b[0] {
        lemma_lex_total(a.drop_first(), b.drop_first());
        if a.drop_first() == b.drop_first() {
            assert(a =~= seq![a[0]] + a.drop_first());
            assert(b =~= seq![b[0]] + b.drop_first());
        }
    }
}

/// A sequence that is nowhere larger does not come later.
pub proof fn lemma_lex_pointwise(a: Seq<int>, b: Seq<int>)
    requires
        a.len() == b.len(),
        forall|i: int| 0 <= i < a.len() ==> #[trigger] a[i] <= b[i],
    ensures
        a == b || lex_lt(a, b),
    decreases a.len(),
{
    if a.len() == 0 {
        assert(a =~= b);
    } else {
        assert(a[0] <= b[0]);
        if a[0] == b[0] {
            let c = a.drop_first();
            let d = b.drop_first();
            assert forall|i: int| 0 <= i < c.len() implies #[trigger] c[i] <= d[i] by {
                assert(a[i + 1] <= b[i + 1]);
            }
            lemma_lex_pointwise(c, d);
            if c == d {
                assert(a =~= seq![a[0]] + c);
                assert(b =~= seq![b[0]] + d);
            }
        }
    }
}

/// Equal beginnings, then a smaller element: the first sequence comes first.
pub proof fn lemma_lex_at(a: Seq<int>, b: Seq<int>, i: int)
    requires
        0 <= i <= a.len(),
        i <= b.len(),
        forall|j: int| 0 <= j < i ==> a[j] == b[j],
    ensures
        i < a.len() && i < b.len() && a[i] < b[i] ==> lex_lt(a, b),
        i < a.len() && i < b.len() && a[i] > b[i] ==> !lex_lt(a, b),
        i == a.len() && i < b.len() ==> lex_lt(a, b),
        i == b.len() ==> !lex_lt(a, b),
    decreases i,
{
    if i > 0 {
        lemma_lex_at(a.drop_first(), b.drop_first(), i - 1);
    }
}

pub proof fn lemma_better_irreflexive(x: Entry)
    ensures
        !better(x, x),
{
    lemma_lex_irreflexive(x.key);
    lemma_lex_irreflexive(x.combo);
}

pub proof fn lemma_better_transitive(x: Entry, y: Entry, z: Entry)
    requires
        better(x, y),
        better(y, z),
    ensures
        better(x, z),
{
    if lex_lt(y.key, x.key) && lex_lt(z.key, y.key) {
        lemma_lex_transitive(z.key, y.key, x.key);
    }
    if lex_lt(x.combo, y.combo) && lex_lt(y.combo, z.combo) {
        lemma_lex_transitive(x.combo, y.combo, z.combo);
    }
}

pub proof fn lemma_better_total(x: Entry, y: Entry)
    ensures
        x == y || better(x, y) || better(y, x),
{
    lemma_lex_total(x.key, y.key);
    lemma_lex_total(x.combo, y.combo);
}

/// The best `cap` entries of a set, in order, are one list only: two lists that both hold them
/// are equal.
pub proof fn law_top_is_unique(a: Seq<Entry>, b: Seq<Entry>, cap: nat, all: Set<Entry>)
    requires
        is_top(a, cap, all),
        is_top(b, cap, all),
    ensures
        a == b,
{
    let m = if a.len() < b.len() {
        a.len()
    } else {
        b.len()
    };
    lemma_top_prefix(a, b, cap, all, m);
    lemma_top_not_shorter(a, b, cap, all);
    lemma_top_not_shorter(b, a, cap, all);
    assert(a =~= b);
}

/// Of two lists with the same beginning, neither is shorter.
proof fn lemma_top_not_shorter(a: Seq<Entry>, b: Seq<Entry>, cap: nat, all: Set<Entry>)
    requires
        is_top(a, cap, all),
        is_top(b, cap, all),
        forall|i: int| 0 <= i < a.len() && i < b.len() ==> a[i] == b[i],
    ensures
        a.len() >= b.len(),
{
    if a.len() < b.len() {
        let e = b[a.len() as int];
        assert(all.contains(e));
        if a.contains(e) {
            let i = choose|i: int| 0 <= i < a.len() && a[i] == e;
            assert(better(b[i], b[a.len() as int]));
            lemma_better_irreflexive(e);
        }
    }
}

proof fn lemma_top_prefix(a: Seq<Entry>, b: Seq<Entry>, cap: nat, all: Set<Entry>, m: nat)
    requires
        is_top(a, cap, all),
        is_top(b, cap, all),
        m <= a.len(),
        m <= b.len(),
    ensures
        forall|i: int| 0 <= i < m ==> a[i] == b[i],
    decreases m,
{
    if m > 0 {
        let k = m - 1;
        lemma_top_prefix(a, b, cap, all, k as nat);
        if a[k] != b[k] {
            lemma_better_total(a[k], b[k]);
            lemma_top_first_difference(a, b, cap, all, k);
            lemma_top_first_difference(b, a, cap, all, k);
        }
    }
}

proof fn lemma_top_first_difference(
    a: Seq<Entry>,
    b: Seq<Entry>,
    cap: nat,
    all: Set<Entry>,
    k: int,
)
    requires
        is_top(a, cap, all),
        is_top(b, cap, all),
        0 <= k < a.len(),
        k < b.len(),
        forall|i: int| 0 <= i < k ==> a[i] == b[i],
    ensures
        !better(a[k], b[k]),
{
    let e = a[k];
    assert(all.contains(e));
    if !better(a[k], b[k]) {
    } else if b.contains(e) {
        let i = choose|i: int| 0 <= i < b.len() && b[i] == e;
        if i < k {
            assert(better(a[i], a[k]));
            lemma_better_irreflexive(e);
        } else if i == k {
            lemma_better_irreflexive(e);
        } else {
            assert(better(b[k], b[i]));
            lemma_better_transitive(e, b[k], e);
            lemma_better_irreflexive(e);
        }
    } else {
        assert(better(b[k], e));
        lemma_better_transitive(e, b[k], e);
        lemma_better_irreflexive(e);
    }
}

/// Entries that rank below a full list change nothing.
pub proof fn lemma_top_grow(list: Seq<Entry>, cap: nat, all: Set<Entry>, more: Set<Entry>)
    requires
        is_top(list, cap, all),
        forall|e: Entry| #[trigger]
            more.contains(e) && !all.contains(e) ==> list.len() == cap && forall|i: int|
                0 <= i < list.len() ==> better(#[trigger] list[i], e),
    ensures
        is_top(list, cap, all.union(more)),
{
    assert forall|e: Entry| #[trigger] all.union(more).contains(e) && !list.contains(e) implies
        list.len() == cap && forall|i: int|
            0 <= i < list.len() ==> better(#[trigger] list[i], e) by {
        if all.contains(e) {
        } else {
            assert(more.contains(e));
        }
    }
}

/// One new entry put into its place, and the list cut to `cap`.
pub proof fn lemma_top_insert(
    list: Seq<Entry>,
    cap: nat,
    all: Set<Entry>,
    e: Entry,
    pos: int,
)
    requires
        is_top(list, cap, all),
        !all.contains(e),
        0 <= pos <= list.len(),
        forall|i: int| 0 <= i < pos ==> better(#[trigger] list[i], e),
        forall|i: int| pos <= i < list.len() ==> better(e, #[trigger] list[i]),
    ensures
        list.len() < cap ==> is_top(list.insert(pos, e), cap, all.insert(e)),
        list.len() == cap && pos < cap ==> is_top(
            list.insert(pos, e).drop_last(),
            cap,
            all.insert(e),
        ),
        list.len() == cap && pos == cap ==> is_top(list, cap, all.insert(e)),
{
    let full = list.insert(pos, e);
    let all2 = all.insert(e);
    assert forall|i: int, j: int| 0 <= i < j < full.len() implies better(full[i], full[j]) by {
        let oi = if i < pos {
            i
        } else {
            i - 1
        };
        let oj = if j < pos {
            j
        } else {
            j - 1
        };
        if i == pos {
            assert(better(e, list[oj]));
        } else if j == pos {
            assert(better(list[oi], e));
        } else {
            assert(better(list[oi], list[oj]));
        }
    }
    assert forall|i: int| 0 <= i < full.len() implies all2.contains(#[trigger] full[i]) by {
        if i < pos {
            assert(all.contains(list[i]));
        } else if i > pos {
            assert(all.contains(list[i - 1]));
        }
    }
    assert forall|x: Entry| list.contains(x) implies #[trigger] full.contains(x) by {
        let i = choose|i: int| 0 <= i < list.len() && list[i] == x;
        if i < pos {
            assert(full[i] == x);
        } else {
            assert(full[i + 1] == x);
        }
    }
    assert(full[pos] == e);
    assert(full.contains(e));
    if list.len() < cap {
        assert forall|x: Entry| #[trigger] all2.contains(x) && !full.contains(x) implies full.len()
            == cap && forall|i: int|
            0 <= i < full.len() ==> better(#[trigger] full[i], x) by {
            assert(all.contains(x));
            assert(!list.contains(x));
        }
    } else if pos < cap {
        let cut = full.drop_last();
        let out = full.last();
        assert(out == list.last());
        assert forall|i: int| 0 <= i < cut.len() implies all2.contains(#[trigger] cut[i]) by {
            assert(all2.contains(full[i]));
        }
        assert forall|x: Entry| #[trigger] all2.contains(x) && !cut.contains(x) implies cut.len()
            == cap && forall|i: int|
            0 <= i < cut.len() ==> better(#[trigger] cut[i], x) by {
            if full.contains(x) {
                let i = choose|i: int| 0 <= i < full.len() && full[i] == x;
                if i < full.len() - 1 {
                    assert(cut[i] == x);
                }
                assert(x == out);
                assert forall|i: int| 0 <= i < cut.len() implies better(#[trigger] cut[i], x) by {
                    assert(better(full[i], full[full.len() - 1]));
                }
            } else {
                assert(all.contains(x) && !list.contains(x));
                assert(better(list[list.len() - 1], x));
                assert forall|i: int| 0 <= i < cut.len() implies better(#[trigger] cut[i], x) by {
                    assert(better(full[i], full[full.len() - 1]));
                    lemma_better_transitive(cut[i], out, x);
                }
            }
        }
    }
}

/// Where `e` is put into a list: behind the last entry that it does not rank before.
pub open spec fn place_of(list: Seq<Entry>, e: Entry) -> int
    decreases list.len(),
{
    if list.len() == 0 || !better(e, list.last()) {
        list.len() as int
    } else {
        place_of(list.drop_last(), e)
    }
}

/// The list after `e` was offered: with `e` in its place, cut to `cap`.
pub open spec fn offered(list: Seq<Entry>, e: Entry, cap: nat) -> Seq<Entry> {
    let full = list.insert(place_of(list, e), e);
    if full.len() > cap {
        full.take(cap as int)
    } else {
        full
    }
}

/// Where an entry is put.
proof fn lemma_place(list: Seq<Entry>, e: Entry)
    ensures
        0 <= place_of(list, e) <= list.len(),
        place_of(list, e) > 0 ==> !better(e, list[place_of(list, e) - 1]),
        forall|i: int| place_of(list, e) <= i < list.len() ==> better(e, #[trigger] list[i]),
    decreases list.len(),
{
    if list.len() > 0 && better(e, list.last()) {
        let r = list.drop_last();
        lemma_place(r, e);
        assert forall|i: int| place_of(list, e) <= i < list.len() implies better(
            e,
            #[trigger] list[i],
        ) by {
            if i < r.len() {
                assert(r[i] == list[i]);
            }
        }
    }
}

/// An entry that was not offered before leaves the best of all that were.
pub proof fn lemma_offer_top(list: Seq<Entry>, cap: nat, all: Set<Entry>, e: Entry)
    requires
        is_top(list, cap, all),
        !all.contains(e),
    ensures
        is_top(offered(list, e, cap), cap, all.insert(e)),
{
    let pos = place_of(list, e);
    lemma_place(list, e);
    assert forall|i: int| 0 <= i < pos implies better(#[trigger] list[i], e) by {
        let last = list[pos - 1];
        lemma_better_total(last, e);
        assert(all.contains(last));
        if i < pos - 1 {
            assert(better(list[i], list[pos - 1]));
            lemma_better_transitive(list[i], last, e);
        }
    }
    lemma_top_insert(list, cap, all, e, pos);
    let full = list.insert(pos, e);
    if full.len() > cap {
        if pos < cap {
            assert(full.take(cap as int) =~= full.drop_last());
        } else {
            assert(full.take(cap as int) =~= list);
        }
    }
}

/// `list` holds the best `cap` entries of `all`, the best one first. An entry that `all` holds more
/// than once may be in the list as often.
pub open spec fn is_best_of(list: Seq<Entry>, cap: nat, all: Multiset<Entry>) -> bool {
    &&& list.len() == if all.len() < cap {
        all.len()
    } else {
        cap
    }
    &&& list.to_multiset().subset_of(all)
    &&& forall|i: int, j: int|
        0 <= i < j < list.len() ==> !better(#[trigger] list[j], #[trigger] list[i])
    &&& forall|e: Entry, i: int|
        all.count(e) > list.to_multiset().count(e) && 0 <= i < list.len() ==> !#[trigger] better(
            e,
            list[i],
        )
}

/// A part as large as the whole is the whole.
proof fn lemma_whole_part(part: Multiset<Entry>, all: Multiset<Entry>)
    requires
        part.subset_of(all),
        part.len() == all.len(),
    ensures
        part =~= all,
{
    broadcast use vstd::multiset::group_multiset_axioms;

    let rest = all.sub(part);
    assert(rest.len() == 0);
    assert forall|x: Entry| part.count(x) == all.count(x) by {
        assert(rest.count(x) <= rest.len());
        assert(part.count(x) <= all.count(x));
    }
}

/// One more entry.
proof fn lemma_insert_count(m: Multiset<Entry>, e: Entry, x: Entry)
    ensures
        m.insert(e).count(x) == m.count(x) + if x == e {
            1int
        } else {
            0
        },
        m.insert(e).len() == m.len() + 1,
{
    broadcast use vstd::multiset::group_multiset_axioms;

}

/// The best of what was offered stay the best with each offer, an equal one among them.
pub proof fn law_offers_keep_the_best(list: Seq<Entry>, cap: nat, all: Multiset<Entry>, e: Entry)
    requires
        is_best_of(list, cap, all),
    ensures
        is_best_of(offered(list, e, cap), cap, all.insert(e)),
{
    broadcast use vstd::multiset::group_multiset_axioms, vstd::seq_lib::group_to_multiset_ensures;

    let p = place_of(list, e);
    lemma_place(list, e);
    let full = list.insert(p, e);
    let more = all.insert(e);
    assert forall|i: int| 0 <= i < p implies !better(e, #[trigger] list[i]) by {
        if better(e, list[i]) && i < p - 1 {
            assert(!better(list[p - 1], list[i]));
            lemma_better_total(list[i], list[p - 1]);
            if better(list[i], list[p - 1]) {
                lemma_better_transitive(e, list[i], list[p - 1]);
            }
        }
    }
    assert forall|i: int, j: int| 0 <= i < j < full.len() implies !better(
        #[trigger] full[j],
        #[trigger] full[i],
    ) by {
        if i == p {
            assert(better(e, list[j - 1]));
            if better(list[j - 1], e) {
                lemma_better_transitive(e, list[j - 1], e);
                lemma_better_irreflexive(e);
            }
        } else if j == p {
            assert(!better(e, list[i]));
        } else {
            let x = if i < p {
                i
            } else {
                i - 1
            };
            let y = if j < p {
                j
            } else {
                j - 1
            };
            assert(!better(list[y], list[x]));
        }
    }
    assert(full.to_multiset() =~= list.to_multiset().insert(e)) by {
        assert(full =~= list.take(p) + seq![e] + list.skip(p));
        assert(list =~= list.take(p) + list.skip(p));
        vstd::seq_lib::lemma_multiset_commutative(list.take(p), list.skip(p));
        vstd::seq_lib::lemma_multiset_commutative(list.take(p) + seq![e], list.skip(p));
        vstd::seq_lib::lemma_multiset_commutative(list.take(p), seq![e]);
        assert(seq![e] =~= Seq::<Entry>::empty().push(e));
        assert(seq![e].to_multiset() =~= Multiset::<Entry>::empty().insert(e));
    }
    lemma_insert_count(all, e, e);
    assert forall|x: Entry| list.to_multiset().count(x) <= all.count(x) by {}
    if full.len() <= cap {
        lemma_whole_part(list.to_multiset(), all);
        assert(full.to_multiset() =~= more);
    } else {
        let cut = full.take(cap as int);
        let out = full[full.len() - 1];
        assert(cut =~= full.drop_last());
        assert(full =~= cut.push(out));
        assert(full.to_multiset() =~= cut.to_multiset().insert(out));
        assert forall|x: Entry| cut.to_multiset().count(x) <= more.count(x) by {
            lemma_insert_count(all, e, x);
            lemma_insert_count(list.to_multiset(), e, x);
            lemma_insert_count(cut.to_multiset(), out, x);
        }
        assert forall|x: Entry, i: int|
            more.count(x) > cut.to_multiset().count(x) && 0 <= i < cut.len() implies !#[trigger]
        better(x, cut[i]) by {
            assert(cut[i] == full[i]);
            if x == out {
                assert(!better(full[full.len() - 1], full[i]));
            } else {
                lemma_insert_count(all, e, x);
                lemma_insert_count(list.to_multiset(), e, x);
                lemma_insert_count(cut.to_multiset(), out, x);
                assert(all.count(x) > list.to_multiset().count(x));
                if i == p {
                    if better(x, e) {
                        assert(better(e, list[cap - 1]));
                        lemma_better_transitive(x, e, list[cap - 1]);
                        assert(!better(x, list[cap - 1]));
                    }
                } else {
                    let y = if i < p {
                        i
                    } else {
                        i - 1
                    };
                    assert(!better(x, list[y]));
                }
            }
        }
        assert forall|i: int, j: int| 0 <= i < j < cut.len() implies !better(
            #[trigger] cut[j],
            #[trigger] cut[i],
        ) by {
            assert(!better(full[j], full[i]));
        }
    }
}

/// The best of a collection, in order, are one list only, whatever the order of the offers.
pub proof fn law_best_is_unique(a: Seq<Entry>, b: Seq<Entry>, cap: nat, all: Multiset<Entry>)
    requires
        is_best_of(a, cap, all),
        is_best_of(b, cap, all),
    ensures
        a == b,
{
    lemma_best_prefix(a, b, cap, all, a.len());
    assert(a =~= b);
}

proof fn lemma_best_prefix(
    a: Seq<Entry>,
    b: Seq<Entry>,
    cap: nat,
    all: Multiset<Entry>,
    m: nat,
)
    requires
        is_best_of(a, cap, all),
        is_best_of(b, cap, all),
        m <= a.len(),
    ensures
        forall|i: int| 0 <= i < m ==> a[i] == b[i],
    decreases m,
{
    if m > 0 {
        let k = m - 1;
        lemma_best_prefix(a, b, cap, all, k as nat);
        if a[k] != b[k] {
            lemma_better_total(a[k], b[k]);
            lemma_best_first_difference(a, b, cap, all, k);
            lemma_best_first_difference(b, a, cap, all, k);
        }
    }
}

proof fn lemma_best_first_difference(
    a: Seq<Entry>,
    b: Seq<Entry>,
    cap: nat,
    all: Multiset<Entry>,
    k: int,
)
    requires
        is_best_of(a, cap, all),
        is_best_of(b, cap, all),
        0 <= k < a.len(),
        forall|i: int| 0 <= i < k ==> a[i] == b[i],
    ensures
        !better(a[k], b[k]),
{
    broadcast use vstd::multiset::group_multiset_axioms, vstd::seq_lib::group_to_multiset_ensures;

    let x = a[k];
    if better(x, b[k]) {
        let head = a.take(k);
        assert(b.take(k) =~= head);
        let rest_a = a.skip(k);
        let rest_b = b.skip(k);
        assert(a =~= head + rest_a);
        assert(b =~= head + rest_b);
        vstd::seq_lib::lemma_multiset_commutative(head, rest_a);
        vstd::seq_lib::lemma_multiset_commutative(head, rest_b);
        assert(rest_a[0] == x);
        assert(rest_a.contains(x));
        assert(!rest_b.contains(x)) by {
            if rest_b.contains(x) {
                let j = choose|j: int| 0 <= j < rest_b.len() && rest_b[j] == x;
                assert(b[k + j] == x);
                if j > 0 {
                    assert(!better(b[k + j], b[k]));
                } else {
                    lemma_better_irreflexive(x);
                }
            }
        }
        assert(rest_a.to_multiset().count(x) > 0);
        assert(rest_b.to_multiset().count(x) == 0);
        assert(a.to_multiset().count(x) <= all.count(x));
        assert(!better(x, b[k]));
    }
}

/// The best of what was offered were offered.
pub proof fn lemma_best_was_offered(list: Seq<Entry>, cap: nat, rows: Seq<Entry>, i: int)
    requires
        is_best_of(list, cap, rows.to_multiset()),
        0 <= i < list.len(),
    ensures
        rows.contains(list[i]),
{
    broadcast use vstd::multiset::group_multiset_axioms, vstd::seq_lib::group_to_multiset_ensures;

    assert(list.contains(list[i]));
    assert(list.to_multiset().count(list[i]) > 0);
    assert(rows.to_multiset().count(list[i]) > 0);
}

/// Where nothing was offered twice, the best of the offers are the best of a set.
pub proof fn lemma_best_is_top(list: Seq<Entry>, cap: nat, rows: Seq<Entry>)
    requires
        is_best_of(list, cap, rows.to_multiset()),
        rows.no_duplicates(),
    ensures
        is_top(list, cap, rows.to_set()),
{
    broadcast use vstd::multiset::group_multiset_axioms, vstd::seq_lib::group_to_multiset_ensures;

    let all = rows.to_multiset();
    rows.lemma_multiset_has_no_duplicates();
    assert forall|i: int, j: int| 0 <= i < j < list.len() implies better(list[i], list[j]) by {
        assert(!better(list[j], list[i]));
        lemma_better_total(list[i], list[j]);
        if list[i] == list[j] {
            let x = list[i];
            let head = list.take(j);
            let rest = list.skip(j);
            assert(list =~= head + rest);
            vstd::seq_lib::lemma_multiset_commutative(head, rest);
            assert(head[i] == x);
            assert(head.contains(x));
            assert(rest[0] == x);
            assert(rest.contains(x));
            assert(list.to_multiset().count(x) >= 2);
            assert(all.count(x) <= 1) by {
                if all.count(x) > 0 {
                    assert(all.contains(x));
                }
            }
        }
    }
    assert forall|i: int| 0 <= i < list.len() implies rows.to_set().contains(
        #[trigger] list[i],
    ) by {
        assert(list.contains(list[i]));
        assert(list.to_multiset().count(list[i]) > 0);
        assert(all.count(list[i]) > 0);
    }
    assert forall|e: Entry| #[trigger] rows.to_set().contains(e) && !list.contains(e) implies
        list.len() == cap && forall|i: int|
            0 <= i < list.len() ==> better(#[trigger] list[i], e) by {
        assert(all.count(e) > 0);
        assert(list.to_multiset().count(e) == 0);
        if list.len() < cap {
            lemma_whole_part(list.to_multiset(), all);
        }
        assert forall|i: int| 0 <= i < list.len() implies better(#[trigger] list[i], e) by {
            assert(!better(e, list[i]));
            assert(list.contains(list[i]));
            lemma_better_total(e, list[i]);
        }
    }
}

/// A ranked combination as the search holds it.
pub struct Ranked {
    pub key: Key,
    pub combo: Vec<u32>,
}

/// The positions of a combination as integers.
pub open spec fn combo_view(combo: Seq<u32>) -> Seq<int> {
    Seq::new(combo.len(), |i: int| combo[i] as int)
}

impl View for Ranked {
    type V = Entry;

    open spec fn view(&self) -> Entry {
        Entry { key: key_view(self.key), combo: combo_view(self.combo@) }
    }
}

/// The entries of a list of ranked combinations.
pub open spec fn entries(list: Seq<Ranked>) -> Seq<Entry> {
    Seq::new(list.len(), |i: int| list[i]@)
}

/// Whether key `a` comes before (ranks below) key `b`.
pub fn key_lt(a: &Key, b: &Key) -> (lt: bool)
    ensures
        lt == lex_lt(key_view(*a), key_view(*b)),
{
    let mut i: usize = 0;
    while i < 6
        invariant
            i <= 6,
            forall|j: int| 0 <= j < i ==> key_view(*a)[j] == key_view(*b)[j],
        decreases 6 - i,
    {
        proof {
            lemma_lex_at(key_view(*a), key_view(*b), i as int);
        }
        if a[i] < b[i] {
            return true;
        }
        if a[i] > b[i] {
            return false;
        }
        i += 1;
    }
    proof {
        lemma_lex_at(key_view(*a), key_view(*b), 6);
    }
    false
}

/// Whether two keys are the same.
pub fn key_eq(a: &Key, b: &Key) -> (same: bool)
    ensures
        same == (key_view(*a) == key_view(*b)),
{
    let mut i: usize = 0;
    while i < 6
        invariant
            i <= 6,
            forall|j: int| 0 <= j < i ==> key_view(*a)[j] == key_view(*b)[j],
        decreases 6 - i,
    {
        if a[i] != b[i] {
            assert(key_view(*a)[i as int] != key_view(*b)[i as int]);
            return false;
        }
        i += 1;
    }
    assert(key_view(*a) =~= key_view(*b));
    true
}

/// Whether combination `a` comes before combination `b`.
pub fn combo_lt(a: &[u32], b: &[u32]) -> (lt: bool)
    ensures
        lt == lex_lt(combo_view(a@), combo_view(b@)),
{
    let mut i: usize = 0;
    while i < a.len() && i < b.len()
        invariant
            i <= a@.len(),
            i <= b@.len(),
            forall|j: int| 0 <= j < i ==> combo_view(a@)[j] == combo_view(b@)[j],
        decreases a@.len() - i,
    {
        proof {
            lemma_lex_at(combo_view(a@), combo_view(b@), i as int);
        }
        if a[i] < b[i] {
            return true;
        }
        if a[i] > b[i] {
            return false;
        }
        i += 1;
    }
    proof {
        lemma_lex_at(combo_view(a@), combo_view(b@), i as int);
    }
    a.len() < b.len()
}

/// Whether the combination `combo` with key `key` ranks before `other`.
pub fn ranks_before(key: &Key, combo: &[u32], other: &Ranked) -> (b: bool)
    ensures
        b == better(Entry { key: key_view(*key), combo: combo_view(combo@) }, other@),
{
    key_lt(&other.key, key) || (key_eq(key, &other.key) && combo_lt(
        combo,
        other.combo.as_slice(),
    ))
}

/// Collects the best `cap` of the combinations that are offered, kept in order, the best first.
pub struct TopK {
    pub items: Vec<Ranked>,
    pub cap: usize,
}

impl TopK {
    /// The collector holds the best of `all`.
    pub open spec fn holds(self, all: Set<Entry>) -> bool {
        is_top(entries(self.items@), self.cap as nat, all)
    }

    /// An empty collector.
    pub fn new(cap: usize) -> (top: TopK)
        ensures
            top.cap == cap,
            top.items@.len() == 0,
            top.holds(Set::empty()),
    {
        TopK { items: Vec::new(), cap }
    }

    /// Offers a combination: it is put in its place, behind those that it does not rank before, and
    /// what is over the capacity is dropped. One that was offered before is kept once more.
    pub fn offer(&mut self, key: Key, path: &[u32])
        requires
            old(self).cap >= 1,
        ensures
            final(self).cap == old(self).cap,
            entries(final(self).items@) == offered(
                entries(old(self).items@),
                Entry { key: key_view(key), combo: combo_view(path@) },
                old(self).cap as nat,
            ),
    {
        let ghost e = Entry { key: key_view(key), combo: combo_view(path@) };
        let ghost list = entries(self.items@);
        let len: usize = self.items.len();
        let mut pos: usize = len;
        assert(list.take(len as int) =~= list);
        while pos > 0 && ranks_before(&key, path, &self.items[pos - 1])
            invariant
                pos <= len,
                len == self.items@.len(),
                list == entries(self.items@),
                e == (Entry { key: key_view(key), combo: combo_view(path@) }),
                place_of(list, e) == place_of(list.take(pos as int), e),
            decreases pos,
        {
            assert(list.take(pos as int).drop_last() =~= list.take(pos - 1));
            pos -= 1;
        }
        proof {
            if pos > 0 {
                assert(list.take(pos as int).last() == list[pos - 1]);
            }
            assert(place_of(list, e) == pos);
        }
        let ghost full = list.insert(pos as int, e);
        if pos < self.cap {
            let item = Ranked { key, combo: copy_combo(path) };
            let ghost before = self.items@;
            self.items.insert(pos, item);
            assert(entries(self.items@) =~= full) by {
                assert(self.items@ =~= before.insert(pos as int, item));
            }
        } else {
            assert(full.take(self.cap as int) =~= list.take(self.cap as int));
        }
        let ghost now = entries(self.items@);
        while self.items.len() > self.cap
            invariant
                self.cap == old(self).cap,
                self.items@.len() <= now.len(),
                entries(self.items@) == now.take(self.items@.len() as int),
                now.len() >= self.cap ==> self.items@.len() >= self.cap,
                now.len() < self.cap ==> self.items@.len() == now.len(),
            decreases self.items@.len(),
        {
            let _ = self.items.pop();
            assert(entries(self.items@) =~= now.take(self.items@.len() as int));
        }
        proof {
            if full.len() > self.cap {
                assert(entries(self.items@) =~= full.take(self.cap as int));
            } else {
                assert(entries(self.items@) =~= full);
            }
        }
    }

    /// The collected combinations, the best first.
    pub fn into_vec(self) -> (list: Vec<Ranked>)
        ensures
            list@ == self.items@,
    {
        self.items
    }

    /// The key of the worst combination kept, once the collector is full.
    pub fn worst_key(&self) -> (worst: Option<Key>)
        ensures
            worst is Some <==> self.items@.len() >= self.cap && self.items@.len() > 0,
            worst matches Some(k) ==> k == self.items@.last().key,
    {
        let len: usize = self.items.len();
        if len < self.cap || len == 0 {
            None
        } else {
            Some(self.items[len - 1].key)
        }
    }
}

/// A copy of a combination.
pub fn copy_combo(combo: &[u32]) -> (copy: Vec<u32>)
    ensures
        copy@ == combo@,
{
    let mut copy: Vec<u32> = Vec::new();
    let mut i: usize = 0;
    while i < combo.len()
        invariant
            i <= combo@.len(),
            copy@ == combo@.take(i as int),
        decreases combo@.len() - i,
    {
        copy.push(combo[i]);
        i += 1;
        assert(copy@ =~= combo@.take(i as int));
    }
    assert(combo@.take(i as int) =~= combo@);
    copy
}

} // verus!
