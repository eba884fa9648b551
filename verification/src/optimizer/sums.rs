//! Sums over chosen positions, counts, and the largest sum that a number of positions can reach.

use vstd::prelude::*;

verus! {

/// The sum of `vals` at the positions `p`.
pub open spec fn pick_sum(vals: Seq<int>, p: Seq<int>) -> int
    decreases p.len(),
{
    if p.len() == 0 {
        0
    } else {
        pick_sum(vals, p.drop_last()) + vals[p.last()]
    }
}

/// Whether `p` is strictly increasing.
pub open spec fn increasing(p: Seq<int>) -> bool {
    forall|i: int, j: int| 0 <= i < j < p.len() ==> p[i] < p[j]
}

/// Whether all positions in `p` lie in `lo..hi`.
pub open spec fn within(p: Seq<int>, lo: int, hi: int) -> bool {
    forall|i: int| 0 <= i < p.len() ==> lo <= #[trigger] p[i] < hi
}

/// The number of indices below `n` for which `f` holds.
pub open spec fn count_where(n: nat, f: spec_fn(int) -> bool) -> nat
    decreases n,
{
    if n == 0 {
        0
    } else {
        count_where((n - 1) as nat, f) + if f(n - 1) {
            1nat
        } else {
            0nat
        }
    }
}

/// The largest sum that `r` of the values at `s` and later can reach (all of them where there are
/// fewer than `r`).
pub open spec fn best_sum(vals: Seq<int>, s: int, r: nat) -> int
    decreases vals.len() - s,
{
    if r == 0 || s >= vals.len() {
        0
    } else {
        let with = vals[s] + best_sum(vals, s + 1, (r - 1) as nat);
        let without = best_sum(vals, s + 1, r);
        if vals.len() - s <= r || with >= without {
            with
        } else {
            without
        }
    }
}

pub proof fn lemma_pick_sum_push(vals: Seq<int>, p: Seq<int>, x: int)
    ensures
        pick_sum(vals, p.push(x)) == pick_sum(vals, p) + vals[x],
{
    assert(p.push(x).drop_last() =~= p);
}

pub proof fn lemma_pick_sum_concat(vals: Seq<int>, p: Seq<int>, q: Seq<int>)
    ensures
        pick_sum(vals, p + q) == pick_sum(vals, p) + pick_sum(vals, q),
    decreases q.len(),
{
    if q.len() == 0 {
        assert(p + q =~= p);
    } else {
        lemma_pick_sum_concat(vals, p, q.drop_last());
        assert((p + q).drop_last() =~= p + q.drop_last());
    }
}

/// A smaller value at every position gives a smaller sum.
pub proof fn lemma_pick_sum_le(f: Seq<int>, g: Seq<int>, p: Seq<int>)
    requires
        forall|i: int| 0 <= i < p.len() ==> f[#[trigger] p[i]] <= g[p[i]],
    ensures
        pick_sum(f, p) <= pick_sum(g, p),
    decreases p.len(),
{
    if p.len() > 0 {
        let q = p.drop_last();
        assert forall|i: int| 0 <= i < q.len() implies f[#[trigger] q[i]] <= g[q[i]] by {
            assert(q[i] == p[i]);
        }
        lemma_pick_sum_le(f, g, q);
        assert(f[p[p.len() - 1]] <= g[p[p.len() - 1]]);
    }
}

/// Positions that hold the values `f` of positions of `g` give the same sum.
pub proof fn lemma_pick_sum_map(f: Seq<int>, g: Seq<int>, p: Seq<int>, q: Seq<int>)
    requires
        p.len() == q.len(),
        forall|i: int| 0 <= i < p.len() ==> f[#[trigger] p[i]] == g[q[i]],
    ensures
        pick_sum(f, p) == pick_sum(g, q),
    decreases p.len(),
{
    if p.len() > 0 {
        let pp = p.drop_last();
        let qq = q.drop_last();
        assert forall|i: int| 0 <= i < pp.len() implies f[#[trigger] pp[i]] == g[qq[i]] by {
            assert(pp[i] == p[i] && qq[i] == q[i]);
        }
        lemma_pick_sum_map(f, g, pp, qq);
        assert(f[p[p.len() - 1]] == g[q[p.len() - 1]]);
    }
}

pub proof fn lemma_pick_sum_nonneg(f: Seq<int>, p: Seq<int>)
    requires
        forall|i: int| 0 <= i < p.len() ==> f[#[trigger] p[i]] >= 0,
    ensures
        pick_sum(f, p) >= 0,
    decreases p.len(),
{
    if p.len() > 0 {
        let q = p.drop_last();
        assert forall|i: int| 0 <= i < q.len() implies f[#[trigger] q[i]] >= 0 by {
            assert(q[i] == p[i]);
        }
        lemma_pick_sum_nonneg(f, q);
        assert(f[p[p.len() - 1]] >= 0);
    }
}

/// Taking one position out of `p` takes its value out of the sum.
pub proof fn lemma_pick_sum_remove(vals: Seq<int>, p: Seq<int>, j: int)
    requires
        0 <= j < p.len(),
    ensures
        pick_sum(vals, p) == pick_sum(vals, p.remove(j)) + vals[p[j]],
    decreases p.len(),
{
    if j == p.len() - 1 {
        assert(p.remove(j) =~= p.drop_last());
    } else {
        lemma_pick_sum_remove(vals, p.drop_last(), j);
        assert(p.drop_last().remove(j) =~= p.remove(j).drop_last());
        assert(p.remove(j).last() == p.last());
    }
}

/// The sum does not depend on the order of the positions.
pub proof fn lemma_pick_sum_permute(vals: Seq<int>, p: Seq<int>, q: Seq<int>)
    requires
        p.to_multiset() =~= q.to_multiset(),
    ensures
        pick_sum(vals, p) == pick_sum(vals, q),
    decreases p.len(),
{
    broadcast use vstd::seq_lib::group_to_multiset_ensures;

    assert(p.len() == p.to_multiset().len());
    assert(q.len() == q.to_multiset().len());
    if p.len() > 0 {
        let x = p.last();
        assert(p.contains(x));
        assert(q.to_multiset().count(x) > 0);
        assert(q.contains(x));
        let j = choose|j: int| 0 <= j < q.len() && q[j] == x;
        lemma_pick_sum_remove(vals, q, j);
        lemma_pick_sum_remove(vals, p, p.len() - 1);
        assert(p.remove(p.len() - 1).to_multiset() =~= q.remove(j).to_multiset());
        lemma_pick_sum_permute(vals, p.remove(p.len() - 1), q.remove(j));
    }
}

pub proof fn lemma_count_le(n: nat, f: spec_fn(int) -> bool)
    ensures
        count_where(n, f) <= n,
    decreases n,
{
    if n > 0 {
        lemma_count_le((n - 1) as nat, f);
    }
}

pub proof fn lemma_count_same(n: nat, f: spec_fn(int) -> bool, g: spec_fn(int) -> bool)
    requires
        forall|a: int| 0 <= a < n ==> #[trigger] f(a) == g(a),
    ensures
        count_where(n, f) == count_where(n, g),
    decreases n,
{
    if n > 0 {
        lemma_count_same((n - 1) as nat, f, g);
        assert(f(n - 1) == g(n - 1));
    }
}

/// Two predicates that agree but at `i`.
pub proof fn lemma_count_change(
    n: nat,
    f: spec_fn(int) -> bool,
    g: spec_fn(int) -> bool,
    i: int,
)
    requires
        0 <= i < n,
        forall|a: int| 0 <= a < n && a != i ==> #[trigger] f(a) == g(a),
    ensures
        count_where(n, g) == count_where(n, f) - (if f(i) {
            1int
        } else {
            0
        }) + (if g(i) {
            1int
        } else {
            0
        }),
    decreases n,
{
    if i == n - 1 {
        lemma_count_same((n - 1) as nat, f, g);
    } else {
        lemma_count_change((n - 1) as nat, f, g, i);
        assert(f(n - 1) == g(n - 1));
    }
}

/// Where `h` holds only where `f` or `g` does, it holds at most as often as both together.
pub proof fn lemma_count_cover(
    n: nat,
    h: spec_fn(int) -> bool,
    f: spec_fn(int) -> bool,
    g: spec_fn(int) -> bool,
)
    requires
        forall|a: int| 0 <= a < n && #[trigger] h(a) ==> f(a) || g(a),
    ensures
        count_where(n, h) <= count_where(n, f) + count_where(n, g),
    decreases n,
{
    if n > 0 {
        lemma_count_cover((n - 1) as nat, h, f, g);
        assert(h(n - 1) ==> f(n - 1) || g(n - 1));
    }
}

/// No `r` positions at `s` or later sum to more than `best_sum`.
pub proof fn lemma_best_sum_bound(vals: Seq<int>, s: int, p: Seq<int>)
    requires
        0 <= s <= vals.len(),
        increasing(p),
        within(p, s, vals.len() as int),
    ensures
        pick_sum(vals, p) <= best_sum(vals, s, p.len()),
    decreases vals.len() - s,
{
    if p.len() > 0 {
        assert(s <= p[0] < vals.len());
        lemma_increasing_len(p, s, vals.len() as int);
        if p[0] == s {
            let rest = p.drop_first();
            assert forall|i: int| 0 <= i < rest.len() implies s + 1 <= #[trigger] rest[i]
                < vals.len() by {
                assert(rest[i] == p[i + 1]);
                assert(p[0] < p[i + 1]);
            }
            lemma_best_sum_bound(vals, s + 1, rest);
            assert(p =~= seq![p[0]] + rest);
            lemma_pick_sum_concat(vals, seq![p[0]], rest);
            assert(seq![p[0]].drop_last() =~= Seq::<int>::empty());
            assert(pick_sum(vals, seq![p[0]]) == vals[s]) by {
                reveal_with_fuel(pick_sum, 2);
            }
        } else {
            assert forall|i: int| 0 <= i < p.len() implies s + 1 <= #[trigger] p[i] < vals.len() by {
                if i > 0 {
                    assert(p[0] < p[i]);
                }
            }
            lemma_increasing_len(p, s + 1, vals.len() as int);
            lemma_best_sum_bound(vals, s + 1, p);
        }
    }
}

/// Strictly increasing positions in `lo..hi` are at most `hi - lo`.
pub proof fn lemma_increasing_len(p: Seq<int>, lo: int, hi: int)
    requires
        increasing(p),
        within(p, lo, hi),
        lo <= hi,
    ensures
        p.len() <= hi - lo,
    decreases p.len(),
{
    if p.len() > 0 {
        let q = p.drop_last();
        assert forall|i: int| 0 <= i < q.len() implies lo <= #[trigger] q[i] < p.last() by {
            assert(q[i] == p[i]);
            assert(p[i] < p[p.len() - 1]);
        }
        assert(lo <= p[p.len() - 1] < hi);
        lemma_increasing_len(q, lo, p.last());
    }
}

/// Positions at `s` or later that reach `best_sum`.
pub proof fn lemma_best_sum_reached(vals: Seq<int>, s: int, r: nat) -> (p: Seq<int>)
    requires
        0 <= s <= vals.len(),
    ensures
        increasing(p),
        within(p, s, vals.len() as int),
        p.len() == if vals.len() - s < r {
            vals.len() - s
        } else {
            r as int
        },
        pick_sum(vals, p) == best_sum(vals, s, r),
    decreases vals.len() - s,
{
    if r == 0 || s >= vals.len() {
        Seq::empty()
    } else {
        let with = vals[s] + best_sum(vals, s + 1, (r - 1) as nat);
        let without = best_sum(vals, s + 1, r);
        if vals.len() - s <= r || with >= without {
            let rest = lemma_best_sum_reached(vals, s + 1, (r - 1) as nat);
            let p = seq![s] + rest;
            assert forall|i: int, j: int| 0 <= i < j < p.len() implies p[i] < p[j] by {
                assert(p[j] == rest[j - 1]);
                assert(s + 1 <= rest[j - 1]);
                if i > 0 {
                    assert(p[i] == rest[i - 1]);
                }
            }
            assert forall|i: int| 0 <= i < p.len() implies s <= #[trigger] p[i] < vals.len() by {
                if i > 0 {
                    assert(p[i] == rest[i - 1]);
                }
            }
            lemma_pick_sum_concat(vals, seq![s], rest);
            assert(seq![s].drop_last() =~= Seq::<int>::empty());
            assert(pick_sum(vals, seq![s]) == vals[s]) by {
                reveal_with_fuel(pick_sum, 2);
            }
            p
        } else {
            let p = lemma_best_sum_reached(vals, s + 1, r);
            assert forall|i: int| 0 <= i < p.len() implies s <= #[trigger] p[i] < vals.len() by {}
            p
        }
    }
}

} // verus!
