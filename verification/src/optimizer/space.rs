//! The space that is searched: candidates in search order, and what a choice of them scores.

use crate::optimizer::accum::{
    attr_sum, key_of, lemma_attr_sum_bounds, marked_sum, parts_ok, score_of, Accum, Cand, RankMode,
    Score,
};
use crate::optimizer::bounds::{attr_vals, best_sums_fit, marked_vals};
use crate::optimizer::levels::level;
use crate::optimizer::ranking::{lemma_lex_pointwise, lex_lt, Entry};
use crate::optimizer::sums::{
    best_sum, count_where, increasing, lemma_best_sum_bound, lemma_best_sum_reached,
    lemma_count_cover, lemma_pick_sum_concat, lemma_pick_sum_le, lemma_pick_sum_nonneg, pick_sum,
    within,
};
use vstd::prelude::*;

verus! {

/// Candidates in the order of the search, with attributes as dense indices.
pub struct SearchSpace {
    /// The parts of each candidate.
    pub cands: Vec<Cand>,
    /// The position of each candidate before it was put in search order.
    pub order: Vec<usize>,
    pub n_attr: usize,
    /// Target attributes.
    pub selected_mask: Vec<bool>,
    /// Attributes that are left out of the ranking.
    pub soft_excl_mask: Vec<bool>,
    /// Attributes with the lowest level that a choice must reach.
    pub required_idxs: Vec<(usize, usize)>,
}

/// The positions before the reordering.
pub open spec fn images(order: Seq<usize>, q: Seq<int>) -> Seq<int> {
    Seq::new(q.len(), |j: int| order[q[j]] as int)
}

/// `q` chooses `k` of the positions `0..n`, in increasing order.
pub open spec fn is_choice(q: Seq<int>, n: int, k: int) -> bool {
    q.len() == k && increasing(q) && within(q, 0, n)
}

/// `q` begins with `prefix` and goes on at `start` or later.
pub open spec fn goes_on(q: Seq<int>, prefix: Seq<int>, start: int) -> bool {
    &&& prefix.len() <= q.len()
    &&& q.take(prefix.len() as int) == prefix
    &&& forall|j: int| prefix.len() <= j < q.len() ==> start <= #[trigger] q[j]
}

impl SearchSpace {
    /// The sum of all values, counted or not, that the choice `p` holds.
    pub open spec fn value_total(self, p: Seq<int>) -> int {
        pick_sum(marked_vals(self.cands@, self.soft_excl_mask@, false), p) + pick_sum(
            marked_vals(self.cands@, self.soft_excl_mask@, true),
            p,
        )
    }

    /// Whether the values of any `k` candidates sum within 32 bits.
    pub open spec fn sums_fit(self, k: int) -> bool {
        forall|p: Seq<int>|
            increasing(p) && within(p, 0, self.cands@.len() as int) && p.len() <= k
                ==> #[trigger] self.value_total(p) <= i32::MAX
    }

    /// The parts of the space fit together, and sums over `k` candidates fit 32 bits.
    pub open spec fn wf(self, k: int) -> bool {
        &&& self.cands@.len() == self.order@.len()
        &&& self.cands@.len() < u32::MAX
        &&& self.n_attr <= 0x1_0000_0000
        &&& self.selected_mask@.len() == self.n_attr
        &&& self.soft_excl_mask@.len() == self.n_attr
        &&& forall|i: int|
            0 <= i < self.cands@.len() ==> parts_ok(
                (#[trigger] self.cands@[i]).parts@,
                self.n_attr as int,
            )
        &&& forall|i: int| 0 <= i < self.order@.len() ==> #[trigger] self.order@[i] <= u32::MAX
        &&& forall|i: int, j: int|
            0 <= i < j < self.order@.len() ==> self.order@[i] != self.order@[j]
        &&& forall|a: int|
            0 <= a < self.n_attr ==> !(#[trigger] self.selected_mask@[a] && self.soft_excl_mask@[a])
        &&& forall|j: int|
            0 <= j < self.required_idxs@.len() ==> (#[trigger] self.required_idxs@[j]).0
                < self.n_attr && !self.soft_excl_mask@[self.required_idxs@[j].0 as int]
        &&& self.sums_fit(k)
    }

    /// The counted total of each attribute over the choice `q`.
    pub open spec fn totals(self, q: Seq<int>) -> Seq<int> {
        Seq::new(
            self.n_attr as nat,
            |a: int|
                if self.soft_excl_mask@[a] {
                    0
                } else {
                    pick_sum(attr_vals(self.cands@, a), q)
                },
        )
    }

    /// The sum of the counted values of the choice `q`.
    pub open spec fn link(self, q: Seq<int>) -> int {
        pick_sum(marked_vals(self.cands@, self.soft_excl_mask@, false), q)
    }

    /// The sum of the left-out values of the choice `q`.
    pub open spec fn left_out(self, q: Seq<int>) -> int {
        pick_sum(marked_vals(self.cands@, self.soft_excl_mask@, true), q)
    }

    /// The score of the choice `q`.
    pub open spec fn score(self, q: Seq<int>) -> Score {
        score_of(self.totals(q), self.selected_mask@, self.link(q), self.left_out(q))
    }

    /// Whether the choice `q` reaches every required level.
    pub open spec fn meets(self, q: Seq<int>) -> bool {
        forall|j: int|
            0 <= j < self.required_idxs@.len() ==> level(
                self.totals(q)[(#[trigger] self.required_idxs@[j]).0 as int],
            ) >= self.required_idxs@[j].1
    }

    /// The choice `q` as a ranked combination.
    pub open spec fn entry(self, q: Seq<int>, mode: RankMode) -> Entry {
        Entry { key: key_of(self.score(q), mode), combo: images(self.order@, q).sort() }
    }

    /// The ranked combinations of the choices of `k` that begin with `prefix`, go on at `start`
    /// or later and reach every required level.
    pub open spec fn reach(self, prefix: Seq<int>, start: int, k: int, mode: RankMode) -> Set<
        Entry,
    > {
        Set::new(
            |e: Entry|
                exists|q: Seq<int>|
                    is_choice(q, self.cands@.len() as int, k) && #[trigger] goes_on(
                        q,
                        prefix,
                        start,
                    ) && self.meets(q) && e == self.entry(q, mode),
        )
    }

    /// The ranked combinations of all choices of `k` that reach every required level.
    pub open spec fn all_entries(self, k: int, mode: RankMode) -> Set<Entry> {
        self.reach(Seq::empty(), 0, k, mode)
    }

    /// `acc` holds the totals of the choice `q`.
    pub open spec fn tracks(self, acc: Accum, q: Seq<int>) -> bool {
        &&& acc.wf(self.selected_mask@, self.soft_excl_mask@)
        &&& acc.total_ints() == self.totals(q)
        &&& acc.eval_link == self.link(q)
        &&& acc.excl == self.left_out(q)
    }

    /// Whether attribute `a`, a target (or counted) one, is below level `below` over `prefix` and
    /// can reach level `at` with `r` more candidates at `start` or later.
    pub open spec fn can_reach(
        self,
        prefix: Seq<int>,
        start: int,
        r: nat,
        only_selected: bool,
        below: int,
        at: int,
        a: int,
    ) -> bool {
        let t = self.totals(prefix)[a];
        &&& if only_selected {
            self.selected_mask@[a]
        } else {
            !self.soft_excl_mask@[a]
        }
        &&& level(t) < below
        &&& level(t + best_sum(attr_vals(self.cands@, a), start, r)) >= at
    }

    /// How many attributes can reach level `at` in that way.
    pub open spec fn reachable(
        self,
        prefix: Seq<int>,
        start: int,
        r: nat,
        only_selected: bool,
        below: int,
        at: int,
    ) -> nat {
        count_where(
            self.n_attr as nat,
            |a: int| self.can_reach(prefix, start, r, only_selected, below, at, a),
        )
    }

    /// A score that no choice that goes on from `prefix` can exceed in any part.
    pub open spec fn upper_score(self, prefix: Seq<int>, start: int, r: nat) -> Score {
        let s = self.score(prefix);
        Score {
            present: s.present + self.reachable(prefix, start, r, true, 1, 1),
            sel6: s.sel6 + self.reachable(prefix, start, r, true, 6, 6),
            lv6: s.lv6 + self.reachable(prefix, start, r, false, 6, 6),
            lv5: s.lv5 + self.reachable(prefix, start, r, false, 5, 5),
            link: s.link + best_sum(
                marked_vals(self.cands@, self.soft_excl_mask@, false),
                start,
                r,
            ),
            excl: s.excl,
        }
    }

    /// The pointwise facts about the values of the candidates.
    pub proof fn lemma_vals(self, k: int)
        requires
            self.wf(k),
        ensures
            forall|a: int, i: int|
                0 <= i < self.cands@.len() ==> 0 <= #[trigger] attr_vals(self.cands@, a)[i],
            forall|a: int, i: int|
                0 <= i < self.cands@.len() && 0 <= a < self.n_attr && !self.soft_excl_mask@[a]
                    ==> #[trigger] attr_vals(self.cands@, a)[i] <= marked_vals(
                    self.cands@,
                    self.soft_excl_mask@,
                    false,
                )[i],
            forall|flag: bool, i: int|
                0 <= i < self.cands@.len() ==> 0 <= #[trigger] marked_vals(
                    self.cands@,
                    self.soft_excl_mask@,
                    flag,
                )[i],
    {
        let soft = self.soft_excl_mask@;
        assert forall|a: int, i: int| 0 <= i < self.cands@.len() implies 0 <= #[trigger] attr_vals(
            self.cands@,
            a,
        )[i] by {
            lemma_attr_sum_bounds(self.cands@[i].parts@, soft, self.n_attr as int);
            assert(0 <= attr_sum(self.cands@[i].parts@, a));
        }
        assert forall|a: int, i: int|
            0 <= i < self.cands@.len() && 0 <= a < self.n_attr
                && !self.soft_excl_mask@[a] implies #[trigger] attr_vals(self.cands@, a)[i]
            <= marked_vals(self.cands@, soft, false)[i] by {
            lemma_attr_sum_bounds(self.cands@[i].parts@, soft, self.n_attr as int);
            assert(attr_sum(self.cands@[i].parts@, a) <= marked_sum(
                self.cands@[i].parts@,
                soft,
                soft[a],
            ));
        }
        assert forall|flag: bool, i: int| 0 <= i < self.cands@.len() implies 0
            <= #[trigger] marked_vals(self.cands@, soft, flag)[i] by {
            lemma_attr_sum_bounds(self.cands@[i].parts@, soft, self.n_attr as int);
        }
    }

    /// Sums over at most `k` candidates lie within 32 bits.
    pub proof fn lemma_sums(self, k: int, p: Seq<int>)
        requires
            self.wf(k),
            increasing(p),
            within(p, 0, self.cands@.len() as int),
            p.len() <= k,
        ensures
            0 <= self.link(p),
            0 <= self.left_out(p),
            self.link(p) + self.left_out(p) <= i32::MAX,
            forall|a: int|
                0 <= a < self.n_attr ==> 0 <= #[trigger] self.totals(p)[a] <= self.link(p),
    {
        self.lemma_vals(k);
        let cands = self.cands@;
        let soft = self.soft_excl_mask@;
        let mv = marked_vals(cands, soft, false);
        lemma_pick_sum_nonneg(mv, p);
        lemma_pick_sum_nonneg(marked_vals(cands, soft, true), p);
        assert(self.value_total(p) <= i32::MAX);
        assert forall|a: int| 0 <= a < self.n_attr implies 0 <= #[trigger] self.totals(p)[a]
            <= self.link(p) by {
            if !soft[a] {
                lemma_pick_sum_nonneg(attr_vals(cands, a), p);
                lemma_pick_sum_le(attr_vals(cands, a), mv, p);
            }
        }
    }

    /// The bound tables fit 32 bits.
    pub proof fn lemma_tables_fit(self, k: int)
        requires
            self.wf(k),
            k >= 1,
        ensures
            best_sums_fit(marked_vals(self.cands@, self.soft_excl_mask@, false), k),
            forall|a: int|
                0 <= a < self.n_attr && !self.soft_excl_mask@[a] ==> best_sums_fit(
                    #[trigger] attr_vals(self.cands@, a),
                    k,
                ),
            forall|a: int, i: int|
                0 <= a < self.n_attr && !self.soft_excl_mask@[a] && 0 <= i < self.cands@.len()
                    ==> #[trigger] attr_sum(self.cands@[i].parts@, a) <= i32::MAX,
            forall|i: int|
                0 <= i < self.cands@.len() ==> #[trigger] marked_sum(
                    self.cands@[i].parts@,
                    self.soft_excl_mask@,
                    false,
                ) <= i32::MAX,
            forall|i: int|
                0 <= i < self.cands@.len() ==> #[trigger] marked_sum(
                    self.cands@[i].parts@,
                    self.soft_excl_mask@,
                    true,
                ) <= i32::MAX,
    {
        let cands = self.cands@;
        let soft = self.soft_excl_mask@;
        let mv = marked_vals(cands, soft, false);
        let sv = marked_vals(cands, soft, true);
        self.lemma_vals(k);
        assert forall|s: int, r: nat| 0 <= s <= mv.len() && r <= k implies i32::MIN
            <= #[trigger] best_sum(mv, s, r) <= i32::MAX by {
            let p = lemma_best_sum_reached(mv, s, r);
            self.lemma_sums(k, p);
        }
        assert forall|a: int| 0 <= a < self.n_attr && !soft[a] implies best_sums_fit(
            #[trigger] attr_vals(cands, a),
            k,
        ) by {
            let av = attr_vals(cands, a);
            assert forall|s: int, r: nat| 0 <= s <= av.len() && r <= k implies i32::MIN
                <= #[trigger] best_sum(av, s, r) <= i32::MAX by {
                let p = lemma_best_sum_reached(av, s, r);
                self.lemma_sums(k, p);
                assert(self.totals(p)[a] == pick_sum(av, p));
            }
        }
        assert forall|i: int| 0 <= i < cands.len() implies #[trigger] marked_sum(
            cands[i].parts@,
            soft,
            false,
        ) <= i32::MAX by {
            let p = seq![i];
            self.lemma_sums(k, p);
            assert(p.drop_last() =~= Seq::<int>::empty());
            assert(pick_sum(mv, p) == mv[i]) by {
                reveal_with_fuel(pick_sum, 2);
            }
        }
        assert forall|i: int| 0 <= i < cands.len() implies #[trigger] marked_sum(
            cands[i].parts@,
            soft,
            true,
        ) <= i32::MAX by {
            let p = seq![i];
            self.lemma_sums(k, p);
            assert(p.drop_last() =~= Seq::<int>::empty());
            assert(pick_sum(sv, p) == sv[i]) by {
                reveal_with_fuel(pick_sum, 2);
            }
        }
        assert forall|a: int, i: int|
            0 <= a < self.n_attr && !soft[a] && 0 <= i < cands.len() implies #[trigger] attr_sum(
            cands[i].parts@,
            a,
        ) <= i32::MAX by {
            assert(attr_vals(cands, a)[i] <= mv[i]);
            assert(marked_sum(cands[i].parts@, soft, false) <= i32::MAX);
        }
    }

    /// A total and the most that can still come stay within 32 bits together.
    pub proof fn lemma_total_and_bound(self, k: int, prefix: Seq<int>, start: int, r: nat)
        requires
            self.wf(k),
            increasing(prefix),
            within(prefix, 0, start),
            0 <= start <= self.cands@.len(),
            prefix.len() + r <= k,
        ensures
            0 <= self.link(prefix) + best_sum(
                marked_vals(self.cands@, self.soft_excl_mask@, false),
                start,
                r,
            ) <= i32::MAX,
            forall|a: int|
                0 <= a < self.n_attr && !self.soft_excl_mask@[a] ==> 0 <= #[trigger] self.totals(
                    prefix,
                )[a] + best_sum(attr_vals(self.cands@, a), start, r) <= i32::MAX,
    {
        let cands = self.cands@;
        let soft = self.soft_excl_mask@;
        let mv = marked_vals(cands, soft, false);
        let n = cands.len() as int;
        let p = lemma_best_sum_reached(mv, start, r);
        lemma_joined(prefix, p, start, n);
        self.lemma_sums(k, prefix + p);
        lemma_pick_sum_concat(mv, prefix, p);
        assert forall|a: int| 0 <= a < self.n_attr && !soft[a] implies 0 <= #[trigger] self.totals(
            prefix,
        )[a] + best_sum(attr_vals(cands, a), start, r) <= i32::MAX by {
            let av = attr_vals(cands, a);
            let t = lemma_best_sum_reached(av, start, r);
            lemma_joined(prefix, t, start, n);
            self.lemma_sums(k, prefix + t);
            lemma_pick_sum_concat(av, prefix, t);
            assert(self.totals(prefix + t)[a] == pick_sum(av, prefix + t));
        }
    }

    /// What goes on from `prefix` adds to each total, and no more than the bounds say.
    pub proof fn lemma_rest_bounds(self, k: int, q: Seq<int>, prefix: Seq<int>, start: int)
        requires
            self.wf(k),
            is_choice(q, self.cands@.len() as int, k),
            goes_on(q, prefix, start),
            0 <= start <= self.cands@.len(),
        ensures
            self.link(prefix) <= self.link(q) <= self.link(prefix) + best_sum(
                marked_vals(self.cands@, self.soft_excl_mask@, false),
                start,
                (k - prefix.len()) as nat,
            ),
            self.left_out(prefix) <= self.left_out(q),
            forall|a: int|
                #![trigger self.totals(q)[a]]
                0 <= a < self.n_attr ==> self.totals(prefix)[a] <= self.totals(q)[a],
            forall|a: int|
                #![trigger self.totals(q)[a]]
                0 <= a < self.n_attr && !self.soft_excl_mask@[a] ==> self.totals(q)[a]
                    <= self.totals(prefix)[a] + best_sum(
                    attr_vals(self.cands@, a),
                    start,
                    (k - prefix.len()) as nat,
                ),
    {
        let cands = self.cands@;
        let soft = self.soft_excl_mask@;
        let mv = marked_vals(cands, soft, false);
        let sv = marked_vals(cands, soft, true);
        let tail = q.skip(prefix.len() as int);
        self.lemma_vals(k);
        assert(q =~= prefix + tail);
        assert forall|i: int| 0 <= i < tail.len() implies start <= #[trigger] tail[i]
            < cands.len() by {
            assert(tail[i] == q[prefix.len() + i]);
        }
        assert forall|i: int, j: int| 0 <= i < j < tail.len() implies tail[i] < tail[j] by {
            assert(q[prefix.len() + i] < q[prefix.len() + j]);
        }
        lemma_pick_sum_concat(mv, prefix, tail);
        lemma_pick_sum_concat(sv, prefix, tail);
        lemma_pick_sum_nonneg(mv, tail);
        lemma_pick_sum_nonneg(sv, tail);
        lemma_best_sum_bound(mv, start, tail);
        assert forall|a: int| 0 <= a < self.n_attr && !soft[a] implies self.totals(prefix)[a]
            <= #[trigger] self.totals(q)[a] && self.totals(q)[a] <= self.totals(prefix)[a]
            + best_sum(attr_vals(cands, a), start, (k - prefix.len()) as nat) by {
            let av = attr_vals(cands, a);
            lemma_pick_sum_concat(av, prefix, tail);
            lemma_pick_sum_nonneg(av, tail);
            lemma_best_sum_bound(av, start, tail);
        }
    }

    /// No choice that goes on from `prefix` ranks above the upper score.
    pub proof fn lemma_upper_score(
        self,
        k: int,
        q: Seq<int>,
        prefix: Seq<int>,
        start: int,
        mode: RankMode,
    )
        requires
            self.wf(k),
            is_choice(q, self.cands@.len() as int, k),
            goes_on(q, prefix, start),
            0 <= start <= self.cands@.len(),
        ensures
            ({
                let key = key_of(self.score(q), mode);
                let upper = key_of(
                    self.upper_score(prefix, start, (k - prefix.len()) as nat),
                    mode,
                );
                key == upper || lex_lt(key, upper)
            }),
    {
        let r = (k - prefix.len()) as nat;
        let n = self.n_attr as nat;
        let t = self.totals(prefix);
        let tq = self.totals(q);
        let sel = self.selected_mask@;
        let soft = self.soft_excl_mask@;
        let cands = self.cands@;
        self.lemma_rest_bounds(k, q, prefix, start);
        assert forall|a: int| 0 <= a < n implies !(#[trigger] sel[a] && soft[a]) by {}
        lemma_count_cover(
            n,
            |a: int| sel[a] && level(tq[a]) >= 1,
            |a: int| sel[a] && level(t[a]) >= 1,
            |a: int| self.can_reach(prefix, start, r, true, 1, 1, a),
        );
        lemma_count_cover(
            n,
            |a: int| sel[a] && level(tq[a]) == 6,
            |a: int| sel[a] && level(t[a]) == 6,
            |a: int| self.can_reach(prefix, start, r, true, 6, 6, a),
        );
        lemma_count_cover(
            n,
            |a: int| level(tq[a]) == 6,
            |a: int| level(t[a]) == 6,
            |a: int| self.can_reach(prefix, start, r, false, 6, 6, a),
        );
        lemma_count_cover(
            n,
            |a: int| level(tq[a]) == 5,
            |a: int| level(t[a]) == 5,
            |a: int| self.can_reach(prefix, start, r, false, 5, 5, a),
        );
        let s = self.score(q);
        let u = self.upper_score(prefix, start, r);
        assert(s.present <= u.present);
        assert(s.sel6 <= u.sel6);
        assert(s.lv6 <= u.lv6);
        assert(s.lv5 <= u.lv5);
        lemma_lex_pointwise(key_of(s, mode), key_of(u, mode));
    }

    /// Choices with the same combination are the same.
    pub proof fn lemma_same_combo(self, k: int, p: Seq<int>, q: Seq<int>)
        requires
            self.wf(k),
            is_choice(p, self.cands@.len() as int, k),
            is_choice(q, self.cands@.len() as int, k),
            images(self.order@, p).sort() == images(self.order@, q).sort(),
        ensures
            p == q,
    {
        let a = images(self.order@, p);
        let b = images(self.order@, q);
        a.lemma_sort_ensures();
        b.lemma_sort_ensures();
        assert(a.to_multiset() =~= b.to_multiset());
        assert forall|i: int| 0 <= i < p.len() implies #[trigger] q.contains(p[i]) by {
            self.lemma_in_both(k, p, q, i);
        }
        assert forall|i: int| 0 <= i < q.len() implies #[trigger] p.contains(q[i]) by {
            self.lemma_in_both(k, q, p, i);
        }
        lemma_increasing_same(p, q);
    }

    proof fn lemma_in_both(self, k: int, p: Seq<int>, q: Seq<int>, i: int)
        requires
            self.wf(k),
            is_choice(p, self.cands@.len() as int, k),
            is_choice(q, self.cands@.len() as int, k),
            images(self.order@, p).to_multiset() =~= images(self.order@, q).to_multiset(),
            0 <= i < p.len(),
        ensures
            q.contains(p[i]),
    {
        broadcast use vstd::seq_lib::group_to_multiset_ensures;

        let a = images(self.order@, p);
        let b = images(self.order@, q);
        assert(a.contains(a[i]));
        assert(b.to_multiset().count(a[i]) > 0);
        assert(b.contains(a[i]));
        let j = choose|j: int| 0 <= j < b.len() && b[j] == a[i];
        assert(self.order@[p[i]] == self.order@[q[j]]);
        assert(p[i] == q[j]) by {
            if p[i] < q[j] {
                assert(self.order@[p[i]] != self.order@[q[j]]);
            } else if q[j] < p[i] {
                assert(self.order@[q[j]] != self.order@[p[i]]);
            }
        }
    }
}

/// Increasing sequences with the same elements are equal.
pub proof fn lemma_increasing_same(p: Seq<int>, q: Seq<int>)
    requires
        increasing(p),
        increasing(q),
        forall|i: int| 0 <= i < p.len() ==> q.contains(#[trigger] p[i]),
        forall|i: int| 0 <= i < q.len() ==> p.contains(#[trigger] q[i]),
    ensures
        p == q,
    decreases p.len(),
{
    if p.len() == 0 {
        if q.len() > 0 {
            assert(p.contains(q[0]));
        }
        assert(p =~= q);
    } else {
        assert(q.contains(p[0]));
        let x = p.last();
        let y = q.last();
        assert(p[p.len() - 1] == x && q[q.len() - 1] == y);
        let i = choose|i: int| 0 <= i < q.len() && q[i] == x;
        let j = choose|j: int| 0 <= j < p.len() && p[j] == y;
        assert(q.contains(p[p.len() - 1]));
        assert(p.contains(q[q.len() - 1]));
        assert(x <= y);
        assert(y <= x);
        let a = p.drop_last();
        let b = q.drop_last();
        assert forall|i: int| 0 <= i < a.len() implies b.contains(#[trigger] a[i]) by {
            assert(q.contains(p[i]));
            let j = choose|j: int| 0 <= j < q.len() && q[j] == p[i];
            assert(p[i] < p[p.len() - 1]);
            assert(b[j] == a[i]);
        }
        assert forall|i: int| 0 <= i < b.len() implies a.contains(#[trigger] b[i]) by {
            assert(p.contains(q[i]));
            let j = choose|j: int| 0 <= j < p.len() && p[j] == q[i];
            assert(q[i] < q[q.len() - 1]);
            assert(a[j] == b[i]);
        }
        lemma_increasing_same(a, b);
        assert(p =~= a.push(x));
        assert(q =~= b.push(y));
    }
}

/// Two runs of increasing positions, one after the other.
pub proof fn lemma_joined(p: Seq<int>, t: Seq<int>, start: int, n: int)
    requires
        increasing(p),
        within(p, 0, start),
        increasing(t),
        within(t, start, n),
        0 <= start <= n,
    ensures
        increasing(p + t),
        within(p + t, 0, n),
{
    let q = p + t;
    assert forall|i: int, j: int| 0 <= i < j < q.len() implies q[i] < q[j] by {
        if i < p.len() {
            assert(p[i] < start);
        }
        if j >= p.len() {
            assert(start <= t[j - p.len()]);
        }
    }
    assert forall|i: int| 0 <= i < q.len() implies 0 <= #[trigger] q[i] < n by {
        if i < p.len() {
            assert(p[i] < start);
        } else {
            assert(start <= t[i - p.len()]);
        }
    }
}

} // verus!
