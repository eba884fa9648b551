//! Depth-first search with pruning that never loses one of the best combinations.

use crate::optimizer::accum::{
    counted, key_of, key_view, marked_sum, sum_marked, Accum, Key, RankMode,
};
use crate::optimizer::bounds::{attr_vals, ints, marked_vals, AttrBounds, SuffixSum};
use crate::optimizer::levels::{level, level_of};
use crate::optimizer::ranking::{
    better, combo_view, entries, is_top, lemma_better_irreflexive, lemma_better_transitive,
    lemma_lex_at, lemma_lex_transitive, lemma_offer_top, lemma_top_grow, lex_lt, Entry, Ranked,
    TopK,
};
use crate::optimizer::space::{goes_on, images, is_choice, SearchSpace};
use crate::optimizer::sums::{
    best_sum, count_where, increasing, lemma_count_le, lemma_increasing_len, lemma_pick_sum_push,
    within,
};
use crate::parallel::par_map;
use vstd::prelude::*;
use vstd::relations::sorted_by;

verus! {

/// What stays the same during one search.
pub struct SearchCtx<'a> {
    pub slot_count: usize,
    pub space: &'a SearchSpace,
    pub attr_bounds: &'a AttrBounds,
    pub w_bound: &'a SuffixSum,
    /// Give up subtrees that cannot reach a required level.
    pub use_requirement_pruning: bool,
    /// Give up subtrees that cannot rank among the best found so far.
    pub use_bnb_pruning: bool,
    pub mode: RankMode,
}

impl<'a> SearchCtx<'a> {
    pub open spec fn wf(self) -> bool {
        let k = self.slot_count as int;
        let soft = self.space.soft_excl_mask@;
        &&& self.space.wf(k)
        &&& 1 <= k <= self.space.cands@.len()
        &&& self.attr_bounds.bounds(self.space.cands@, soft, k)
        &&& self.w_bound.bounds(marked_vals(self.space.cands@, soft, false), k)
    }
}

/// Counts the attributes that can reach level `at`.
fn count_reachable(
    acc: &Accum,
    ctx: &SearchCtx,
    start: usize,
    r: usize,
    only_selected: bool,
    below: usize,
    at: usize,
    Ghost(prefix): Ghost<Seq<int>>,
) -> (count: usize)
    requires
        ctx.wf(),
        ctx.space.tracks(*acc, prefix),
        increasing(prefix),
        within(prefix, 0, start as int),
        start <= ctx.space.cands@.len(),
        prefix.len() + r == ctx.slot_count,
    ensures
        count == ctx.space.reachable(
            prefix,
            start as int,
            r as nat,
            only_selected,
            below as int,
            at as int,
        ),
        count <= ctx.space.n_attr,
{
    let n_attr: usize = ctx.space.n_attr;
    let mut count: usize = 0;
    let mut a: usize = 0;
    let ghost hit = |a: int|
        ctx.space.can_reach(
            prefix,
            start as int,
            r as nat,
            only_selected,
            below as int,
            at as int,
            a,
        );
    proof {
        ctx.space.lemma_total_and_bound(ctx.slot_count as int, prefix, start as int, r as nat);
    }
    while a < n_attr
        invariant
            a <= n_attr,
            n_attr == ctx.space.n_attr,
            ctx.wf(),
            ctx.space.tracks(*acc, prefix),
            start <= ctx.space.cands@.len(),
            prefix.len() + r == ctx.slot_count,
            hit == (|a: int|
                ctx.space.can_reach(
                    prefix,
                    start as int,
                    r as nat,
                    only_selected,
                    below as int,
                    at as int,
                    a,
                )),
            forall|a: int|
                0 <= a < n_attr && !ctx.space.soft_excl_mask@[a] ==> 0
                    <= #[trigger] ctx.space.totals(prefix)[a] + best_sum(
                    attr_vals(ctx.space.cands@, a),
                    start as int,
                    r as nat,
                ) <= i32::MAX,
            count == count_where(a as nat, hit),
            count <= a,
        decreases n_attr - a,
    {
        let wanted: bool = if only_selected {
            ctx.space.selected_mask[a]
        } else {
            !ctx.space.soft_excl_mask[a]
        };
        assert(acc.total_ints()[a as int] == acc.totals@[a as int]);
        assert(count_where((a + 1) as nat, hit) == count + (if hit(a as int) {
            1nat
        } else {
            0nat
        }));
        if wanted {
            assert(!(ctx.space.selected_mask@[a as int] && ctx.space.soft_excl_mask@[a as int]));
            let total: i32 = acc.totals[a];
            if level_of(total) < below {
                let more: i32 = ctx.attr_bounds.topr(
                    a,
                    start,
                    r,
                    Ghost(ctx.space.cands@),
                    Ghost(ctx.space.soft_excl_mask@),
                    Ghost(ctx.slot_count as int),
                );
                assert(0 <= ctx.space.totals(prefix)[a as int] + more <= i32::MAX);
                if level_of(total + more) >= at {
                    count += 1;
                }
            }
        }
        a += 1;
    }
    count
}

/// Whether no choice that goes on from the current one can rank with the key `worst` or above.
///
/// The parts of the upper score are computed one by one, and only until they decide.
pub fn should_prune(
    acc: &Accum,
    ctx: &SearchCtx,
    start: usize,
    r: usize,
    worst: &Key,
    Ghost(prefix): Ghost<Seq<int>>,
) -> (prune: bool)
    requires
        ctx.wf(),
        ctx.space.tracks(*acc, prefix),
        increasing(prefix),
        within(prefix, 0, start as int),
        start <= ctx.space.cands@.len(),
        prefix.len() + r == ctx.slot_count,
    ensures
        prune == lex_lt(
            key_of(ctx.space.upper_score(prefix, start as int, r as nat), ctx.mode),
            key_view(*worst),
        ),
{
    let ghost upper = key_of(ctx.space.upper_score(prefix, start as int, r as nat), ctx.mode);
    let ghost low = key_view(*worst);
    proof {
        lemma_tallies(*ctx.space, *acc, prefix);
        lemma_lex_at(upper, low, 0);
    }
    let ub_present: i64 = acc.sel_present as i64 + count_reachable(
        acc,
        ctx,
        start,
        r,
        true,
        1,
        1,
        Ghost(prefix),
    ) as i64;
    assert(ub_present == upper[0]);
    if ub_present < worst[0] {
        return true;
    }
    if ub_present > worst[0] {
        return false;
    }
    proof {
        lemma_lex_at(upper, low, 1);
    }
    let ub_sel6: i64 = acc.sel_lv6 as i64 + count_reachable(
        acc,
        ctx,
        start,
        r,
        true,
        6,
        6,
        Ghost(prefix),
    ) as i64;
    assert(ub_sel6 == upper[1]);
    if ub_sel6 < worst[1] {
        return true;
    }
    if ub_sel6 > worst[1] {
        return false;
    }
    proof {
        lemma_lex_at(upper, low, 2);
    }
    let ub_lv6: i64 = acc.lv6 as i64 + count_reachable(
        acc,
        ctx,
        start,
        r,
        false,
        6,
        6,
        Ghost(prefix),
    ) as i64;
    assert(ub_lv6 == upper[2]);
    if ub_lv6 < worst[2] {
        return true;
    }
    if ub_lv6 > worst[2] {
        return false;
    }
    proof {
        lemma_lex_at(upper, low, 3);
        ctx.space.lemma_total_and_bound(ctx.slot_count as int, prefix, start as int, r as nat);
    }
    match ctx.mode {
        RankMode::Link => {
            let ub_lk: i64 = upper_link(acc, ctx, start, r, Ghost(prefix));
            assert(ub_lk == upper[3]);
            if ub_lk < worst[3] {
                return true;
            }
            if ub_lk > worst[3] {
                return false;
            }
            proof {
                lemma_lex_at(upper, low, 4);
            }
            let ub_lv5: i64 = acc.lv5 as i64 + count_reachable(
                acc,
                ctx,
                start,
                r,
                false,
                5,
                5,
                Ghost(prefix),
            ) as i64;
            assert(ub_lv5 == upper[4]);
            if ub_lv5 < worst[4] {
                return true;
            }
            if ub_lv5 > worst[4] {
                return false;
            }
        },
        RankMode::Lv5 => {
            let ub_lv5: i64 = acc.lv5 as i64 + count_reachable(
                acc,
                ctx,
                start,
                r,
                false,
                5,
                5,
                Ghost(prefix),
            ) as i64;
            assert(ub_lv5 == upper[3]);
            if ub_lv5 < worst[3] {
                return true;
            }
            if ub_lv5 > worst[3] {
                return false;
            }
            proof {
                lemma_lex_at(upper, low, 4);
            }
            let ub_lk: i64 = upper_link(acc, ctx, start, r, Ghost(prefix));
            assert(ub_lk == upper[4]);
            if ub_lk < worst[4] {
                return true;
            }
            if ub_lk > worst[4] {
                return false;
            }
        },
    }
    proof {
        lemma_lex_at(upper, low, 5);
        if upper[5] == low[5] {
            lemma_lex_at(upper, low, 6);
        }
    }
    let neg_excl: i64 = -(acc.excl as i64);
    assert(neg_excl == upper[5]);
    neg_excl < worst[5]
}

/// The most that the counted value sum can reach.
fn upper_link(
    acc: &Accum,
    ctx: &SearchCtx,
    start: usize,
    r: usize,
    Ghost(prefix): Ghost<Seq<int>>,
) -> (sum: i64)
    requires
        ctx.wf(),
        ctx.space.tracks(*acc, prefix),
        increasing(prefix),
        within(prefix, 0, start as int),
        start <= ctx.space.cands@.len(),
        prefix.len() + r == ctx.slot_count,
    ensures
        sum == ctx.space.upper_score(prefix, start as int, r as nat).link,
{
    proof {
        ctx.space.lemma_total_and_bound(ctx.slot_count as int, prefix, start as int, r as nat);
    }
    let more: i32 = ctx.w_bound.topr(
        start,
        r,
        Ghost(marked_vals(ctx.space.cands@, ctx.space.soft_excl_mask@, false)),
        Ghost(ctx.slot_count as int),
    );
    let sum: i32 = acc.eval_link + more;
    sum as i64
}

/// The tallies of `acc` are the score of the choice, and none exceeds the number of attributes.
pub proof fn lemma_tallies(space: SearchSpace, acc: Accum, q: Seq<int>)
    requires
        space.tracks(acc, q),
        space.selected_mask@.len() == space.n_attr,
    ensures
        acc.score() == space.score(q),
        acc.totals@.len() == space.n_attr,
        acc.lv6 <= space.n_attr,
        acc.lv5 <= space.n_attr,
        acc.sel_lv6 <= space.n_attr,
        acc.sel_present <= space.n_attr,
{
    let n = space.n_attr as nat;
    let t = space.totals(q);
    let sel = space.selected_mask@;
    assert(acc.totals@.len() == acc.total_ints().len());
    assert(t.len() == n);
    lemma_count_le(n, |a: int| sel[a] && level(t[a]) >= 1);
    lemma_count_le(n, |a: int| sel[a] && level(t[a]) == 6);
    lemma_count_le(n, |a: int| level(t[a]) == 6);
    lemma_count_le(n, |a: int| level(t[a]) == 5);
}

/// The path as positions in the space.
pub open spec fn prefix_of(path: Seq<u32>, depth: int) -> Seq<int> {
    combo_view(path.take(depth))
}

/// Adding a candidate to a tracked choice gives the totals of the longer choice.
pub proof fn lemma_track_add(space: SearchSpace, before: Accum, after: Accum, q: Seq<int>, i: int)
    requires
        space.tracks(before, q),
        0 <= i < space.cands@.len(),
        space.soft_excl_mask@.len() == space.n_attr,
        after.wf(space.selected_mask@, space.soft_excl_mask@),
        after.moved(before, space.cands@[i].parts@, space.soft_excl_mask@, 1),
    ensures
        space.tracks(after, q.push(i)),
{
    let soft = space.soft_excl_mask@;
    lemma_pick_sum_push(marked_vals(space.cands@, soft, false), q, i);
    lemma_pick_sum_push(marked_vals(space.cands@, soft, true), q, i);
    assert(before.totals@.len() == before.total_ints().len());
    assert forall|a: int| 0 <= a < space.n_attr implies after.total_ints()[a] == space.totals(
        q.push(i),
    )[a] by {
        assert(before.total_ints()[a] == space.totals(q)[a]);
        assert(after.totals@[a] == before.totals@[a] + counted(space.cands@[i].parts@, soft, a));
        lemma_pick_sum_push(attr_vals(space.cands@, a), q, i);
    }
    assert(after.total_ints() =~= space.totals(q.push(i)));
}

/// Taking the last candidate out gives the totals of the shorter choice.
proof fn lemma_track_remove(space: SearchSpace, before: Accum, after: Accum, q: Seq<int>, i: int)
    requires
        space.tracks(before, q.push(i)),
        0 <= i < space.cands@.len(),
        space.soft_excl_mask@.len() == space.n_attr,
        after.wf(space.selected_mask@, space.soft_excl_mask@),
        after.moved(before, space.cands@[i].parts@, space.soft_excl_mask@, -1),
    ensures
        space.tracks(after, q),
{
    let soft = space.soft_excl_mask@;
    lemma_pick_sum_push(marked_vals(space.cands@, soft, false), q, i);
    lemma_pick_sum_push(marked_vals(space.cands@, soft, true), q, i);
    assert(before.totals@.len() == before.total_ints().len());
    assert forall|a: int| 0 <= a < space.n_attr implies after.total_ints()[a] == space.totals(
        q,
    )[a] by {
        assert(before.total_ints()[a] == space.totals(q.push(i))[a]);
        assert(after.totals@[a] == before.totals@[a] + -1 * counted(
            space.cands@[i].parts@,
            soft,
            a,
        ));
        lemma_pick_sum_push(attr_vals(space.cands@, a), q, i);
    }
    assert(after.total_ints() =~= space.totals(q));
}

/// Whether a candidate can be added to, and taken out of, the totals of a choice.
proof fn lemma_track_room(space: SearchSpace, k: int, acc: Accum, q: Seq<int>, i: int)
    requires
        space.wf(k),
        increasing(q.push(i)),
        within(q.push(i), 0, space.cands@.len() as int),
        q.len() < k,
    ensures
        space.tracks(acc, q) ==> acc.can_add(space.cands@[i].parts@, space.soft_excl_mask@),
        space.tracks(acc, q.push(i)) ==> acc.can_remove(
            space.cands@[i].parts@,
            space.soft_excl_mask@,
        ),
{
    let soft = space.soft_excl_mask@;
    let parts = space.cands@[i].parts@;
    let longer = q.push(i);
    assert(longer[q.len() as int] == i);
    assert forall|j: int| 0 <= j < q.len() implies 0 <= #[trigger] q[j] < space.cands@.len() by {
        assert(longer[j] == q[j]);
    }
    assert forall|x: int, y: int| 0 <= x < y < q.len() implies q[x] < q[y] by {
        assert(longer[x] < longer[y]);
    }
    space.lemma_sums(k, longer);
    space.lemma_sums(k, q);
    lemma_pick_sum_push(marked_vals(space.cands@, soft, false), q, i);
    lemma_pick_sum_push(marked_vals(space.cands@, soft, true), q, i);
    if space.tracks(acc, q) {
        assert(acc.totals@.len() == acc.total_ints().len());
        assert forall|a: int| 0 <= a < acc.totals@.len() implies #[trigger] acc.totals@[a]
            + counted(parts, soft, a) <= i32::MAX by {
            assert(acc.total_ints()[a] == space.totals(q)[a]);
            assert(space.totals(longer)[a] <= space.link(longer));
            lemma_pick_sum_push(attr_vals(space.cands@, a), q, i);
        }
    }
    if space.tracks(acc, longer) {
        assert(acc.totals@.len() == acc.total_ints().len());
        assert forall|a: int| 0 <= a < acc.totals@.len() implies #[trigger] acc.totals@[a]
            >= counted(parts, soft, a) by {
            assert(acc.total_ints()[a] == space.totals(longer)[a]);
            assert(0 <= space.totals(q)[a]);
            lemma_pick_sum_push(attr_vals(space.cands@, a), q, i);
        }
    }
}

/// The combination of a choice: the positions before the reordering, in increasing order.
pub fn sorted_combo(path: &Vec<u32>, order: &Vec<usize>) -> (combo: Vec<u32>)
    requires
        forall|j: int| 0 <= j < path@.len() ==> (#[trigger] path@[j]) < order@.len(),
        forall|i: int| 0 <= i < order@.len() ==> #[trigger] order@[i] <= u32::MAX,
    ensures
        combo_view(combo@) == images(order@, combo_view(path@)).sort(),
{
    broadcast use vstd::seq_lib::group_to_multiset_ensures;

    let ghost target = images(order@, combo_view(path@));
    let mut combo: Vec<u32> = Vec::new();
    let mut j: usize = 0;
    assert(combo_view(combo@) =~= target.take(0));
    while j < path.len()
        invariant
            j <= path@.len(),
            target == images(order@, combo_view(path@)),
            forall|j: int| 0 <= j < path@.len() ==> (#[trigger] path@[j]) < order@.len(),
            forall|i: int| 0 <= i < order@.len() ==> #[trigger] order@[i] <= u32::MAX,
            forall|x: int, y: int| 0 <= x < y < combo@.len() ==> combo@[x] <= combo@[y],
            combo_view(combo@).to_multiset() == target.take(j as int).to_multiset(),
        decreases path@.len() - j,
    {
        let v: u32 = order[path[j] as usize] as u32;
        let ghost prev = combo@;
        let mut pos: usize = combo.len();
        while pos > 0 && combo[pos - 1] > v
            invariant
                pos <= combo@.len(),
                forall|x: int| pos <= x < combo@.len() ==> combo@[x] > v,
            decreases pos,
        {
            pos -= 1;
        }
        combo.insert(pos, v);
        proof {
            assert(combo_view(combo@) =~= combo_view(prev).insert(pos as int, v as int));
            assert(target.take(j + 1) =~= target.take(j as int).push(v as int));
            vstd::seq_lib::to_multiset_insert(combo_view(prev), pos as int, v as int);
            vstd::seq_lib::to_multiset_build(target.take(j as int), v as int);
            assert(combo_view(combo@).to_multiset() =~= target.take(j + 1).to_multiset());
            assert forall|x: int, y: int| 0 <= x < y < combo@.len() implies combo@[x]
                <= combo@[y] by {
                let ox = if x < pos {
                    x
                } else {
                    x - 1
                };
                let oy = if y < pos {
                    y
                } else {
                    y - 1
                };
                if x == pos {
                    assert(prev[oy] > v);
                } else if y == pos {
                    assert(prev[ox] <= prev[pos - 1]);
                } else {
                    assert(prev[ox] <= prev[oy]);
                }
            }
        }
        j += 1;
    }
    proof {
        let leq = |x: int, y: int| x <= y;
        assert(target.take(j as int) =~= target);
        target.lemma_sort_ensures();
        let c = combo_view(combo@);
        assert(sorted_by(c, leq)) by {
            assert forall|x: int, y: int| 0 <= x < y < c.len() implies #[trigger] leq(
                c[x],
                c[y],
            ) by {
                assert(combo@[x] <= combo@[y]);
            }
        }
        vstd::seq_lib::lemma_sorted_unique(c, target.sort(), leq);
    }
    combo
}


impl SearchSpace {
    /// The part of `reach` whose next position lies below `limit`.
    pub open spec fn reach_below(
        self,
        prefix: Seq<int>,
        start: int,
        k: int,
        mode: RankMode,
        limit: int,
    ) -> Set<Entry> {
        Set::new(
            |e: Entry|
                exists|q: Seq<int>|
                    is_choice(q, self.cands@.len() as int, k) && #[trigger] goes_on(
                        q,
                        prefix,
                        start,
                    ) && q[prefix.len() as int] < limit && self.meets(q) && e == self.entry(
                        q,
                        mode,
                    ),
        )
    }

    /// Going on with position `i` is going on, and `i` comes next.
    proof fn lemma_next(self, q: Seq<int>, prefix: Seq<int>, start: int, k: int, i: int)
        requires
            is_choice(q, self.cands@.len() as int, k),
            prefix.len() < k,
            start <= i,
        ensures
            goes_on(q, prefix.push(i), i + 1) <==> goes_on(q, prefix, start) && q[prefix.len() as int]
                == i,
    {
        let d = prefix.len() as int;
        let longer = prefix.push(i);
        if goes_on(q, longer, i + 1) {
            assert(q[d] == longer[d]) by {
                assert(q.take(d + 1)[d] == q[d]);
            }
            assert(q.take(d) =~= prefix) by {
                assert forall|x: int| 0 <= x < d implies q[x] == prefix[x] by {
                    assert(q.take(d + 1)[x] == longer[x]);
                }
            }
            assert forall|j: int| d <= j < q.len() implies start <= #[trigger] q[j] by {
                if j > d {
                    assert(i + 1 <= q[j]);
                }
            }
        }
        if goes_on(q, prefix, start) && q[d] == i {
            assert(q.take(d + 1) =~= longer) by {
                assert forall|x: int| 0 <= x < d implies q[x] == longer[x] by {
                    assert(q.take(d)[x] == q[x]);
                }
            }
            assert forall|j: int| longer.len() <= j < q.len() implies i + 1 <= #[trigger] q[j] by {
                assert(q[d] < q[j]);
            }
        }
    }

    /// The combinations below `i + 1` are those below `i` and those that take `i` next; none is
    /// both.
    proof fn lemma_reach_step(
        self,
        prefix: Seq<int>,
        start: int,
        k: int,
        mode: RankMode,
        i: int,
    )
        requires
            self.wf(k),
            prefix.len() < k,
            start <= i,
        ensures
            self.reach_below(prefix, start, k, mode, i).union(
                self.reach(prefix.push(i), i + 1, k, mode),
            ) == self.reach_below(prefix, start, k, mode, i + 1),
            forall|e: Entry| #[trigger]
                self.reach(prefix.push(i), i + 1, k, mode).contains(e) ==> self.reach(
                    prefix,
                    start,
                    k,
                    mode,
                ).contains(e) && !self.reach_below(prefix, start, k, mode, i).contains(e),
    {
        let n = self.cands@.len() as int;
        let d = prefix.len() as int;
        let child = self.reach(prefix.push(i), i + 1, k, mode);
        let below = self.reach_below(prefix, start, k, mode, i);
        let more = self.reach_below(prefix, start, k, mode, i + 1);
        assert forall|e: Entry| #[trigger] child.contains(e) implies self.reach(
            prefix,
            start,
            k,
            mode,
        ).contains(e) && !below.contains(e) && more.contains(e) by {
            let q = choose|q: Seq<int>|
                is_choice(q, n, k) && #[trigger] goes_on(q, prefix.push(i), i + 1) && self.meets(q)
                    && e == self.entry(q, mode);
            self.lemma_next(q, prefix, start, k, i);
            assert(goes_on(q, prefix, start));
            if below.contains(e) {
                let p = choose|p: Seq<int>|
                    is_choice(p, n, k) && #[trigger] goes_on(p, prefix, start) && p[d] < i
                        && self.meets(p) && e == self.entry(p, mode);
                self.lemma_same_combo(k, p, q);
            }
        }
        assert forall|e: Entry| below.contains(e) implies #[trigger] more.contains(e) by {
            let q = choose|q: Seq<int>|
                is_choice(q, n, k) && #[trigger] goes_on(q, prefix, start) && q[d] < i
                    && self.meets(q) && e == self.entry(q, mode);
            assert(goes_on(q, prefix, start) && q[d] < i + 1);
        }
        assert forall|e: Entry| #[trigger] more.contains(e) implies below.contains(e)
            || child.contains(e) by {
            let q = choose|q: Seq<int>|
                is_choice(q, n, k) && #[trigger] goes_on(q, prefix, start) && q[d] < i + 1
                    && self.meets(q) && e == self.entry(q, mode);
            if q[d] < i {
                assert(below.contains(e));
            } else {
                self.lemma_next(q, prefix, start, k, i);
                assert(goes_on(q, prefix.push(i), i + 1));
                assert(child.contains(e));
            }
        }
        assert(below.union(child) =~= more);
    }

    /// Nothing lies below `start`, and all that can be reached leaves room for the rest.
    proof fn lemma_reach_ends(self, prefix: Seq<int>, start: int, k: int, mode: RankMode, limit: int)
        requires
            prefix.len() < k,
            limit > self.cands@.len() - (k - prefix.len()),
        ensures
            self.reach_below(prefix, start, k, mode, start) == Set::<Entry>::empty(),
            self.reach_below(prefix, start, k, mode, limit) == self.reach(prefix, start, k, mode),
    {
        let n = self.cands@.len() as int;
        let d = prefix.len() as int;
        assert(self.reach_below(prefix, start, k, mode, start) =~= Set::<Entry>::empty());
        let all = self.reach(prefix, start, k, mode);
        let below = self.reach_below(prefix, start, k, mode, limit);
        assert forall|e: Entry| #[trigger] all.contains(e) implies below.contains(e) by {
            let q = choose|q: Seq<int>|
                is_choice(q, n, k) && #[trigger] goes_on(q, prefix, start) && self.meets(q) && e
                    == self.entry(q, mode);
            let tail = q.skip(d);
            assert forall|x: int| 0 <= x < tail.len() implies q[d] <= #[trigger] tail[x] < n by {
                assert(tail[x] == q[d + x]);
                if x > 0 {
                    assert(q[d] < q[d + x]);
                }
            }
            assert forall|x: int, y: int| 0 <= x < y < tail.len() implies tail[x] < tail[y] by {
                assert(q[d + x] < q[d + y]);
            }
            assert(0 <= q[d] < n);
            lemma_increasing_len(tail, q[d], n);
            assert(goes_on(q, prefix, start) && q[d] < limit);
        }
        assert forall|e: Entry| #[trigger] below.contains(e) implies all.contains(e) by {
            let q = choose|q: Seq<int>|
                is_choice(q, n, k) && #[trigger] goes_on(q, prefix, start) && q[d] < limit
                    && self.meets(q) && e == self.entry(q, mode);
            assert(goes_on(q, prefix, start));
        }
        assert(below =~= all);
    }

    /// A complete choice reaches itself alone.
    proof fn lemma_reach_leaf(self, q: Seq<int>, start: int, k: int, mode: RankMode)
        requires
            is_choice(q, self.cands@.len() as int, k),
            self.meets(q),
        ensures
            self.reach(q, start, k, mode) == Set::<Entry>::empty().insert(self.entry(q, mode)),
    {
        let all = self.reach(q, start, k, mode);
        assert(q.take(q.len() as int) =~= q);
        assert(goes_on(q, q, start));
        assert forall|e: Entry| #[trigger] all.contains(e) implies e == self.entry(q, mode) by {
            let p = choose|p: Seq<int>|
                is_choice(p, self.cands@.len() as int, k) && #[trigger] goes_on(p, q, start)
                    && self.meets(p) && e == self.entry(p, mode);
            assert(p.take(q.len() as int) =~= p);
        }
        assert(all =~= Set::<Entry>::empty().insert(self.entry(q, mode)));
    }

    /// A required level out of reach leaves nothing to find.
    proof fn lemma_reach_none(self, prefix: Seq<int>, start: int, k: int, mode: RankMode, j: int)
        requires
            self.wf(k),
            0 <= start <= self.cands@.len(),
            prefix.len() <= k,
            0 <= j < self.required_idxs@.len(),
            level(
                self.totals(prefix)[self.required_idxs@[j].0 as int] + best_sum(
                    attr_vals(self.cands@, self.required_idxs@[j].0 as int),
                    start,
                    (k - prefix.len()) as nat,
                ),
            ) < self.required_idxs@[j].1,
        ensures
            self.reach(prefix, start, k, mode) == Set::<Entry>::empty(),
    {
        let all = self.reach(prefix, start, k, mode);
        assert forall|e: Entry| !#[trigger] all.contains(e) by {
            if all.contains(e) {
                let q = choose|q: Seq<int>|
                    is_choice(q, self.cands@.len() as int, k) && #[trigger] goes_on(
                        q,
                        prefix,
                        start,
                    ) && self.meets(q) && e == self.entry(q, mode);
                self.lemma_rest_bounds(k, q, prefix, start);
                let a = self.required_idxs@[j].0 as int;
                assert(level(self.totals(q)[a]) >= self.required_idxs@[j].1);
            }
        }
        assert(all =~= Set::<Entry>::empty());
    }

    /// Where the upper score ranks below the worst kept key, nothing found can be kept.
    proof fn lemma_reach_pruned(
        self,
        prefix: Seq<int>,
        start: int,
        k: int,
        mode: RankMode,
        list: Seq<Entry>,
        cap: nat,
        all: Set<Entry>,
    )
        requires
            self.wf(k),
            0 <= start <= self.cands@.len(),
            prefix.len() <= k,
            is_top(list, cap, all),
            list.len() == cap,
            cap > 0,
            lex_lt(
                key_of(self.upper_score(prefix, start, (k - prefix.len()) as nat), mode),
                list.last().key,
            ),
        ensures
            is_top(list, cap, all.union(self.reach(prefix, start, k, mode))),
    {
        let more = self.reach(prefix, start, k, mode);
        let upper = key_of(self.upper_score(prefix, start, (k - prefix.len()) as nat), mode);
        let last = list[list.len() - 1];
        assert forall|e: Entry| #[trigger] more.contains(e) && !all.contains(e) implies list.len()
            == cap && forall|i: int|
            0 <= i < list.len() ==> better(#[trigger] list[i], e) by {
            let q = choose|q: Seq<int>|
                is_choice(q, self.cands@.len() as int, k) && #[trigger] goes_on(q, prefix, start)
                    && self.meets(q) && e == self.entry(q, mode);
            self.lemma_upper_score(k, q, prefix, start, mode);
            if e.key != upper {
                lemma_lex_transitive(e.key, upper, last.key);
            }
            assert(better(last, e));
            assert forall|i: int| 0 <= i < list.len() implies better(#[trigger] list[i], e) by {
                if i < list.len() - 1 {
                    assert(better(list[i], list[list.len() - 1]));
                    lemma_better_transitive(list[i], last, e);
                }
            }
        }
        lemma_top_grow(list, cap, all, more);
    }
}

/// Searches all choices that go on from the first `depth` positions of `path`, at `start` or
/// later, and offers what it finds to `top`. The totals come back as they were.
pub fn dfs(
    depth: usize,
    start: usize,
    ctx: &SearchCtx,
    acc: &mut Accum,
    path: &mut Vec<u32>,
    top: &mut TopK,
    Ghost(all): Ghost<Set<Entry>>,
)
    requires
        ctx.wf(),
        depth <= ctx.slot_count,
        start <= ctx.space.cands@.len(),
        old(path)@.len() == ctx.slot_count,
        increasing(prefix_of(old(path)@, depth as int)),
        within(prefix_of(old(path)@, depth as int), 0, start as int),
        ctx.space.tracks(*old(acc), prefix_of(old(path)@, depth as int)),
        old(top).holds(all),
        forall|e: Entry| #[trigger]
            ctx.space.reach(
                prefix_of(old(path)@, depth as int),
                start as int,
                ctx.slot_count as int,
                ctx.mode,
            ).contains(e) ==> !all.contains(e) && old(top).cap >= 1,
    ensures
        final(path)@.len() == ctx.slot_count,
        final(path)@.take(depth as int) == old(path)@.take(depth as int),
        ctx.space.tracks(*final(acc), prefix_of(old(path)@, depth as int)),
        final(top).cap == old(top).cap,
        final(top).holds(
            all.union(
                ctx.space.reach(
                    prefix_of(old(path)@, depth as int),
                    start as int,
                    ctx.slot_count as int,
                    ctx.mode,
                ),
            ),
        ),
    decreases ctx.slot_count - depth,
{
    let r: usize = ctx.slot_count - depth;
    let ghost k = ctx.slot_count as int;
    let ghost n = ctx.space.cands@.len() as int;
    let ghost mode = ctx.mode;
    let ghost prefix = prefix_of(path@, depth as int);
    let ghost found = ctx.space.reach(prefix, start as int, k, mode);
    proof {
        ctx.space.lemma_total_and_bound(k, prefix, start as int, r as nat);
    }
    if r == 0 || ctx.use_requirement_pruning {
        let mut j: usize = 0;
        while j < ctx.space.required_idxs.len()
            invariant
                ctx.wf(),
                j <= ctx.space.required_idxs@.len(),
                r == ctx.slot_count - depth,
                depth <= ctx.slot_count,
                k == ctx.slot_count,
                mode == ctx.mode,
                n == ctx.space.cands@.len(),
                start <= n,
                path@ == old(path)@,
                *top == *old(top),
                prefix == prefix_of(old(path)@, depth as int),
                path@.len() == ctx.slot_count,
                prefix.len() == depth,
                ctx.space.tracks(*acc, prefix),
                found == ctx.space.reach(prefix, start as int, k, mode),
                top.holds(all),
                forall|a: int|
                    0 <= a < ctx.space.n_attr && !ctx.space.soft_excl_mask@[a] ==> 0
                        <= #[trigger] ctx.space.totals(prefix)[a] + best_sum(
                        attr_vals(ctx.space.cands@, a),
                        start as int,
                        r as nat,
                    ) <= i32::MAX,
                forall|x: int|
                    0 <= x < j ==> level(
                        ctx.space.totals(prefix)[(#[trigger] ctx.space.required_idxs@[x]).0 as int]
                            + best_sum(
                            attr_vals(ctx.space.cands@, ctx.space.required_idxs@[x].0 as int),
                            start as int,
                            r as nat,
                        ),
                    ) >= ctx.space.required_idxs@[x].1,
            decreases ctx.space.required_idxs@.len() - j,
        {
            let idx: usize = ctx.space.required_idxs[j].0;
            let lv: usize = ctx.space.required_idxs[j].1;
            assert(!ctx.space.soft_excl_mask@[ctx.space.required_idxs@[j as int].0 as int]);
            let upper: i32 = ctx.attr_bounds.topr(
                idx,
                start,
                r,
                Ghost(ctx.space.cands@),
                Ghost(ctx.space.soft_excl_mask@),
                Ghost(k),
            );
            assert(acc.total_ints()[idx as int] == acc.totals@[idx as int]);
            assert(0 <= ctx.space.totals(prefix)[idx as int] + upper <= i32::MAX);
            if level_of(acc.totals[idx] + upper) < lv {
                proof {
                    ctx.space.lemma_reach_none(prefix, start as int, k, mode, j as int);
                    assert(all.union(found) =~= all);
                }
                return;
            }
            j += 1;
        }
    }
    if r > 0 && ctx.use_bnb_pruning {
        if let Some(worst) = top.worst_key() {
            if should_prune(acc, ctx, start, r, &worst, Ghost(prefix)) {
                proof {
                    let list = entries(top.items@);
                    assert(list.last().key == key_view(worst));
                    ctx.space.lemma_reach_pruned(
                        prefix,
                        start as int,
                        k,
                        mode,
                        list,
                        top.cap as nat,
                        all,
                    );
                }
                return;
            }
        }
    }
    if depth == ctx.slot_count {
        proof {
            assert(path@.take(depth as int) =~= path@);
            assert(prefix == combo_view(path@));
            assert forall|j: int| 0 <= j < path@.len() implies (#[trigger] path@[j])
                < ctx.space.order@.len() by {
                assert(prefix[j] == path@[j]);
            }
            assert(is_choice(prefix, n, k)) by {
                assert forall|i: int| 0 <= i < prefix.len() implies 0 <= #[trigger] prefix[i]
                    < n by {}
            }
            assert(ctx.space.meets(prefix)) by {
                assert forall|x: int| 0 <= x < ctx.space.required_idxs@.len() implies level(
                    ctx.space.totals(prefix)[(#[trigger] ctx.space.required_idxs@[x]).0 as int],
                ) >= ctx.space.required_idxs@[x].1 by {}
            }
            lemma_tallies(*ctx.space, *acc, prefix);
            ctx.space.lemma_reach_leaf(prefix, start as int, k, mode);
        }
        let combo: Vec<u32> = sorted_combo(path, &ctx.space.order);
        let key: Key = acc.key(ctx.mode);
        proof {
            let e = Entry { key: key_view(key), combo: combo_view(combo@) };
            assert(e == ctx.space.entry(prefix, mode));
            assert(found.contains(e));
            assert(all.union(found) =~= all.insert(e));
            lemma_offer_top(entries(top.items@), top.cap as nat, all, e);
        }
        top.offer(key, combo.as_slice());
        return;
    }
    let last: usize = ctx.space.cands.len() - r;
    let mut i: usize = start;
    proof {
        ctx.space.lemma_reach_ends(prefix, start as int, k, mode, last + 1);
        assert(all.union(ctx.space.reach_below(prefix, start as int, k, mode, start as int)) =~= all);
        if start > last {
            ctx.space.lemma_reach_ends(prefix, start as int, k, mode, start as int);
            assert(found =~= Set::<Entry>::empty());
        }
    }
    while i <= last
        invariant
            ctx.wf(),
            start <= i,
            i <= last + 1 || i == start,
            depth < ctx.slot_count,
            r == ctx.slot_count - depth,
            last == n - r,
            k == ctx.slot_count,
            mode == ctx.mode,
            n == ctx.space.cands@.len(),
            start <= n,
            path@.len() == ctx.slot_count,
            old(path)@.len() == ctx.slot_count,
            path@.take(depth as int) == old(path)@.take(depth as int),
            prefix == prefix_of(old(path)@, depth as int),
            prefix.len() == depth,
            increasing(prefix),
            within(prefix, 0, start as int),
            ctx.space.tracks(*acc, prefix),
            found == ctx.space.reach(prefix, start as int, k, mode),
            forall|e: Entry| #[trigger]
                found.contains(e) ==> !all.contains(e) && old(top).cap >= 1,
            top.cap == old(top).cap,
            top.holds(
                all.union(ctx.space.reach_below(prefix, start as int, k, mode, i as int)),
            ),
        decreases last + 1 - i,
    {
        let ghost longer = prefix.push(i as int);
        let ghost seen = all.union(
            ctx.space.reach_below(prefix, start as int, k, mode, i as int),
        );
        let ghost child = ctx.space.reach(longer, i + 1, k, mode);
        proof {
            assert forall|x: int, y: int| 0 <= x < y < longer.len() implies longer[x]
                < longer[y] by {
                if y == depth {
                    assert(prefix[x] < start);
                } else {
                    assert(prefix[x] < prefix[y]);
                }
            }
            assert forall|x: int| 0 <= x < longer.len() implies 0 <= #[trigger] longer[x] < i
                + 1 by {
                if x < depth {
                    assert(0 <= prefix[x] < start);
                }
            }
            assert(within(longer, 0, n)) by {
                assert forall|x: int| 0 <= x < longer.len() implies 0 <= #[trigger] longer[x]
                    < n by {
                    assert(longer[x] < i + 1);
                }
            }
            lemma_track_room(*ctx.space, k, *acc, prefix, i as int);
            ctx.space.lemma_reach_step(prefix, start as int, k, mode, i as int);
        }
        let ghost before = *acc;
        assert(acc.totals@.len() == acc.total_ints().len());
        acc.add(
            &ctx.space.cands[i],
            ctx.space.selected_mask.as_slice(),
            ctx.space.soft_excl_mask.as_slice(),
        );
        proof {
            lemma_track_add(*ctx.space, before, *acc, prefix, i as int);
        }
        let ghost path_old = path@;
        path.set(depth, i as u32);
        assert(prefix_of(path@, depth + 1) =~= longer) by {
            assert forall|x: int| 0 <= x < depth implies path@[x] == old(path)@[x] by {
                assert(path_old.take(depth as int)[x] == old(path)@.take(depth as int)[x]);
            }
        }
        let ghost path_before = path@;
        dfs(depth + 1, i + 1, ctx, acc, path, top, Ghost(seen));
        proof {
            assert(path@.take(depth as int) =~= old(path)@.take(depth as int)) by {
                assert forall|x: int| 0 <= x < depth implies path@[x] == old(path)@[x] by {
                    assert(path@.take(depth + 1)[x] == path_before.take(depth + 1)[x]);
                    assert(prefix_of(path_before, depth + 1)[x] == longer[x]);
                }
            }
            lemma_track_room(*ctx.space, k, *acc, prefix, i as int);
            assert(seen.union(child) =~= all.union(
                ctx.space.reach_below(prefix, start as int, k, mode, i + 1),
            ));
        }
        let ghost mid = *acc;
        assert(acc.totals@.len() == acc.total_ints().len());
        acc.remove(
            &ctx.space.cands[i],
            ctx.space.selected_mask.as_slice(),
            ctx.space.soft_excl_mask.as_slice(),
        );
        proof {
            lemma_track_remove(*ctx.space, mid, *acc, prefix, i as int);
        }
        i += 1;
    }
    proof {
        if start <= last {
            assert(i == last + 1);
        } else {
            assert(i == start);
        }
    }
}

/// A full list of entries that all rank before `e` keeps `e` out of any list of the best.
pub proof fn lemma_top_keeps_out(list: Seq<Entry>, cap: nat, all: Set<Entry>, part: Seq<Entry>, e: Entry)
    requires
        is_top(list, cap, all),
        part.len() == cap,
        forall|i: int, j: int| 0 <= i < j < part.len() ==> better(part[i], part[j]),
        forall|i: int| 0 <= i < part.len() ==> all.contains(#[trigger] part[i]),
        forall|i: int| 0 <= i < part.len() ==> better(#[trigger] part[i], e),
    ensures
        list.len() == cap,
        forall|i: int| 0 <= i < list.len() ==> better(#[trigger] list[i], e),
{
    if exists|i: int| 0 <= i < part.len() && !list.contains(#[trigger] part[i]) {
        let i = choose|i: int| 0 <= i < part.len() && !list.contains(#[trigger] part[i]);
        assert(all.contains(part[i]));
        assert forall|j: int| 0 <= j < list.len() implies better(#[trigger] list[j], e) by {
            lemma_better_transitive(list[j], part[i], e);
        }
    } else {
        lemma_sorted_distinct(list);
        lemma_sorted_distinct(part);
        list.unique_seq_to_set();
        part.unique_seq_to_set();
        assert(part.to_set().subset_of(list.to_set())) by {
            assert forall|x: Entry| part.to_set().contains(x) implies list.to_set().contains(x) by {
                let i = choose|i: int| 0 <= i < part.len() && part[i] == x;
                assert(list.contains(part[i]));
            }
        }
        vstd::set_lib::lemma_len_subset(part.to_set(), list.to_set());
        vstd::set_lib::lemma_subset_equality(part.to_set(), list.to_set());
        assert forall|j: int| 0 <= j < list.len() implies better(#[trigger] list[j], e) by {
            assert(list.to_set().contains(list[j]));
            assert(part.contains(list[j]));
            let i = choose|i: int| 0 <= i < part.len() && part[i] == list[j];
            assert(better(part[i], e));
        }
    }
}

pub proof fn lemma_sorted_distinct(list: Seq<Entry>)
    requires
        forall|i: int, j: int| 0 <= i < j < list.len() ==> better(list[i], list[j]),
    ensures
        list.no_duplicates(),
{
    assert forall|i: int, j: int| 0 <= i < j < list.len() implies list[i] != list[j] by {
        lemma_better_irreflexive(list[i]);
    }
}

/// The best combinations whose first position is `i0`.
fn search_subtree(ctx: &SearchCtx, i0: usize, top_k: usize) -> (list: Vec<Ranked>)
    requires
        ctx.wf(),
        forall|e: Entry| #[trigger]
            ctx.space.reach(seq![i0 as int], i0 + 1, ctx.slot_count as int, ctx.mode).contains(e)
                ==> top_k >= 1,
        i0 <= ctx.space.cands@.len() - ctx.slot_count,
    ensures
        is_top(
            entries(list@),
            top_k as nat,
            ctx.space.reach(seq![i0 as int], i0 + 1, ctx.slot_count as int, ctx.mode),
        ),
{
    let ghost k = ctx.slot_count as int;
    let ghost none = Seq::<int>::empty();
    let ghost one = seq![i0 as int];
    let mut acc = Accum::new(ctx.space.n_attr);
    let mut path: Vec<u32> = vec![0u32; ctx.slot_count];
    let mut top = TopK::new(top_k);
    proof {
        assert(acc.wf(ctx.space.selected_mask@, ctx.space.soft_excl_mask@));
        assert(acc.total_ints() =~= ctx.space.totals(none));
        assert(ctx.space.tracks(acc, none));
        assert(none.push(i0 as int) =~= one);
        assert(increasing(one));
        assert(within(one, 0, ctx.space.cands@.len() as int));
        lemma_track_room(*ctx.space, k, acc, none, i0 as int);
    }
    let ghost before = acc;
    acc.add(
        &ctx.space.cands[i0],
        ctx.space.selected_mask.as_slice(),
        ctx.space.soft_excl_mask.as_slice(),
    );
    proof {
        lemma_track_add(*ctx.space, before, acc, none, i0 as int);
    }
    path.set(0, i0 as u32);
    assert(prefix_of(path@, 1) =~= one);
    assert(within(one, 0, i0 + 1));
    let ghost nothing = Set::<Entry>::empty();
    dfs(1, i0 + 1, ctx, &mut acc, &mut path, &mut top, Ghost(nothing));
    assert(nothing.union(ctx.space.reach(one, i0 + 1, k, ctx.mode)) =~= ctx.space.reach(
        one,
        i0 + 1,
        k,
        ctx.mode,
    ));
    top.into_vec()
}

/// The counted value sum of each candidate.
fn counted_sums(space: &SearchSpace, slot_count: usize) -> (w: Vec<i32>)
    requires
        space.wf(slot_count as int),
        slot_count >= 1,
    ensures
        ints(w@) == marked_vals(space.cands@, space.soft_excl_mask@, false),
{
    let ghost soft = space.soft_excl_mask@;
    proof {
        space.lemma_tables_fit(slot_count as int);
    }
    let mut w: Vec<i32> = Vec::new();
    let mut i: usize = 0;
    while i < space.cands.len()
        invariant
            i <= space.cands@.len(),
            space.wf(slot_count as int),
            soft == space.soft_excl_mask@,
            w@.len() == i,
            forall|j: int|
                0 <= j < space.cands@.len() ==> #[trigger] marked_sum(
                    space.cands@[j].parts@,
                    soft,
                    false,
                ) <= i32::MAX,
            forall|j: int|
                0 <= j < i ==> w@[j] == marked_sum(space.cands@[j].parts@, soft, false),
        decreases space.cands@.len() - i,
    {
        assert(marked_sum(space.cands@[i as int].parts@, soft, false) <= i32::MAX);
        w.push(sum_marked(&space.cands[i], &space.soft_excl_mask, space.n_attr, false));
        i += 1;
    }
    assert(ints(w@) =~= marked_vals(space.cands@, soft, false));
    w
}

/// The best `top_k` of all choices of `slot_count` candidates that reach the required levels, the
/// best first. Neither kind of pruning changes the result.
pub fn search_space(
    space: &SearchSpace,
    top_k: usize,
    slot_count: usize,
    mode: RankMode,
    use_requirement_pruning: bool,
    use_bnb_pruning: bool,
) -> (ranked: Vec<Ranked>)
    requires
        space.wf(slot_count as int),
        1 <= slot_count <= space.cands@.len(),
        forall|e: Entry| #[trigger]
            space.all_entries(slot_count as int, mode).contains(e) ==> top_k >= 1,
    ensures
        is_top(entries(ranked@), top_k as nat, space.all_entries(slot_count as int, mode)),
{
    let n: usize = space.cands.len();
    let ghost k = slot_count as int;
    proof {
        space.lemma_tables_fit(k);
    }
    let w_sorted: Vec<i32> = counted_sums(space, slot_count);
    let attr_bounds = AttrBounds::build(
        &space.cands,
        space.n_attr,
        &space.soft_excl_mask,
        slot_count,
    );
    assert(w_sorted@.len() == ints(w_sorted@).len());
    let w_bound = SuffixSum::build(w_sorted.as_slice(), slot_count);
    let ctx = SearchCtx {
        slot_count,
        space,
        attr_bounds: &attr_bounds,
        w_bound: &w_bound,
        use_requirement_pruning,
        use_bnb_pruning,
        mode,
    };
    let firsts: usize = n - slot_count + 1;
    proof {
        assert forall|i: int, e: Entry|
            0 <= i < firsts && #[trigger] space.reach(seq![i], i + 1, k, mode).contains(
                e,
            ) implies top_k >= 1 by {
            let none = Seq::<int>::empty();
            assert(none.push(i) =~= seq![i]);
            space.lemma_reach_step(none, 0, k, mode, i);
            assert(space.all_entries(k, mode).contains(e));
        }
    }
    let subtree = |i0: usize| -> (list: Vec<Ranked>)
        requires
            i0 < firsts,
        ensures
            is_top(
                entries(list@),
                top_k as nat,
                space.reach(seq![i0 as int], i0 + 1, slot_count as int, mode),
            ),
    {
        search_subtree(&ctx, i0, top_k)
    };
    let lists: Vec<Vec<Ranked>> = par_map(firsts, subtree);
    proof {
        assert forall|i: int| 0 <= i < firsts implies is_top(
            entries((#[trigger] lists@[i])@),
            top_k as nat,
            space.reach(seq![i], i + 1, k, mode),
        ) by {
            let u = i as usize;
            assert(lists@[u as int] == lists@[i]);
        }
    }
    merge_subtrees(space, &lists, top_k, slot_count, mode)
}

/// Joins the best combinations of the subtrees.
fn merge_subtrees(
    space: &SearchSpace,
    lists: &Vec<Vec<Ranked>>,
    top_k: usize,
    slot_count: usize,
    mode: RankMode,
) -> (ranked: Vec<Ranked>)
    requires
        space.wf(slot_count as int),
        1 <= slot_count <= space.cands@.len(),
        lists@.len() == space.cands@.len() - slot_count + 1,
        forall|i: int|
            0 <= i < lists@.len() ==> is_top(
                entries((#[trigger] lists@[i])@),
                top_k as nat,
                space.reach(seq![i], i + 1, slot_count as int, mode),
            ),
    ensures
        is_top(entries(ranked@), top_k as nat, space.all_entries(slot_count as int, mode)),
{
    let ghost k = slot_count as int;
    let ghost none = Seq::<int>::empty();
    let mut top = TopK::new(top_k);
    let mut i: usize = 0;
    proof {
        space.lemma_reach_ends(none, 0, k, mode, lists@.len() as int);
    }
    while i < lists.len()
        invariant
            i <= lists@.len(),
            k == slot_count,
            none == Seq::<int>::empty(),
            space.wf(k),
            k >= 1,
            top.cap == top_k,
            top.holds(space.reach_below(none, 0, k, mode, i as int)),
            forall|i: int|
                0 <= i < lists@.len() ==> is_top(
                    entries((#[trigger] lists@[i])@),
                    top_k as nat,
                    space.reach(seq![i], i + 1, slot_count as int, mode),
                ),
        decreases lists@.len() - i,
    {
        let ghost below = space.reach_below(none, 0, k, mode, i as int);
        let ghost sub = space.reach(seq![i as int], i + 1, k, mode);
        let ghost part = entries(lists@[i as int]@);
        proof {
            assert(none.push(i as int) =~= seq![i as int]);
            space.lemma_reach_step(none, 0, k, mode, i as int);
            assert(is_top(part, top_k as nat, sub));
            lemma_sorted_distinct(part);
            assert(below.union(part.take(0).to_set()) =~= below);
        }
        let mut j: usize = 0;
        while j < lists[i].len()
            invariant
                i < lists@.len(),
                j <= lists@[i as int]@.len(),
                part == entries(lists@[i as int]@),
                part.no_duplicates(),
                is_top(part, top_k as nat, sub),
                forall|e: Entry| #[trigger] sub.contains(e) ==> !below.contains(e),
                top.cap == top_k,
                top.holds(below.union(part.take(j as int).to_set())),
            decreases lists@[i as int]@.len() - j,
        {
            let item: &Ranked = &lists[i][j];
            let ghost seen = below.union(part.take(j as int).to_set());
            let ghost e = part[j as int];
            proof {
                assert(e == item@);
                assert(sub.contains(e));
                assert(!part.take(j as int).contains(e));
                assert(!seen.contains(e));
                lemma_offer_top(entries(top.items@), top_k as nat, seen, e);
            }
            top.offer(item.key, item.combo.as_slice());
            proof {
                let next = part.take(j + 1);
                assert(next =~= part.take(j as int).push(e));
                assert(seen.insert(e) =~= below.union(next.to_set())) by {
                    assert forall|x: Entry| next.contains(x) implies #[trigger] seen.insert(
                        e,
                    ).contains(x) by {
                        let y = choose|y: int| 0 <= y < next.len() && next[y] == x;
                        if y < j {
                            assert(part.take(j as int)[y] == x);
                        }
                    }
                    assert forall|x: Entry| part.take(j as int).contains(x) implies next.contains(
                        x,
                    ) by {
                        let y = choose|y: int| 0 <= y < j && part.take(j as int)[y] == x;
                        assert(next[y] == x);
                    }
                    assert(next[j as int] == e);
                }
            }
            j += 1;
        }
        proof {
            assert(part.take(j as int) =~= part);
            let seen = below.union(part.to_set());
            let list = entries(top.items@);
            assert forall|e: Entry| #[trigger] sub.contains(e) && !seen.contains(e) implies list.len()
                == top_k && forall|x: int|
                0 <= x < list.len() ==> better(#[trigger] list[x], e) by {
                assert(!part.contains(e));
                assert forall|x: int| 0 <= x < part.len() implies seen.contains(
                    #[trigger] part[x],
                ) by {
                    assert(part.contains(part[x]));
                }
                lemma_top_keeps_out(list, top_k as nat, seen, part, e);
            }
            lemma_top_grow(list, top_k as nat, seen, sub);
            assert forall|x: Entry| part.contains(x) implies #[trigger] sub.contains(x) by {
                let y = choose|y: int| 0 <= y < part.len() && part[y] == x;
                assert(sub.contains(part[y]));
            }
            assert(seen.union(sub) =~= below.union(sub));
        }
        i += 1;
    }
    top.into_vec()
}

} // verus!
