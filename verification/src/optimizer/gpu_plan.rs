//! A search on a graphics device: what is sent, what is made of the answer, and when the device is
//! not used at all.
//!
//! The device evaluates every combination and hands back those whose packed key reaches a
//! threshold. Keys are computed anew from what comes back; the device decides nothing.

use crate::optimizer::accum::{
    attr_sum, counted, key_of, key_view, lemma_attr_sum_bounds, marked_sum, Accum, Key, RankMode,
};
use crate::optimizer::bounds::{attr_vals, marked_vals};
use crate::optimizer::ranking::{
    combo_view, entries, is_best_of, law_offers_keep_the_best, offered, Entry, Ranked, TopK,
};
use crate::optimizer::search::{lemma_tallies, lemma_track_add, sorted_combo};
use crate::optimizer::space::{images, SearchSpace};
use crate::optimizer::sums::within;
use vstd::prelude::*;
use vstd::string::*;

verus! {

/// Candidates so small in value that sums over a few of them fit any counter.
pub open spec fn small_values(space: SearchSpace) -> bool {
    forall|i: int, flag: bool|
        0 <= i < space.cands@.len() ==> #[trigger] marked_sum(
            space.cands@[i].parts@,
            space.soft_excl_mask@,
            flag,
        ) <= 0xFFFF
}

/// A run of positions as integers.
pub open spec fn raw_choice(raw: Seq<u32>, k: int) -> Seq<int> {
    Seq::new(k as nat, |j: int| raw[j] as int)
}

/// The message for positions that no candidate has.
pub open spec fn range_message() -> Seq<char> {
    "GPU出力comboのインデックスが探索範囲外です（実行時異常）"@
}

/// Sums over a choice of `small` candidates, in whatever order and however often they occur.
pub proof fn lemma_small_sums(space: SearchSpace, k: int, q: Seq<int>)
    requires
        space.wf(k),
        small_values(space),
        within(q, 0, space.cands@.len() as int),
    ensures
        0 <= space.link(q) <= 0xFFFF * q.len(),
        0 <= space.left_out(q) <= 0xFFFF * q.len(),
        forall|a: int|
            0 <= a < space.n_attr ==> 0 <= #[trigger] space.totals(q)[a] <= 0xFFFF * q.len(),
    decreases q.len(),
{
    let mv = marked_vals(space.cands@, space.soft_excl_mask@, false);
    let sv = marked_vals(space.cands@, space.soft_excl_mask@, true);
    space.lemma_vals(k);
    if q.len() > 0 {
        let p = q.drop_last();
        assert forall|i: int| 0 <= i < p.len() implies 0 <= #[trigger] p[i]
            < space.cands@.len() by {
            assert(p[i] == q[i]);
        }
        lemma_small_sums(space, k, p);
        let x = q[q.len() - 1];
        assert(0 <= x < space.cands@.len());
        assert(0 <= mv[x] && 0 <= sv[x]);
        assert(marked_sum(space.cands@[x].parts@, space.soft_excl_mask@, false) <= 0xFFFF);
        assert(marked_sum(space.cands@[x].parts@, space.soft_excl_mask@, true) <= 0xFFFF);
        assert forall|a: int| 0 <= a < space.n_attr implies 0 <= #[trigger] space.totals(q)[a]
            <= 0xFFFF * q.len() by {
            assert(0 <= space.totals(p)[a]);
            if !space.soft_excl_mask@[a] {
                assert(0 <= attr_vals(space.cands@, a)[x] <= mv[x]);
            }
        }
    }
}

/// Ranks what the device handed back for one combination: the key is computed anew, the positions
/// before the reordering are sorted.
pub fn recompute_combo(space: &SearchSpace, slot_count: usize, raw: &[u32], mode: RankMode) -> (r:
    Result<(Key, Vec<u32>), String>)
    requires
        space.wf(slot_count as int),
        small_values(*space),
        slot_count <= 0x7FFF,
        slot_count <= raw@.len(),
    ensures
        r is Ok <==> within(
            raw_choice(raw@, slot_count as int),
            0,
            space.cands@.len() as int,
        ),
        r matches Ok((key, combo)) ==> key_view(key) == key_of(
            space.score(raw_choice(raw@, slot_count as int)),
            mode,
        ) && combo_view(combo@) == images(
            space.order@,
            raw_choice(raw@, slot_count as int),
        ).sort(),
        r matches Err(message) ==> message@ == range_message(),
{
    let ghost k = slot_count as int;
    let ghost q = raw_choice(raw@, k);
    let ghost n = space.cands@.len() as int;
    let mut acc = Accum::new(space.n_attr);
    let mut picks: Vec<u32> = Vec::new();
    let mut j: usize = 0;
    proof {
        assert(acc.wf(space.selected_mask@, space.soft_excl_mask@));
        assert(q.take(0) =~= Seq::<int>::empty());
        assert(acc.total_ints() =~= space.totals(q.take(0)));
    }
    while j < slot_count
        invariant
            j <= slot_count,
            k == slot_count,
            slot_count <= raw@.len(),
            slot_count <= 0x7FFF,
            n == space.cands@.len(),
            q == raw_choice(raw@, k),
            space.wf(k),
            small_values(*space),
            within(q.take(j as int), 0, n),
            space.tracks(acc, q.take(j as int)),
            picks@.len() == j,
            forall|x: int| 0 <= x < j ==> #[trigger] picks@[x] == raw@[x],
        decreases slot_count - j,
    {
        let at: usize = raw[j] as usize;
        if at >= space.cands.len() {
            assert(q[j as int] >= n);
            return Err(String::from_str("GPU出力comboのインデックスが探索範囲外です（実行時異常）"));
        }
        let ghost done = q.take(j as int);
        let ghost more = q.take(j + 1);
        let ghost before = acc;
        proof {
            assert(more =~= done.push(at as int));
            assert forall|x: int| 0 <= x < more.len() implies 0 <= #[trigger] more[x] < n by {
                if x < j {
                    assert(more[x] == done[x]);
                }
            }
            lemma_small_sums(*space, k, done);
            lemma_small_sums(*space, k, more);
            lemma_room(*space, k, acc, done, at as int);
            assert(acc.totals@.len() == acc.total_ints().len());
        }
        acc.add(
            &space.cands[at],
            space.selected_mask.as_slice(),
            space.soft_excl_mask.as_slice(),
        );
        proof {
            lemma_track_add(*space, before, acc, done, at as int);
        }
        picks.push(raw[j]);
        j += 1;
    }
    proof {
        assert(q.take(j as int) =~= q);
        lemma_tallies(*space, acc, q);
        assert(combo_view(picks@) =~= q);
        assert forall|x: int| 0 <= x < picks@.len() implies (#[trigger] picks@[x])
            < space.order@.len() by {
            assert(0 <= q[x] < n);
        }
    }
    let key: Key = acc.key(mode);
    let combo: Vec<u32> = sorted_combo(&picks, &space.order);
    Ok((key, combo))
}

proof fn lemma_room(space: SearchSpace, k: int, acc: Accum, q: Seq<int>, i: int)
    requires
        space.wf(k),
        space.tracks(acc, q),
        q.len() < 0x7FFF,
        0 <= i < space.cands@.len(),
        small_values(space),
        within(q, 0, space.cands@.len() as int),
    ensures
        acc.can_add(space.cands@[i].parts@, space.soft_excl_mask@),
{
    let soft = space.soft_excl_mask@;
    let parts = space.cands@[i].parts@;
    lemma_small_sums(space, k, q);
    assert(marked_sum(parts, soft, false) <= 0xFFFF);
    assert(marked_sum(parts, soft, true) <= 0xFFFF);
    lemma_attr_sum_bounds(parts, soft, space.n_attr as int);
    assert(acc.totals@.len() == acc.total_ints().len());
    assert forall|a: int| 0 <= a < acc.totals@.len() implies #[trigger] acc.totals@[a] + counted(
        parts,
        soft,
        a,
    ) <= i32::MAX by {
        assert(acc.total_ints()[a] == space.totals(q)[a]);
        assert(attr_sum(parts, a) <= marked_sum(parts, soft, soft[a]));
    }
}

/// Whether no two combinations of a list are the same.
pub open spec fn distinct_combos(list: Seq<Entry>) -> bool {
    forall|i: int, j: int| 0 <= i < j < list.len() ==> list[i].combo != list[j].combo
}

/// Pairs of a key and a combination as entries.
pub open spec fn pair_entries(pairs: Seq<(Key, Vec<u32>)>) -> Seq<Entry> {
    Seq::new(
        pairs.len(),
        |i: int| Entry { key: key_view(pairs[i].0), combo: combo_view(pairs[i].1@) },
    )
}

/// Whether an entry of `list` has the combination `combo`.
pub open spec fn has_combo(list: Seq<Entry>, combo: Seq<int>) -> bool {
    exists|i: int| 0 <= i < list.len() && (#[trigger] list[i]).combo == combo
}

/// Those of `extra` whose combination `seed` does not have, in order.
pub open spec fn unseen(seed: Seq<Entry>, extra: Seq<Entry>) -> Seq<Entry>
    decreases extra.len(),
{
    if extra.len() == 0 {
        seq![]
    } else {
        let before = unseen(seed, extra.drop_last());
        if has_combo(seed, extra.last().combo) {
            before
        } else {
            before.push(extra.last())
        }
    }
}

/// The entries of `seed`, and those of `extra` whose combination `seed` does not have.
pub open spec fn merged(seed: Seq<Entry>, extra: Seq<Entry>) -> Seq<Entry> {
    seed + unseen(seed, extra)
}

/// What is unseen.
proof fn lemma_unseen(seed: Seq<Entry>, extra: Seq<Entry>)
    ensures
        forall|i: int|
            0 <= i < unseen(seed, extra).len() ==> extra.contains(
                #[trigger] unseen(seed, extra)[i],
            ) && !has_combo(seed, unseen(seed, extra)[i].combo),
        distinct_combos(extra) ==> distinct_combos(unseen(seed, extra)),
    decreases extra.len(),
{
    if extra.len() > 0 {
        let r = extra.drop_last();
        let before = unseen(seed, r);
        let now = unseen(seed, extra);
        lemma_unseen(seed, r);
        assert forall|i: int| 0 <= i < now.len() implies extra.contains(#[trigger] now[i])
            && !has_combo(seed, now[i].combo) by {
            if i < before.len() {
                assert(r.contains(before[i]));
                let j = choose|j: int| 0 <= j < r.len() && r[j] == before[i];
                assert(extra[j] == now[i]);
            } else {
                assert(extra[extra.len() - 1] == now[i]);
            }
        }
        if distinct_combos(extra) {
            assert(distinct_combos(r));
            assert forall|i: int, j: int| 0 <= i < j < now.len() implies now[i].combo
                != now[j].combo by {
                if j == before.len() {
                    assert(r.contains(before[i]));
                    let x = choose|x: int| 0 <= x < r.len() && r[x] == before[i];
                    assert(extra[x].combo != extra[extra.len() - 1].combo);
                }
            }
        }
    }
}

/// Of lists without a combination twice, none is there twice after merging, and each entry comes
/// from one of them.
pub proof fn lemma_merged(seed: Seq<Entry>, extra: Seq<Entry>)
    ensures
        distinct_combos(seed) && distinct_combos(extra) ==> merged(seed, extra).no_duplicates(),
        forall|e: Entry| #[trigger]
            merged(seed, extra).contains(e) ==> seed.contains(e) || extra.contains(e),
{
    let all = merged(seed, extra);
    let more = unseen(seed, extra);
    lemma_unseen(seed, extra);
    assert forall|e: Entry| #[trigger] all.contains(e) implies seed.contains(e) || extra.contains(
        e,
    ) by {
        let i = choose|i: int| 0 <= i < all.len() && all[i] == e;
        if i < seed.len() {
            assert(seed[i] == e);
        } else {
            assert(more[i - seed.len()] == e);
        }
    }
    if distinct_combos(seed) && distinct_combos(extra) {
        assert forall|i: int, j: int| 0 <= i < j < all.len() implies all[i] != all[j] by {
            if j < seed.len() {
                assert(seed[i].combo != seed[j].combo);
            } else if i >= seed.len() {
                assert(more[i - seed.len()].combo != more[j - seed.len()].combo);
            } else {
                assert(!has_combo(seed, more[j - seed.len()].combo));
                assert(seed[i].combo != more[j - seed.len()].combo);
            }
        }
    }
}

/// Whether two combinations are the same.
pub fn combo_eq(a: &[u32], b: &[u32]) -> (same: bool)
    ensures
        same == (combo_view(a@) == combo_view(b@)),
{
    if a.len() != b.len() {
        assert(combo_view(a@).len() != combo_view(b@).len());
        return false;
    }
    let mut i: usize = 0;
    while i < a.len()
        invariant
            i <= a@.len(),
            a@.len() == b@.len(),
            forall|j: int| 0 <= j < i ==> a@[j] == b@[j],
        decreases a@.len() - i,
    {
        if a[i] != b[i] {
            assert(combo_view(a@)[i as int] != combo_view(b@)[i as int]);
            return false;
        }
        i += 1;
    }
    assert(combo_view(a@) =~= combo_view(b@));
    true
}

/// The key of rank `top_k` among the entries of `seed_ranked` and those of `extra` whose combination
/// `seed_ranked` does not have; `None` where there are fewer.
pub fn merge_topk_for_refinement(
    seed_ranked: &Vec<Ranked>,
    extra: Vec<(Key, Vec<u32>)>,
    top_k: usize,
) -> (worst: Option<Key>)
    requires
        top_k >= 1,
    ensures
        exists|list: Seq<Entry>| #[trigger]
            is_best_of(
                list,
                top_k as nat,
                merged(entries(seed_ranked@), pair_entries(extra@)).to_multiset(),
            ) && (worst is Some <==> list.len() == top_k) && (worst matches Some(key)
                ==> list.last().key == key_view(key)),
{
    broadcast use vstd::seq_lib::group_to_multiset_ensures;

    let ghost seed = entries(seed_ranked@);
    let ghost more = pair_entries(extra@);
    let mut top = TopK::new(top_k);
    let mut i: usize = 0;
    assert(seed.take(0) =~= Seq::<Entry>::empty());
    proof {
        lemma_nothing_offered(entries(top.items@), top_k as nat);
    }
    while i < seed_ranked.len()
        invariant
            i <= seed_ranked@.len(),
            seed == entries(seed_ranked@),
            top_k >= 1,
            top.cap == top_k,
            is_best_of(entries(top.items@), top_k as nat, seed.take(i as int).to_multiset()),
        decreases seed_ranked@.len() - i,
    {
        proof {
            lemma_offer_next(entries(top.items@), top_k as nat, seed.take(i as int), seed[i as int]);
            assert(seed.take(i + 1) =~= seed.take(i as int).push(seed[i as int]));
        }
        top.offer(seed_ranked[i].key, seed_ranked[i].combo.as_slice());
        i += 1;
    }
    proof {
        assert(seed.take(i as int) =~= seed);
        assert(more.take(0) =~= Seq::<Entry>::empty());
        assert(merged(seed, more.take(0)) =~= seed);
    }
    let mut j: usize = 0;
    while j < extra.len()
        invariant
            j <= extra@.len(),
            seed == entries(seed_ranked@),
            more == pair_entries(extra@),
            top_k >= 1,
            top.cap == top_k,
            is_best_of(
                entries(top.items@),
                top_k as nat,
                merged(seed, more.take(j as int)).to_multiset(),
            ),
        decreases extra@.len() - j,
    {
        let ghost e = more[j as int];
        let known: bool = contains_combo(seed_ranked, extra[j].1.as_slice());
        proof {
            let before = merged(seed, more.take(j as int));
            let part = more.take(j + 1);
            assert(part.drop_last() =~= more.take(j as int));
            assert(part.last() == e);
            lemma_offer_next(entries(top.items@), top_k as nat, before, e);
            assert(merged(seed, part) =~= if known {
                before
            } else {
                before.push(e)
            });
        }
        if !known {
            top.offer(extra[j].0, extra[j].1.as_slice());
        }
        j += 1;
    }
    proof {
        assert(more.take(j as int) =~= more);
        assert(is_best_of(entries(top.items@), top_k as nat, merged(seed, more).to_multiset()));
    }
    top.worst_key()
}

/// The best of nothing.
pub proof fn lemma_nothing_offered(list: Seq<Entry>, cap: nat)
    requires
        list.len() == 0,
    ensures
        is_best_of(list, cap, Seq::<Entry>::empty().to_multiset()),
{
    broadcast use vstd::seq_lib::group_to_multiset_ensures, vstd::multiset::group_multiset_axioms;

    assert(list =~= Seq::<Entry>::empty());
    assert(list.to_multiset().len() == 0);
    assert forall|e: Entry| list.to_multiset().count(e) == 0 by {
        assert(!list.contains(e));
    }
}

/// One more offer.
pub proof fn lemma_offer_next(list: Seq<Entry>, cap: nat, rows: Seq<Entry>, e: Entry)
    requires
        is_best_of(list, cap, rows.to_multiset()),
    ensures
        is_best_of(offered(list, e, cap), cap, rows.push(e).to_multiset()),
{
    broadcast use vstd::seq_lib::group_to_multiset_ensures;

    law_offers_keep_the_best(list, cap, rows.to_multiset(), e);
    assert(rows.push(e).to_multiset() =~= rows.to_multiset().insert(e));
}

/// Whether a list has a combination.
fn contains_combo(list: &Vec<Ranked>, combo: &[u32]) -> (found: bool)
    ensures
        found == has_combo(entries(list@), combo_view(combo@)),
{
    let ghost all = entries(list@);
    let mut i: usize = 0;
    while i < list.len()
        invariant
            i <= list@.len(),
            all == entries(list@),
            forall|j: int| 0 <= j < i ==> (#[trigger] all[j]).combo != combo_view(combo@),
        decreases list@.len() - i,
    {
        assert(all[i as int].combo == combo_view(list@[i as int].combo@));
        if combo_eq(list[i].combo.as_slice(), combo) {
            return true;
        }
        i += 1;
    }
    false
}

} // verus!
