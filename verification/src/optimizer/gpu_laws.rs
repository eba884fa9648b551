//! What the device is handed, and when it is used.

use crate::optimizer::accum::{Cand, RankMode};
use crate::optimizer::gpu_data::{
    binom_words, cand_words, cands_words, req_words, signed_word, suffix_max_words,
};
use crate::optimizer::gpu_key::{packable, packed_hi, packed_lo};
use crate::optimizer::gpu_run::{
    device_refusal, excl_bound, grid_height, grid_width, groups_needed, link_bound,
};
use crate::optimizer::levels::choose_count;
use crate::optimizer::space::SearchSpace;
use crate::optimizer::sums::best_sum;
use vstd::prelude::*;

verus! {

/// The device is used exactly within these limits: 32 attributes, 64 solutions, 4 or 5 slots, 300
/// candidates of 3 parts each, no negative values, and sums that fit the bits of a packed key.
pub proof fn law_device_limits(space: SearchSpace, top_k: nat, k: int, mode: RankMode)
    ensures
        device_refusal(space, top_k, k, mode) is None <==> {
            &&& space.n_attr <= 32
            &&& top_k <= 64
            &&& k == 4 || k == 5
            &&& space.cands@.len() <= 300
            &&& forall|i: int|
                0 <= i < space.cands@.len() ==> (#[trigger] space.cands@[i]).parts@.len() <= 3
            &&& forall|i: int, j: int|
                0 <= i < space.cands@.len() && 0 <= j < space.cands@[i].parts@.len() ==> (
                #[trigger] space.cands@[i].parts@[j]).1 >= 0
            &&& mode is Link ==> link_bound(space, k) <= 16383
            &&& mode is Lv5 ==> link_bound(space, k) <= 65535
            &&& excl_bound(space, k) <= 65535
        },
{
}

/// A packed key holds each number in bits of its own: six for targets that are there, six for those
/// at level 6, six for attributes at level 6, then 14 for the sum of values, or six and eight spare
/// bits for attributes at level 5; in the second word 16 bits for the other of these two, and 16 in
/// which more stands for fewer values that are left out.
pub proof fn law_packed_bits(key: Seq<int>, mode: RankMode)
    requires
        packable(key, mode),
    ensures
        0 <= packed_hi(key, mode) <= u32::MAX,
        0 <= packed_lo(key, mode) <= u32::MAX,
        packed_hi(key, mode) / 0x400_0000 == key[0],
        packed_hi(key, mode) / 0x10_0000 % 64 == key[1],
        packed_hi(key, mode) / 0x4000 % 64 == key[2],
        mode is Link ==> packed_hi(key, mode) % 0x4000 == key[3],
        mode is Lv5 ==> packed_hi(key, mode) / 0x100 % 64 == key[3],
        packed_lo(key, mode) / 0x1_0000 == key[4],
        packed_lo(key, mode) % 0x1_0000 == 0xFFFF + key[5],
{
}

/// A signed number stands for the word that it is congruent to.
pub proof fn law_signed_words(a: i32, b: i32)
    ensures
        (signed_word(a) - a) % 0x1_0000_0000 == 0,
        a >= 0 <==> signed_word(a) < 0x8000_0000,
        signed_word(a) == signed_word(b) ==> a == b,
{
}

/// The number of words before a candidate.
proof fn lemma_cands_len(cands: Seq<Cand>)
    ensures
        cands_words(cands).len() == 6 * cands.len(),
    decreases cands.len(),
{
    if cands.len() > 0 {
        lemma_cands_len(cands.drop_last());
    }
}

/// Each candidate has six words: for each of its first three parts the attribute, followed by the
/// value; a part that it does not have is marked.
pub proof fn law_candidate_words(cands: Seq<Cand>, i: int, p: int)
    requires
        0 <= i < cands.len(),
        0 <= p < 3,
    ensures
        cands_words(cands).len() == 6 * cands.len(),
        p < cands[i].parts@.len() ==> {
            &&& cands_words(cands)[6 * i + 2 * p] == cands[i].parts@[p].0
            &&& cands_words(cands)[6 * i + 2 * p + 1] == signed_word(cands[i].parts@[p].1)
        },
        p >= cands[i].parts@.len() ==> cands_words(cands)[6 * i + 2 * p] == u32::MAX,
    decreases cands.len(),
{
    let rest = cands.drop_last();
    lemma_cands_len(cands);
    lemma_cands_len(rest);
    if i < rest.len() {
        law_candidate_words(rest, i, p);
        assert(rest[i] == cands[i]);
        assert(cands_words(cands)[6 * i + 2 * p] == cands_words(rest)[6 * i + 2 * p]);
        assert(cands_words(cands)[6 * i + 2 * p + 1] == cands_words(rest)[6 * i + 2 * p + 1]);
    } else {
        let one = cand_words(cands[i].parts@);
        assert(cands_words(cands)[6 * i + 2 * p] == one[2 * p]);
        assert(cands_words(cands)[6 * i + 2 * p + 1] == one[2 * p + 1]);
        assert((2 * p) / 2 == p && (2 * p + 1) / 2 == p);
        assert((2 * p) % 2 == 0 && (2 * p + 1) % 2 == 1);
    }
}

/// Each required level has two words: the attribute, followed by the level.
pub proof fn law_requirement_words(req: Seq<(usize, usize)>, i: int)
    requires
        0 <= i < req.len(),
        req[i].0 <= u32::MAX,
        req[i].1 <= u32::MAX,
    ensures
        req_words(req).len() == 2 * req.len(),
        req_words(req)[2 * i] == req[i].0,
        req_words(req)[2 * i + 1] == req[i].1,
{
    assert((2 * i) / 2 == i && (2 * i + 1) / 2 == i);
    assert((2 * i) % 2 == 0 && (2 * i + 1) % 2 == 1);
}

/// The table of counts holds row by row the numbers of ways to choose: of nothing, only nothing can
/// be chosen; nothing can be chosen in one way; and of one thing more, what can be chosen is what can
/// be chosen with it and without it.
pub proof fn law_count_words(n: nat, cols: nat, i: nat, j: nat)
    requires
        i < n,
        j < cols,
        choose_count(i, j) <= u32::MAX,
    ensures
        i * cols + j < binom_words(n, cols).len(),
        binom_words(n, cols)[(i * cols + j) as int] == choose_count(i, j),
        choose_count(i, 0) == 1,
        choose_count(0, j + 1) == 0,
        choose_count(i + 1, j + 1) == choose_count(i, j + 1) + choose_count(i, j),
{
    let x = i * cols + j;
    assert(0 <= i * cols && i * cols + j < n * cols) by (nonlinear_arith)
        requires
            0 <= i < n,
            0 <= j < cols,
    ;
    assert(x == cols * i + j) by (nonlinear_arith)
        requires
            x == i * cols + j,
    ;
    vstd::arithmetic::div_mod::lemma_fundamental_div_mod_converse(
        x as int,
        cols as int,
        i as int,
        j as int,
    );
}

/// The largest single value at a position or later.
proof fn lemma_best_single(vals: Seq<int>, s: int, x: int)
    requires
        0 <= s <= vals.len(),
        forall|i: int| 0 <= i < vals.len() ==> #[trigger] vals[i] >= 0,
    ensures
        best_sum(vals, s, 1) >= 0,
        s <= x < vals.len() ==> best_sum(vals, s, 1) >= vals[x],
        best_sum(vals, s, 1) == 0 || exists|i: int|
            s <= i < vals.len() && #[trigger] vals[i] == best_sum(vals, s, 1),
    decreases vals.len() - s,
{
    if s < vals.len() {
        lemma_best_single(vals, s + 1, x);
        assert(best_sum(vals, s + 1, 0) == 0);
        assert(vals[s] >= 0);
    }
}

/// The table of largest values: at each position the largest value there or later, and 0 past the
/// end.
pub proof fn law_largest_values(vals: Seq<int>, s: int, x: int)
    requires
        0 <= s <= x < vals.len(),
        forall|i: int| 0 <= i < vals.len() ==> 0 <= #[trigger] vals[i] <= u32::MAX,
    ensures
        suffix_max_words(vals).len() == vals.len() + 1,
        suffix_max_words(vals)[vals.len() as int] == 0,
        suffix_max_words(vals)[s] >= vals[x],
        exists|i: int| s <= i < vals.len() && #[trigger] vals[i] == suffix_max_words(vals)[s],
{
    lemma_best_single(vals, s, x);
    let m = best_sum(vals, s, 1);
    if m == 0 {
        assert(vals[x] == 0);
    }
    let i = if m == 0 {
        x
    } else {
        choose|i: int| s <= i < vals.len() && #[trigger] vals[i] == m
    };
    assert(vals[i] == m);
    assert(suffix_max_words(vals)[s] == m);
}

/// Threads come in groups of 256 and groups in rows of at most 65535; a single row is as long as it
/// has to be.
pub proof fn law_groups(prefix_count: int)
    requires
        0 < prefix_count,
    ensures
        256 * (groups_needed(prefix_count) - 1) < prefix_count <= 256 * groups_needed(prefix_count),
        grid_width(prefix_count) <= 65535,
        groups_needed(prefix_count) <= 65535 ==> grid_width(prefix_count) == groups_needed(
            prefix_count,
        ) && grid_height(prefix_count) == 1,
        groups_needed(prefix_count) > 65535 ==> grid_width(prefix_count) == 65535,
{
    let g = groups_needed(prefix_count);
    if g <= 65535 {
        assert((g + g - 1) / g == 1) by {
            vstd::arithmetic::div_mod::lemma_fundamental_div_mod_converse(g + g - 1, g, 1, g - 1);
        }
    }
}

} // verus!
