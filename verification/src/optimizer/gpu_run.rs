//! The steps of a search on a graphics device.

use crate::optimizer::accum::{key_of, key_view, marked_sum, Key, RankMode};
use crate::optimizer::bounds::marked_vals;
use crate::optimizer::gpu_data::{
    attr_tables, binom_words, bit_set, build_binom_table, build_cand_parts, build_params_bytes,
    build_params_chunked_bytes, build_req_entries, build_suffix_max_bytes, cands_words, mask_bits,
    rank_mode_u32, req_words, suffix_max_words, value_bounds, words_bytes, MAX_PARTS,
};
use crate::optimizer::gpu_key::{
    eval_link_key_max, law_packed_keys_keep_order, link_limit, pack_key, packable, packed, packed_lt,
    EXCL_KEY_MAX,
};
use crate::optimizer::gpu_plan::{
    distinct_combos, lemma_merged, lemma_nothing_offered, lemma_offer_next, merge_topk_for_refinement,
    merged, pair_entries, range_message, raw_choice, recompute_combo, small_values,
};
use crate::optimizer::gpu_seed::{build_seed_positions, is_seed};
use crate::optimizer::levels::{choose_count, choose_fits, lemma_choose_step, level, n_choose_k};
use crate::optimizer::ranking::{
    better, entries, is_best_of, is_top, lemma_best_is_top, lemma_better_irreflexive,
    lemma_better_transitive, lemma_lex_irreflexive, lemma_lex_transitive, lemma_top_grow, lex_lt,
    Entry, Ranked, TopK,
};
use crate::optimizer::search::{lemma_top_keeps_out, search_space};
use crate::optimizer::space::{goes_on, is_choice, SearchSpace};
use crate::optimizer::sums::{best_sum, lemma_best_sum_bound, lemma_count_le, within};
use crate::text::{append_digits, digits};
use vstd::prelude::*;
use vstd::string::*;

verus! {

/// The number of combinations that the device can hand back.
pub const CAPACITY: u32 = 2_097_152;

/// The number of candidates that the kernels can hold.
pub const MAX_N: usize = 300;

/// The number of prefixes per chunk.
pub const CHUNK_SIZE: u32 = 8_388_608;

/// The number of chunks after which the threshold is raised.
pub const REFINE_CHUNKS: u32 = 4;

/// Whether a candidate has more parts than the kernels read.
pub open spec fn too_many_parts(space: SearchSpace) -> bool {
    exists|i: int| 0 <= i < space.cands@.len() && (#[trigger] space.cands@[i]).parts@.len() > MAX_PARTS
}

/// Whether a candidate has a negative value.
pub open spec fn has_negative(space: SearchSpace) -> bool {
    exists|i: int, j: int|
        0 <= i < space.cands@.len() && 0 <= j < space.cands@[i].parts@.len() && (
        #[trigger] space.cands@[i].parts@[j]).1 < 0
}

/// The largest counted sum of `k` candidates.
pub open spec fn link_bound(space: SearchSpace, k: int) -> int {
    best_sum(marked_vals(space.cands@, space.soft_excl_mask@, false), 0, k as nat)
}

/// The largest left-out sum of `k` candidates.
pub open spec fn excl_bound(space: SearchSpace, k: int) -> int {
    best_sum(marked_vals(space.cands@, space.soft_excl_mask@, true), 0, k as nat)
}

/// Why the device is not used for a search, where it is not.
pub open spec fn device_refusal(space: SearchSpace, top_k: nat, k: int, mode: RankMode) -> Option<
    Seq<char>,
> {
    if space.n_attr > 32 {
        Some("属性数が32を超えています(n_attr="@ + digits(space.n_attr as nat) + ")"@)
    } else if top_k > 64 {
        Some("top_kが64を超えています(top_k="@ + digits(top_k) + ")"@)
    } else if k < 4 || k > 5 {
        Some("slot_countが4/5以外です(slot_count="@ + digits(k as nat) + ")"@)
    } else if space.cands@.len() > MAX_N {
        Some("候補数が多すぎます(n="@ + digits(space.cands@.len()) + " > 300)"@)
    } else if too_many_parts(space) {
        Some("モジュールのパーツ数がGPUカーネルの前提(3)を超えています"@)
    } else if has_negative(space) {
        Some("属性値に負値が含まれています（キー packing は非負値を前提とする）"@)
    } else if link_bound(space, k) > link_limit(mode) || excl_bound(space, k) > 0xFFFF {
        Some(
            "eval_link/excl の理論上界がキーpacking幅を超えています(mode="@ + mode_text(mode)
                + ", eval="@ + digits(link_bound(space, k) as nat) + ">"@ + limit_text(mode)
                + ", excl="@ + digits(excl_bound(space, k) as nat) + ">0xffff)"@,
        )
    } else {
        None
    }
}

/// A mode in messages.
pub open spec fn mode_text(mode: RankMode) -> Seq<char> {
    match mode {
        RankMode::Link => "Link"@,
        RankMode::Lv5 => "Lv5"@,
    }
}

/// The limit of the counted sum in messages.
pub open spec fn limit_text(mode: RankMode) -> Seq<char> {
    match mode {
        RankMode::Link => "0x3fff"@,
        RankMode::Lv5 => "0xffff"@,
    }
}

/// Whether a candidate has more parts than the kernels read.
fn any_too_many_parts(space: &SearchSpace) -> (b: bool)
    ensures
        b == too_many_parts(*space),
{
    let mut i: usize = 0;
    while i < space.cands.len()
        invariant
            i <= space.cands@.len(),
            forall|x: int| 0 <= x < i ==> (#[trigger] space.cands@[x]).parts@.len() <= MAX_PARTS,
        decreases space.cands@.len() - i,
    {
        if space.cands[i].parts.len() > MAX_PARTS {
            return true;
        }
        i += 1;
    }
    false
}

/// Whether a candidate has a negative value.
fn any_negative(space: &SearchSpace) -> (b: bool)
    ensures
        b == has_negative(*space),
{
    let mut i: usize = 0;
    while i < space.cands.len()
        invariant
            i <= space.cands@.len(),
            forall|x: int, y: int|
                0 <= x < i && 0 <= y < space.cands@[x].parts@.len() ==> (
                #[trigger] space.cands@[x].parts@[y]).1 >= 0,
        decreases space.cands@.len() - i,
    {
        let mut j: usize = 0;
        while j < space.cands[i].parts.len()
            invariant
                i < space.cands@.len(),
                j <= space.cands@[i as int].parts@.len(),
                forall|x: int, y: int|
                    0 <= x < i && 0 <= y < space.cands@[x].parts@.len() ==> (
                    #[trigger] space.cands@[x].parts@[y]).1 >= 0,
                forall|y: int|
                    0 <= y < j ==> (#[trigger] space.cands@[i as int].parts@[y]).1 >= 0,
            decreases space.cands@[i as int].parts@.len() - j,
        {
            if space.cands[i].parts[j].1 < 0 {
                return true;
            }
            j += 1;
        }
        i += 1;
    }
    false
}

/// A message that ends in a number and a closing text.
fn numbered(start: &str, n: u64, end: &str) -> (message: String)
    ensures
        message@ == start@ + digits(n as nat) + end@,
{
    let mut message: String = String::from_str(start);
    append_digits(&mut message, n);
    message.append(end);
    message
}

/// Why the device is not used for a search, where it is not.
pub fn fallback_reason(space: &SearchSpace, top_k: usize, slot_count: usize, mode: RankMode) -> (reason:
    Option<String>)
    requires
        !has_negative(*space) && 4 <= slot_count <= 5 ==> space.wf(slot_count as int),
    ensures
        reason is Some <==> device_refusal(*space, top_k as nat, slot_count as int, mode) is Some,
        reason matches Some(text) ==> device_refusal(
            *space,
            top_k as nat,
            slot_count as int,
            mode,
        ) == Some(text@),
{
    let n: usize = space.cands.len();
    if space.n_attr > 32 {
        return Some(numbered("属性数が32を超えています(n_attr=", space.n_attr as u64, ")"));
    }
    if top_k > 64 {
        return Some(numbered("top_kが64を超えています(top_k=", top_k as u64, ")"));
    }
    if slot_count < 4 || slot_count > 5 {
        return Some(numbered("slot_countが4/5以外です(slot_count=", slot_count as u64, ")"));
    }
    if n > MAX_N {
        return Some(numbered("候補数が多すぎます(n=", n as u64, " > 300)"));
    }
    if any_too_many_parts(space) {
        return Some(
            String::from_str("モジュールのパーツ数がGPUカーネルの前提(3)を超えています"),
        );
    }
    if any_negative(space) {
        return Some(
            String::from_str("属性値に負値が含まれています（キー packing は非負値を前提とする）"),
        );
    }
    let bounds: (i64, i64) = value_bounds(space, slot_count);
    proof {
        lemma_bounds_not_negative(*space, slot_count as int);
    }
    if bounds.0 > eval_link_key_max(mode) || bounds.1 > EXCL_KEY_MAX {
        let mut text: String = String::from_str(
            "eval_link/excl の理論上界がキーpacking幅を超えています(mode=",
        );
        match mode {
            RankMode::Link => text.append("Link"),
            RankMode::Lv5 => text.append("Lv5"),
        }
        text.append(", eval=");
        append_digits(&mut text, bounds.0 as u64);
        text.append(">");
        match mode {
            RankMode::Link => text.append("0x3fff"),
            RankMode::Lv5 => text.append("0xffff"),
        }
        text.append(", excl=");
        append_digits(&mut text, bounds.1 as u64);
        text.append(">0xffff)");
        return Some(text);
    }
    None
}

proof fn lemma_bounds_not_negative(space: SearchSpace, k: int)
    requires
        space.wf(k),
        k >= 1,
    ensures
        link_bound(space, k) >= 0,
        excl_bound(space, k) >= 0,
{
    space.lemma_vals(k);
    lemma_best_not_negative(marked_vals(space.cands@, space.soft_excl_mask@, false), 0, k as nat);
    lemma_best_not_negative(marked_vals(space.cands@, space.soft_excl_mask@, true), 0, k as nat);
}

proof fn lemma_best_not_negative(vals: Seq<int>, s: int, r: nat)
    requires
        0 <= s,
        forall|i: int| 0 <= i < vals.len() ==> #[trigger] vals[i] >= 0,
    ensures
        best_sum(vals, s, r) >= 0,
    decreases vals.len() - s,
{
    if r > 0 && s < vals.len() {
        lemma_best_not_negative(vals, s + 1, r);
        lemma_best_not_negative(vals, s + 1, (r - 1) as nat);
        assert(vals[s] >= 0);
    }
}

/// A search that the device can be used for.
pub open spec fn device_ready(space: SearchSpace, top_k: nat, k: int, mode: RankMode) -> bool {
    &&& space.wf(k)
    &&& 1 <= top_k
    &&& k <= space.cands@.len()
    &&& device_refusal(space, top_k, k, mode) is None
    &&& forall|j: int|
        0 <= j < space.required_idxs@.len() ==> (#[trigger] space.required_idxs@[j]).1 <= u32::MAX
}

/// On a device, every key fits its packed form and every candidate is small.
pub proof fn lemma_device_keys(space: SearchSpace, top_k: nat, k: int, mode: RankMode)
    requires
        device_ready(space, top_k, k, mode),
    ensures
        small_values(space),
        forall|e: Entry| #[trigger]
            space.all_entries(k, mode).contains(e) ==> packable(e.key, mode),
{
    let soft = space.soft_excl_mask@;
    let mv = marked_vals(space.cands@, soft, false);
    let sv = marked_vals(space.cands@, soft, true);
    space.lemma_vals(k);
    assert forall|i: int, flag: bool| 0 <= i < space.cands@.len() implies #[trigger] marked_sum(
        space.cands@[i].parts@,
        soft,
        flag,
    ) <= 0xFFFF by {
        lemma_single_below_best(mv, 0, k as nat, i);
        lemma_single_below_best(sv, 0, k as nat, i);
        assert(mv[i] == marked_sum(space.cands@[i].parts@, soft, false));
        assert(sv[i] == marked_sum(space.cands@[i].parts@, soft, true));
    }
    assert forall|e: Entry| #[trigger] space.all_entries(k, mode).contains(e) implies packable(
        e.key,
        mode,
    ) by {
        let none = Seq::<int>::empty();
        let q = choose|q: Seq<int>|
            is_choice(q, space.cands@.len() as int, k) && #[trigger] goes_on(q, none, 0)
                && space.meets(q) && e == space.entry(q, mode);
        lemma_choice_packable(space, top_k, k, mode, q);
    }
}

/// The key of a choice fits its packed form.
pub proof fn lemma_choice_packable(
    space: SearchSpace,
    top_k: nat,
    k: int,
    mode: RankMode,
    q: Seq<int>,
)
    requires
        device_ready(space, top_k, k, mode),
        is_choice(q, space.cands@.len() as int, k),
    ensures
        packable(key_of(space.score(q), mode), mode),
{
    let soft = space.soft_excl_mask@;
    let mv = marked_vals(space.cands@, soft, false);
    let sv = marked_vals(space.cands@, soft, true);
    let n = space.n_attr as nat;
    let t = space.totals(q);
    let sel = space.selected_mask@;
    lemma_count_le(n, |a: int| sel[a] && level(t[a]) >= 1);
    lemma_count_le(n, |a: int| sel[a] && level(t[a]) == 6);
    lemma_count_le(n, |a: int| level(t[a]) == 6);
    lemma_count_le(n, |a: int| level(t[a]) == 5);
    lemma_best_sum_bound(mv, 0, q);
    lemma_best_sum_bound(sv, 0, q);
    space.lemma_sums(k, q);
}

/// One value is at most the largest sum.
proof fn lemma_single_below_best(vals: Seq<int>, s: int, r: nat, i: int)
    requires
        0 <= s <= i < vals.len(),
        r >= 1,
        forall|x: int| 0 <= x < vals.len() ==> #[trigger] vals[x] >= 0,
    ensures
        vals[i] <= best_sum(vals, s, r),
    decreases vals.len() - s,
{
    lemma_best_not_negative(vals, s + 1, (r - 1) as nat);
    lemma_best_not_negative(vals, s + 1, r);
    assert(vals[s] >= 0);
    if s < i {
        lemma_single_below_best(vals, s + 1, r, i);
        if vals.len() - s <= r {
            if r > 1 {
                lemma_single_below_best(vals, s + 1, (r - 1) as nat, i);
            }
        }
    }
}

/// With at most 300 candidates all counts stay small.
pub proof fn lemma_small_counts(n: nat)
    requires
        n <= 300,
    ensures
        choose_count(n, 0) == 1,
        choose_count(n, 1) <= 300,
        choose_count(n, 2) <= 44850,
        choose_count(n, 3) <= 4455100,
        choose_count(n, 4) <= 330791175,
        choose_count(n, 5) <= 19582837560,
{
    let c1 = choose_count(n, 1);
    let c2 = choose_count(n, 2);
    let c3 = choose_count(n, 3);
    let c4 = choose_count(n, 4);
    let c5 = choose_count(n, 5);
    lemma_choose_step(n, 0);
    lemma_choose_step(n, 1);
    lemma_choose_step(n, 2);
    lemma_choose_step(n, 3);
    lemma_choose_step(n, 4);
    assert(c1 * 1 == 1 * (n - 0));
    assert(c2 <= 44850) by (nonlinear_arith)
        requires
            c2 * 2 == c1 * (n - 1),
            c1 <= 300,
            c1 >= 0,
            n <= 300,
    ;
    assert(c3 <= 4455100) by (nonlinear_arith)
        requires
            c3 * 3 == c2 * (n - 2),
            c2 <= 44850,
            c2 >= 0,
            n <= 300,
    ;
    assert(c4 <= 330791175) by (nonlinear_arith)
        requires
            c4 * 4 == c3 * (n - 3),
            c3 <= 4455100,
            c3 >= 0,
            n <= 300,
    ;
    assert(c5 <= 19582837560) by (nonlinear_arith)
        requires
            c5 * 5 == c4 * (n - 4),
            c4 <= 330791175,
            c4 >= 0,
            n <= 300,
    ;
}

/// With at most 300 candidates the counts that a search needs can be computed.
pub proof fn lemma_counts_fit(n: nat, k: nat)
    requires
        n <= 300,
        k <= 5,
    ensures
        choose_fits(n, k),
        choose_count(n, k) <= u64::MAX,
{
    lemma_small_counts(n);
    assert forall|i: nat| i < k implies #[trigger] choose_count(n, i) * (n - i) <= u128::MAX by {
        assert(i == 0 || i == 1 || i == 2 || i == 3 || i == 4);
        let c = choose_count(n, i);
        assert(c * (n - i) <= u128::MAX) by (nonlinear_arith)
            requires
                0 <= c <= 330791175,
                n <= 300,
                i <= 4,
        ;
    }
}

/// What is sent to the device for one search.
pub struct GpuPlan {
    pub n: u32,
    pub slot_count: u32,
    pub n_attr: u32,
    pub binom: Vec<u8>,
    pub cand_parts: Vec<u8>,
    pub requirements: Vec<u8>,
    pub suffix_max: Vec<u8>,
    pub req_count: u32,
    pub selected_bits: u32,
    pub soft_excl_bits: u32,
    pub rank_mode: u32,
    /// The number of choices of all slots but the last.
    pub prefix_count: u32,
    pub total_combinations: u64,
    /// The best combinations of the seed.
    pub seed: Vec<Ranked>,
    /// The packed key from which on the device hands combinations back.
    pub threshold: (u32, u32),
}

/// A threshold that no combination among the best `top_k` is below: it lets everything pass, or it
/// is the packed key of rank `top_k` among some of the combinations.
pub open spec fn admissible(
    space: SearchSpace,
    top_k: nat,
    k: int,
    mode: RankMode,
    threshold: (u32, u32),
) -> bool {
    threshold == (0u32, 0u32) || exists|part: Seq<Entry>| #[trigger]
        is_threshold(space, top_k, k, mode, threshold, part)
}

/// `threshold` is the packed key of the last of `top_k` ranked combinations `part`.
pub open spec fn is_threshold(
    space: SearchSpace,
    top_k: nat,
    k: int,
    mode: RankMode,
    threshold: (u32, u32),
    part: Seq<Entry>,
) -> bool {
    &&& part.len() == top_k
    &&& top_k >= 1
    &&& forall|i: int, j: int| 0 <= i < j < part.len() ==> better(part[i], part[j])
    &&& forall|i: int|
        0 <= i < part.len() ==> space.all_entries(k, mode).contains(#[trigger] part[i])
    &&& (threshold.0 as int, threshold.1 as int) == packed(part.last().key, mode)
}

impl GpuPlan {
    /// The plan is that of a search for the best `top_k` choices of `k` candidates.
    pub open spec fn plans(self, space: SearchSpace, top_k: nat, k: int, mode: RankMode) -> bool {
        &&& self.n == space.cands@.len()
        &&& self.slot_count == k
        &&& self.n_attr == space.n_attr
        &&& self.binom@ == words_bytes(binom_words(space.cands@.len(), k as nat))
        &&& self.cand_parts@ == words_bytes(cands_words(space.cands@))
        &&& self.requirements@ == words_bytes(req_words(space.required_idxs@))
        &&& self.suffix_max@ == words_bytes(
            attr_tables(space.cands@, space.n_attr as nat) + suffix_max_words(
                marked_vals(space.cands@, space.soft_excl_mask@, false),
            ),
        )
        &&& self.req_count == space.required_idxs@.len()
        &&& forall|i: u32|
            i < 32 ==> #[trigger] bit_set(self.selected_bits, i) == (i < space.n_attr
                && space.selected_mask@[i as int])
        &&& forall|i: u32|
            i < 32 ==> #[trigger] bit_set(self.soft_excl_bits, i) == (i < space.n_attr
                && space.soft_excl_mask@[i as int])
        &&& self.rank_mode == (match mode {
            RankMode::Link => 0u32,
            RankMode::Lv5 => 1u32,
        })
        &&& self.prefix_count == choose_count(space.cands@.len(), (k - 1) as nat)
        &&& self.total_combinations == choose_count(space.cands@.len(), k as nat)
        &&& exists|sub: SearchSpace, positions: Seq<usize>| #[trigger]
            is_seed_part(space, sub, positions) && is_top(
                entries(self.seed@),
                top_k,
                sub.all_entries(k, mode),
            )
        &&& is_seed_list(space, entries(self.seed@), top_k, k, mode)
        &&& (self.threshold.0 as int, self.threshold.1 as int) == if self.seed@.len() >= top_k {
            packed(entries(self.seed@)[top_k - 1].key, mode)
        } else {
            (0int, 0int)
        }
        &&& admissible(space, top_k, k, mode, self.threshold)
    }
}

/// `sub` is the part of the space that is searched first: the candidates at the positions of the
/// seed, in increasing order.
pub open spec fn is_seed_part(
    space: SearchSpace,
    sub: SearchSpace,
    positions: Seq<usize>,
) -> bool {
    &&& space.has_part(sub, positions)
    &&& forall|i: int, j: int| 0 <= i < j < positions.len() ==> positions[i] < positions[j]
    &&& forall|p: usize| #[trigger]
        positions.contains(p) <==> p < space.cands@.len() && is_seed(space, p as int)
}

/// `list` holds ranked combinations of the space, in order and each once.
pub open spec fn is_seed_list(
    space: SearchSpace,
    list: Seq<Entry>,
    top_k: nat,
    k: int,
    mode: RankMode,
) -> bool {
    &&& list.len() <= top_k
    &&& forall|i: int, j: int| 0 <= i < j < list.len() ==> better(list[i], list[j])
    &&& forall|i: int|
        0 <= i < list.len() ==> space.all_entries(k, mode).contains(#[trigger] list[i])
}

/// Searches the seed and lays out what the device needs.
pub fn plan_gpu_search(space: &SearchSpace, top_k: usize, slot_count: usize, mode: RankMode) -> (plan:
    Result<GpuPlan, String>)
    requires
        device_ready(*space, top_k as nat, slot_count as int, mode),
        space.required_idxs@.len() <= u32::MAX,
    ensures
        plan is Ok,
        plan matches Ok(p) ==> p.plans(*space, top_k as nat, slot_count as int, mode),
{
    let ghost k = slot_count as int;
    let n: usize = space.cands.len();
    proof {
        lemma_counts_fit(n as nat, slot_count as nat);
        lemma_counts_fit(n as nat, (slot_count - 1) as nat);
        lemma_small_counts(n as nat);
        assert forall|i: nat, j: nat| i < n && j < slot_count implies #[trigger] choose_fits(i, j)
            && choose_count(i, j) <= u64::MAX by {
            lemma_counts_fit(i, j);
        }
        assert forall|i: nat, j: nat| i < n && j < slot_count implies #[trigger] choose_count(i, j)
            <= u32::MAX by {
            lemma_small_counts(i);
            assert(j == 0 || j == 1 || j == 2 || j == 3 || j == 4);
        }
    }
    let total_combinations: u64 = n_choose_k(n, slot_count);
    let prefixes: u64 = n_choose_k(n, slot_count - 1);
    let seed_positions: Vec<usize> = build_seed_positions(space);
    proof {
        assert forall|i: int| 0 <= i < seed_positions@.len() implies #[trigger] seed_positions@[i]
            < space.cands@.len() by {
            assert(seed_positions@.contains(seed_positions@[i]));
        }
    }
    let seed_space: SearchSpace = space.subset(&seed_positions);
    proof {
        space.law_part_entries(seed_space, seed_positions@, k, mode);
    }
    let seed: Vec<Ranked> = search_space(&seed_space, top_k, slot_count, mode, true, true);
    let ghost part = entries(seed@);
    proof {
        assert(is_seed_part(*space, seed_space, seed_positions@));
        assert forall|i: int| 0 <= i < part.len() implies space.all_entries(k, mode).contains(
            #[trigger] part[i],
        ) by {
            assert(seed_space.all_entries(k, mode).contains(part[i]));
        }
        lemma_device_keys(*space, top_k as nat, k, mode);
    }
    let threshold: (u32, u32) = if seed.len() >= top_k {
        assert(part[top_k - 1].key == key_view(seed@[top_k - 1].key));
        let t: (u32, u32) = pack_key(&seed[top_k - 1].key, mode);
        assert(is_threshold(*space, top_k as nat, k, mode, t, part));
        t
    } else {
        (0, 0)
    };
    let binom: Vec<u8> = match build_binom_table(n, slot_count) {
        Ok(bytes) => bytes,
        Err(message) => {
            return Err(message);
        },
    };
    let cand_parts: Vec<u8> = build_cand_parts(&space.cands);
    let requirements: Vec<u8> = build_req_entries(&space.required_idxs);
    let suffix_max: Vec<u8> = build_suffix_max_bytes(space, slot_count);
    let selected_bits: u32 = mask_bits(space.selected_mask.as_slice());
    let soft_excl_bits: u32 = mask_bits(space.soft_excl_mask.as_slice());
    Ok(
        GpuPlan {
            n: n as u32,
            slot_count: slot_count as u32,
            n_attr: space.n_attr as u32,
            binom,
            cand_parts,
            requirements,
            suffix_max,
            req_count: space.required_idxs.len() as u32,
            selected_bits,
            soft_excl_bits,
            rank_mode: rank_mode_u32(mode),
            prefix_count: prefixes as u32,
            total_combinations,
            seed,
            threshold,
        },
    )
}

/// The number of groups of 256 that hold the prefixes of a search (at least one).
pub open spec fn groups_needed(prefix_count: int) -> int {
    if prefix_count == 0 {
        1
    } else {
        (prefix_count + 255) / 256
    }
}

/// The number of groups in a row.
pub open spec fn grid_width(prefix_count: int) -> int {
    if groups_needed(prefix_count) < 65535 {
        groups_needed(prefix_count)
    } else {
        65535
    }
}

/// The number of rows.
pub open spec fn grid_height(prefix_count: int) -> int {
    (groups_needed(prefix_count) + grid_width(prefix_count) - 1) / grid_width(prefix_count)
}

proof fn lemma_grid_covers(prefix_count: int)
    requires
        0 <= prefix_count <= u32::MAX,
    ensures
        1 <= groups_needed(prefix_count) <= 0x100_0000,
        prefix_count > 0 ==> groups_needed(prefix_count) == (prefix_count - 1) / 256 + 1,
        1 <= grid_width(prefix_count) <= 65535,
        1 <= grid_height(prefix_count) <= 257,
        grid_height(prefix_count) == (groups_needed(prefix_count) - 1) / grid_width(prefix_count)
            + 1,
        grid_width(prefix_count) * grid_height(prefix_count) >= groups_needed(prefix_count),
        (grid_height(prefix_count) - 1) * grid_width(prefix_count) < groups_needed(prefix_count),
{
    let g = groups_needed(prefix_count);
    let x = grid_width(prefix_count);
    let d = (g - 1) / x;
    let r = (g - 1) % x;
    vstd::arithmetic::div_mod::lemma_fundamental_div_mod(g - 1, x);
    vstd::arithmetic::div_mod::lemma_mod_bound(g - 1, x);
    assert((g - 1 + x) / x == d + 1) by {
        assert(g - 1 + x == x * (d + 1) + r) by (nonlinear_arith)
            requires
                g - 1 == x * d + r,
        ;
        vstd::arithmetic::div_mod::lemma_fundamental_div_mod_converse(g - 1 + x, x, d + 1, r);
    }
    assert(0 <= d <= 256) by (nonlinear_arith)
        requires
            g - 1 == x * d + r,
            0 <= r < x,
            1 <= x,
            1 <= g <= 0x100_0000,
            x == g || x == 65535,
    ;
    assert(x * (d + 1) >= g && d * x <= g - 1) by (nonlinear_arith)
        requires
            g - 1 == x * d + r,
            0 <= r < x,
    ;
}

/// The grid of a search in one pass has a thread for every prefix, and no row too many.
pub proof fn law_grid_covers(prefix_count: int)
    requires
        0 <= prefix_count <= u32::MAX,
    ensures
        grid_width(prefix_count) * grid_height(prefix_count) * 256 >= prefix_count,
        prefix_count > 0 ==> (grid_height(prefix_count) - 1) * grid_width(prefix_count) * 256
            < prefix_count,
{
    lemma_grid_covers(prefix_count);
    let a = grid_width(prefix_count) * grid_height(prefix_count);
    let b = (grid_height(prefix_count) - 1) * grid_width(prefix_count);
    assert(a * 256 >= prefix_count);
    assert(prefix_count > 0 ==> b * 256 < prefix_count);
}

/// The number of chunks of a search (at least one).
pub open spec fn chunk_total(prefix_count: int) -> int {
    if prefix_count == 0 {
        1
    } else {
        (prefix_count + CHUNK_SIZE - 1) / CHUNK_SIZE as int
    }
}

/// The prefixes of chunk `i` are those from `i * CHUNK_SIZE` to the start of the next chunk or the
/// end.
pub open spec fn chunk_len(prefix_count: int, i: int) -> int {
    if prefix_count - i * CHUNK_SIZE < CHUNK_SIZE {
        prefix_count - i * CHUNK_SIZE
    } else {
        CHUNK_SIZE as int
    }
}

/// Every prefix lies in exactly one chunk.
pub proof fn law_chunks_cover(prefix_count: int, x: int)
    requires
        0 <= x < prefix_count,
    ensures
        exists|i: int|
            0 <= i < chunk_total(prefix_count) && #[trigger] in_chunk(prefix_count, i, x),
        forall|i: int, j: int|
            in_chunk(prefix_count, i, x) && in_chunk(prefix_count, j, x) ==> i == j,
{
    let i = x / CHUNK_SIZE as int;
    assert(in_chunk(prefix_count, i, x));
}

/// Prefix `x` lies in chunk `i`.
pub open spec fn in_chunk(prefix_count: int, i: int, x: int) -> bool {
    i * CHUNK_SIZE <= x < i * CHUNK_SIZE + chunk_len(prefix_count, i)
}

impl GpuPlan {
    /// The number of chunks.
    pub fn num_chunks(&self) -> (count: u32)
        ensures
            count == chunk_total(self.prefix_count as int),
    {
        if self.prefix_count == 0 {
            1
        } else {
            (self.prefix_count - 1) / CHUNK_SIZE + 1
        }
    }

    /// The number of chunks that run before the threshold is raised.
    pub fn num_refine_chunks(&self) -> (count: u32)
        ensures
            count == if chunk_total(self.prefix_count as int) < REFINE_CHUNKS {
                chunk_total(self.prefix_count as int)
            } else {
                REFINE_CHUNKS as int
            },
    {
        let count: u32 = self.num_chunks();
        if count < REFINE_CHUNKS {
            count
        } else {
            REFINE_CHUNKS
        }
    }

    /// The parameters and the number of prefixes of chunk `index`; `None` where it has none.
    pub fn chunk_params(&self, index: u32, threshold: (u32, u32)) -> (work: Option<(Vec<u8>, u32)>)
        requires
            index < chunk_total(self.prefix_count as int),
        ensures
            work is None <==> self.prefix_count == 0,
            work matches Some((params, count)) ==> count == chunk_len(
                self.prefix_count as int,
                index as int,
            ) && count >= 1 && params@ == words_bytes(
                seq![
                    self.n,
                    self.slot_count,
                    self.n_attr,
                    self.slot_count,
                    self.selected_bits,
                    self.soft_excl_bits,
                    self.req_count,
                    threshold.0,
                    threshold.1,
                    (index * CHUNK_SIZE) as u32,
                    count,
                    self.rank_mode,
                ],
            ),
    {
        if self.prefix_count == 0 {
            return None;
        }
        let start: u32 = index * CHUNK_SIZE;
        let left: u32 = self.prefix_count - start;
        let count: u32 = if left < CHUNK_SIZE {
            left
        } else {
            CHUNK_SIZE
        };
        let params: Vec<u8> = build_params_chunked_bytes(
            self.n,
            self.slot_count,
            self.n_attr,
            self.slot_count,
            self.selected_bits,
            self.soft_excl_bits,
            self.req_count,
            threshold.0,
            threshold.1,
            start,
            count,
            self.rank_mode,
        );
        Some((params, count))
    }

    /// The size of the grid of a search in one pass, 256 prefixes per group: `x` groups of at most
    /// 65535 in as many rows as are needed.
    pub fn single_pass_grid(&self) -> (grid: (u32, u32))
        ensures
            grid.0 == grid_width(self.prefix_count as int),
            grid.1 == grid_height(self.prefix_count as int),
            1 <= grid.0 <= 65535,
            1 <= grid.1 <= 65535,
    {
        let needed: u32 = if self.prefix_count == 0 {
            1
        } else {
            (self.prefix_count - 1) / 256 + 1
        };
        let x: u32 = if needed < 65535 {
            needed
        } else {
            65535
        };
        let y: u32 = (needed - 1) / x + 1;
        proof {
            lemma_grid_covers(self.prefix_count as int);
        }
        (x, y)
    }

    /// The parameters of a search in one pass.
    pub fn single_pass_params(&self, wg_x: u32, prune_enabled: bool) -> (params: Vec<u8>)
        ensures
            params@ == words_bytes(
                seq![
                    self.n,
                    self.slot_count,
                    self.n_attr,
                    self.prefix_count,
                    wg_x,
                    self.slot_count,
                    self.selected_bits,
                    self.soft_excl_bits,
                    self.req_count,
                    self.threshold.0,
                    self.threshold.1,
                    if prune_enabled {
                        1u32
                    } else {
                        0u32
                    },
                    self.rank_mode,
                ],
            ),
    {
        let prune: u32 = if prune_enabled {
            1
        } else {
            0
        };
        build_params_bytes(
            self.n,
            self.slot_count,
            self.n_attr,
            self.prefix_count,
            wg_x,
            self.slot_count,
            self.selected_bits,
            self.soft_excl_bits,
            self.req_count,
            self.threshold.0,
            self.threshold.1,
            prune,
            self.rank_mode,
        )
    }
}

/// The message for more combinations than the device can hand back.
pub open spec fn overflow_message(appended: nat) -> Seq<char> {
    "appendバッファがオーバーフローしました(counter="@ + digits(appended) + ", capacity=2097152)"@
}

/// The message for more combinations than there are.
pub open spec fn excess_message(label: Seq<char>, appended: nat, total: nat) -> Seq<char> {
    "appendedカウンタが理論上限を超えています("@ + label + "="@ + digits(appended)
        + ", total_combinations="@ + digits(total) + ")。u32カウンタの桁溢れの可能性があります"@
}

/// Checks the number of combinations that the device reports. `label` names the count in the
/// message.
pub fn check_appended(appended: u32, total_combinations: u64, label: &str) -> (verdict: Result<
    (),
    String,
>)
    ensures
        verdict is Ok <==> appended <= CAPACITY && appended <= total_combinations,
        verdict matches Err(message) ==> message@ == if appended > CAPACITY {
            overflow_message(appended as nat)
        } else {
            excess_message(label@, appended as nat, total_combinations as nat)
        },
{
    if appended > CAPACITY {
        return Err(
            numbered(
                "appendバッファがオーバーフローしました(counter=",
                appended as u64,
                ", capacity=2097152)",
            ),
        );
    }
    if appended as u64 > total_combinations {
        let mut message: String = String::from_str("appendedカウンタが理論上限を超えています(");
        message.append(label);
        message.append("=");
        append_digits(&mut message, appended as u64);
        message.append(", total_combinations=");
        append_digits(&mut message, total_combinations);
        message.append(")。u32カウンタの桁溢れの可能性があります");
        return Err(message);
    }
    Ok(())
}


/// The number of words per combination that the device hands back.
pub const ROW_WORDS: usize = 5;

/// The number of combinations in what the device handed back.
pub open spec fn row_count(combos: Seq<u32>) -> int {
    combos.len() as int / 5
}

/// The `i`-th combination in what the device handed back: positions in search order.
pub open spec fn row(combos: Seq<u32>, i: int, k: int) -> Seq<int> {
    raw_choice(combos.subrange(5 * i, 5 * i + 5), k)
}

/// Whether every combination that was handed back holds positions of candidates.
pub open spec fn rows_in_range(space: SearchSpace, combos: Seq<u32>, k: int) -> bool {
    forall|i: int|
        0 <= i < row_count(combos) ==> within(
            #[trigger] row(combos, i, k),
            0,
            space.cands@.len() as int,
        )
}

/// Whether what was handed back are choices that reach the required levels, each once.
pub open spec fn rows_sound(space: SearchSpace, combos: Seq<u32>, k: int) -> bool {
    &&& forall|i: int|
        0 <= i < row_count(combos) ==> is_choice(
            #[trigger] row(combos, i, k),
            space.cands@.len() as int,
            k,
        ) && space.meets(row(combos, i, k))
    &&& forall|i: int, j: int|
        0 <= i < j < row_count(combos) ==> row(combos, i, k) != row(combos, j, k)
}

/// Whether every choice that reaches the required levels and the threshold was handed back.
pub open spec fn rows_complete(
    space: SearchSpace,
    combos: Seq<u32>,
    k: int,
    mode: RankMode,
    threshold: (u32, u32),
) -> bool {
    forall|q: Seq<int>|
        is_choice(q, space.cands@.len() as int, k) && #[trigger] space.meets(q) && !packed_lt(
            packed(key_of(space.score(q), mode), mode),
            (threshold.0 as int, threshold.1 as int),
        ) ==> exists|i: int| 0 <= i < row_count(combos) && #[trigger] row(combos, i, k) == q
}

/// The entries of what was handed back.
pub open spec fn row_entries(space: SearchSpace, combos: Seq<u32>, k: int, mode: RankMode) -> Seq<
    Entry,
> {
    Seq::new(row_count(combos) as nat, |i: int| space.entry(row(combos, i, k), mode))
}

/// The device search is exact: where the device handed back each choice that reaches the required
/// levels and an admissible threshold, once and nothing else, the best of what it handed back are
/// the best of all.
pub proof fn law_device_search_is_exact(
    space: SearchSpace,
    top_k: nat,
    k: int,
    mode: RankMode,
    threshold: (u32, u32),
    combos: Seq<u32>,
    list: Seq<Entry>,
)
    requires
        device_ready(space, top_k, k, mode),
        admissible(space, top_k, k, mode, threshold),
        rows_sound(space, combos, k),
        rows_complete(space, combos, k, mode, threshold),
        is_top(list, top_k, row_entries(space, combos, k, mode).to_set()),
    ensures
        is_top(list, top_k, space.all_entries(k, mode)),
{
    let rows = row_entries(space, combos, k, mode);
    let found = rows.to_set();
    let all = space.all_entries(k, mode);
    let none = Seq::<int>::empty();
    let n = space.cands@.len() as int;
    let t = (threshold.0 as int, threshold.1 as int);
    lemma_device_keys(space, top_k, k, mode);
    assert forall|e: Entry| #[trigger] found.contains(e) implies all.contains(e) by {
        let i = choose|i: int| 0 <= i < rows.len() && rows[i] == e;
        let q = row(combos, i, k);
        assert(q.take(0) =~= none);
        assert(goes_on(q, none, 0));
    }
    assert forall|e: Entry| #[trigger]
        all.contains(e) && !packed_lt(packed(e.key, mode), t) implies found.contains(e) by {
        let q = choose|q: Seq<int>|
            is_choice(q, n, k) && #[trigger] goes_on(q, none, 0) && space.meets(q) && e
                == space.entry(q, mode);
        let i = choose|i: int| 0 <= i < row_count(combos) && #[trigger] row(combos, i, k) == q;
        assert(rows[i] == e);
    }
    assert forall|e: Entry| #[trigger] all.contains(e) && !found.contains(e) implies list.len()
        == top_k && forall|i: int| 0 <= i < list.len() ==> better(#[trigger] list[i], e) by {
        assert(packable(e.key, mode));
        assert(packed_lt(packed(e.key, mode), t));
        let part = choose|part: Seq<Entry>| #[trigger]
            is_threshold(space, top_k, k, mode, threshold, part);
        let last = part[part.len() - 1];
        assert(all.contains(last));
        law_packed_keys_keep_order(e.key, last.key, mode);
        assert(better(last, e));
        assert forall|i: int| 0 <= i < part.len() implies better(#[trigger] part[i], e) by {
            if i < part.len() - 1 {
                assert(better(part[i], part[part.len() - 1]));
                lemma_better_transitive(part[i], last, e);
            }
        }
        assert forall|i: int| 0 <= i < part.len() implies found.contains(#[trigger] part[i]) by {
            assert(all.contains(part[i]));
            if i < part.len() - 1 {
                assert(better(part[i], part[part.len() - 1]));
                law_packed_keys_keep_order(part[i].key, last.key, mode);
                law_packed_keys_keep_order(last.key, part[i].key, mode);
                lemma_lex_asymmetric(part[i].key, last.key);
            }
        }
        lemma_top_keeps_out(list, top_k, found, part, e);
    }
    lemma_top_grow(list, top_k, found, all);
    assert(found.union(all) =~= all);
}

proof fn lemma_lex_asymmetric(a: Seq<int>, b: Seq<int>)
    ensures
        !(lex_lt(a, b) && lex_lt(b, a)),
{
    if lex_lt(a, b) && lex_lt(b, a) {
        lemma_lex_transitive(a, b, a);
        lemma_lex_irreflexive(a);
    }
}

/// Ranks all combinations that the device handed back.
fn rank_rows(space: &SearchSpace, slot_count: usize, combos: &[u32], mode: RankMode) -> (ranked:
    Result<Vec<(Key, Vec<u32>)>, String>)
    requires
        space.wf(slot_count as int),
        small_values(*space),
        slot_count <= 5,
    ensures
        ranked is Ok <==> rows_in_range(*space, combos@, slot_count as int),
        ranked matches Ok(pairs) ==> pair_entries(pairs@) == row_entries(
            *space,
            combos@,
            slot_count as int,
            mode,
        ),
        ranked matches Err(message) ==> message@ == range_message(),
{
    let ghost k = slot_count as int;
    let ghost rows = row_entries(*space, combos@, k, mode);
    let len: usize = combos.len();
    let count: usize = len / 5;
    let mut pairs: Vec<(Key, Vec<u32>)> = Vec::new();
    let mut i: usize = 0;
    while i < count
        invariant
            i <= count,
            len == combos@.len(),
            count == len / 5,
            k == slot_count,
            slot_count <= 5,
            space.wf(k),
            small_values(*space),
            rows == row_entries(*space, combos@, k, mode),
            pairs@.len() == i,
            forall|x: int|
                0 <= x < i ==> within(
                    #[trigger] row(combos@, x, k),
                    0,
                    space.cands@.len() as int,
                ),
            forall|x: int| 0 <= x < i ==> #[trigger] pair_entries(pairs@)[x] == rows[x],
        decreases count - i,
    {
        let raw: &[u32] = vstd::slice::slice_subrange(combos, 5 * i, 5 * i + 5);
        let ghost before = pairs@;
        match recompute_combo(space, slot_count, raw, mode) {
            Ok(pair) => {
                assert(raw_choice(raw@, k) == row(combos@, i as int, k));
                pairs.push(pair);
                assert forall|x: int| 0 <= x < i + 1 implies #[trigger] pair_entries(pairs@)[x]
                    == rows[x] by {
                    if x < i {
                        assert(pair_entries(pairs@)[x] == pair_entries(before)[x]);
                    }
                }
            },
            Err(message) => {
                assert(raw_choice(raw@, k) == row(combos@, i as int, k));
                return Err(message);
            },
        }
        i += 1;
    }
    assert(pair_entries(pairs@) =~= rows);
    Ok(pairs)
}

/// Different choices have different combinations.
proof fn lemma_rows_distinct(space: SearchSpace, combos: Seq<u32>, k: int, mode: RankMode)
    requires
        space.wf(k),
        rows_sound(space, combos, k),
    ensures
        distinct_combos(row_entries(space, combos, k, mode)),
        forall|i: int|
            0 <= i < row_count(combos) ==> space.all_entries(k, mode).contains(
                #[trigger] row_entries(space, combos, k, mode)[i],
            ),
{
    let rows = row_entries(space, combos, k, mode);
    let none = Seq::<int>::empty();
    assert forall|i: int, j: int| 0 <= i < j < rows.len() implies rows[i].combo
        != rows[j].combo by {
        if rows[i].combo == rows[j].combo {
            space.lemma_same_combo(k, row(combos, i, k), row(combos, j, k));
            assert(row(combos, i, k) != row(combos, j, k));
        }
    }
    assert forall|i: int| 0 <= i < row_count(combos) implies space.all_entries(k, mode).contains(
        #[trigger] rows[i],
    ) by {
        let q = row(combos, i, k);
        assert(is_choice(q, space.cands@.len() as int, k));
        assert(q.take(0) =~= none);
        assert(goes_on(q, none, 0));
    }
}

/// Entries of one space with the same combination are the same.
proof fn lemma_same_entry(space: SearchSpace, k: int, mode: RankMode, a: Entry, b: Entry)
    requires
        space.wf(k),
        space.all_entries(k, mode).contains(a),
        space.all_entries(k, mode).contains(b),
        a.combo == b.combo,
    ensures
        a == b,
{
    let none = Seq::<int>::empty();
    let n = space.cands@.len() as int;
    let p = choose|q: Seq<int>|
        is_choice(q, n, k) && #[trigger] goes_on(q, none, 0) && space.meets(q) && a == space.entry(
            q,
            mode,
        );
    let q = choose|q: Seq<int>|
        is_choice(q, n, k) && #[trigger] goes_on(q, none, 0) && space.meets(q) && b == space.entry(
            q,
            mode,
        );
    space.lemma_same_combo(k, p, q);
}

/// Whether a key fits its packed form.
fn is_packable(key: &Key, mode: RankMode) -> (b: bool)
    ensures
        b == packable(key_view(*key), mode),
{
    let ghost k = key_view(*key);
    assert(k[0] == key[0] && k[1] == key[1] && k[2] == key[2] && k[3] == key[3] && k[4] == key[4]
        && k[5] == key[5]);
    let counts: bool = 0 <= key[0] && key[0] < 64 && 0 <= key[1] && key[1] < 64 && 0 <= key[2]
        && key[2] < 64;
    let sums: bool = match mode {
        RankMode::Link => 0 <= key[3] && key[3] <= 0x3FFF && 0 <= key[4] && key[4] < 0x1_0000,
        RankMode::Lv5 => 0 <= key[3] && key[3] < 64 && 0 <= key[4] && key[4] <= 0xFFFF,
    };
    counts && sums && -0xFFFF <= key[5] && key[5] <= 0
}

/// The message for a combination whose key does not fit its packed form.
pub open spec fn width_message() -> Seq<char> {
    "GPU出力comboのキーがキーpacking幅を超えています（実行時異常）"@
}

/// Raising a threshold with the rows that were handed back: to the packed key of rank `top_k` among
/// the seed and the rows whose combinations the seed does not have; it stays where there are fewer.
/// A key that does not fit its packed form is an error.
pub open spec fn refines(
    seed: Seq<Entry>,
    rows: Seq<Entry>,
    top_k: nat,
    mode: RankMode,
    before: (u32, u32),
    refined: Result<(u32, u32), String>,
) -> bool {
    exists|list: Seq<Entry>| #[trigger]
        is_best_of(list, top_k, merged(seed, rows).to_multiset()) && (if list.len() < top_k {
            refined is Ok && refined->Ok_0 == before
        } else if packable(list.last().key, mode) {
            refined is Ok && (refined->Ok_0.0 as int, refined->Ok_0.1 as int) == packed(
                list.last().key,
                mode,
            )
        } else {
            refined is Err && refined->Err_0@ == width_message()
        })
}

/// Raises the threshold after the first chunks: to the key of rank `top_k` among the seed and what
/// the device handed back so far, where there are as many.
pub fn refine_threshold(
    space: &SearchSpace,
    plan: &GpuPlan,
    combos: &[u32],
    top_k: usize,
    slot_count: usize,
    mode: RankMode,
) -> (refined: Result<(u32, u32), String>)
    requires
        device_ready(*space, top_k as nat, slot_count as int, mode),
        plan.plans(*space, top_k as nat, slot_count as int, mode),
    ensures
        row_count(combos@) == 0 ==> refined is Ok && refined->Ok_0 == plan.threshold,
        !rows_in_range(*space, combos@, slot_count as int) ==> refined is Err && refined->Err_0@
            == range_message(),
        row_count(combos@) > 0 && rows_in_range(*space, combos@, slot_count as int) ==> refines(
            entries(plan.seed@),
            row_entries(*space, combos@, slot_count as int, mode),
            top_k as nat,
            mode,
            plan.threshold,
            refined,
        ),
        rows_sound(*space, combos@, slot_count as int) ==> refined is Ok && admissible(
            *space,
            top_k as nat,
            slot_count as int,
            mode,
            refined->Ok_0,
        ),
{
    let ghost k = slot_count as int;
    proof {
        lemma_device_keys(*space, top_k as nat, k, mode);
    }
    if combos.len() < ROW_WORDS {
        return Ok(plan.threshold);
    }
    let extra: Vec<(Key, Vec<u32>)> = match rank_rows(space, slot_count, combos, mode) {
        Ok(pairs) => pairs,
        Err(message) => {
            proof {
                if rows_sound(*space, combos@, k) {
                    assert(rows_in_range(*space, combos@, k));
                }
            }
            return Err(message);
        },
    };
    let ghost seed = entries(plan.seed@);
    let ghost more = pair_entries(extra@);
    let ghost offers = merged(seed, more);
    let ghost all = space.all_entries(k, mode);
    let ghost sound = rows_sound(*space, combos@, k);
    proof {
        lemma_merged(seed, more);
        if sound {
            lemma_rows_distinct(*space, combos@, k, mode);
            assert(distinct_combos(seed)) by {
                assert forall|i: int, j: int| 0 <= i < j < seed.len() implies seed[i].combo
                    != seed[j].combo by {
                    assert(all.contains(seed[i]) && all.contains(seed[j]));
                    if seed[i].combo == seed[j].combo {
                        lemma_same_entry(*space, k, mode, seed[i], seed[j]);
                        assert(better(seed[i], seed[j]));
                        lemma_better_irreflexive(seed[i]);
                    }
                }
            }
        }
    }
    let worst: Option<Key> = merge_topk_for_refinement(&plan.seed, extra, top_k);
    let ghost list = choose|list: Seq<Entry>| #[trigger]
        is_best_of(list, top_k as nat, offers.to_multiset()) && (worst is Some <==> list.len()
            == top_k) && (worst matches Some(key) ==> list.last().key == key_view(key));
    proof {
        if sound {
            lemma_best_is_top(list, top_k as nat, offers);
            assert forall|i: int| 0 <= i < list.len() implies all.contains(#[trigger] list[i]) by {
                let e = list[i];
                assert(offers.to_set().contains(e));
                assert(offers.contains(e));
                if seed.contains(e) {
                    let j = choose|j: int| 0 <= j < seed.len() && seed[j] == e;
                    assert(all.contains(seed[j]));
                } else {
                    let j = choose|j: int| 0 <= j < more.len() && more[j] == e;
                    assert(all.contains(more[j]));
                }
            }
        }
    }
    match worst {
        Some(key) => {
            if !is_packable(&key, mode) {
                proof {
                    if sound {
                        assert(all.contains(list[list.len() - 1]));
                    }
                }
                return Err(
                    String::from_str("GPU出力comboのキーがキーpacking幅を超えています（実行時異常）"),
                );
            }
            let t: (u32, u32) = pack_key(&key, mode);
            proof {
                if sound {
                    assert(is_threshold(*space, top_k as nat, k, mode, t, list));
                }
            }
            Ok(t)
        },
        None => Ok(plan.threshold),
    }
}

/// The best combinations of what the device handed back, the best first.
///
/// Where what it handed back is sound and complete, these are the best of all.
pub fn finish_search(
    space: &SearchSpace,
    combos: &[u32],
    top_k: usize,
    slot_count: usize,
    mode: RankMode,
) -> (ranked: Result<Vec<Ranked>, String>)
    requires
        device_ready(*space, top_k as nat, slot_count as int, mode),
    ensures
        ranked is Ok <==> rows_in_range(*space, combos@, slot_count as int),
        ranked matches Err(message) ==> message@ == range_message(),
        ranked matches Ok(list) ==> is_best_of(
            entries(list@),
            top_k as nat,
            row_entries(*space, combos@, slot_count as int, mode).to_multiset(),
        ),
        ranked matches Ok(list) ==> forall|threshold: (u32, u32)|
            rows_sound(*space, combos@, slot_count as int) && #[trigger] admissible(
                *space,
                top_k as nat,
                slot_count as int,
                mode,
                threshold,
            ) && rows_complete(*space, combos@, slot_count as int, mode, threshold) ==> is_top(
                entries(list@),
                top_k as nat,
                space.all_entries(slot_count as int, mode),
            ),
{
    let ghost k = slot_count as int;
    proof {
        lemma_device_keys(*space, top_k as nat, k, mode);
    }
    let pairs: Vec<(Key, Vec<u32>)> = match rank_rows(space, slot_count, combos, mode) {
        Ok(pairs) => pairs,
        Err(message) => {
            return Err(message);
        },
    };
    let ghost rows = row_entries(*space, combos@, k, mode);
    let mut top = TopK::new(top_k);
    let mut i: usize = 0;
    proof {
        assert(rows.take(0) =~= Seq::<Entry>::empty());
        lemma_nothing_offered(entries(top.items@), top_k as nat);
    }
    while i < pairs.len()
        invariant
            i <= pairs@.len(),
            rows == pair_entries(pairs@),
            top.cap == top_k,
            top_k >= 1,
            is_best_of(entries(top.items@), top_k as nat, rows.take(i as int).to_multiset()),
        decreases pairs@.len() - i,
    {
        proof {
            lemma_offer_next(entries(top.items@), top_k as nat, rows.take(i as int), rows[i as int]);
            assert(rows.take(i + 1) =~= rows.take(i as int).push(rows[i as int]));
        }
        top.offer(pairs[i].0, pairs[i].1.as_slice());
        i += 1;
    }
    let list: Vec<Ranked> = top.into_vec();
    proof {
        assert(rows.take(i as int) =~= rows);
        assert forall|threshold: (u32, u32)|
            rows_sound(*space, combos@, k) && #[trigger] admissible(
                *space,
                top_k as nat,
                k,
                mode,
                threshold,
            ) && rows_complete(*space, combos@, k, mode, threshold) implies is_top(
            entries(list@),
            top_k as nat,
            space.all_entries(k, mode),
        ) by {
            lemma_rows_distinct(*space, combos@, k, mode);
            assert(rows.no_duplicates()) by {
                assert forall|a: int, b: int| 0 <= a < b < rows.len() implies rows[a]
                    != rows[b] by {
                    assert(rows[a].combo != rows[b].combo);
                }
            }
            lemma_best_is_top(entries(list@), top_k as nat, rows);
            law_device_search_is_exact(
                *space,
                top_k as nat,
                k,
                mode,
                threshold,
                combos@,
                entries(list@),
            );
        }
    }
    Ok(list)
}

} // verus!
