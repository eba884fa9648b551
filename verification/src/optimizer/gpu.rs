//! When a request is searched on a graphics device, and what becomes of the answer.

use crate::optimizer::accum::{parts_ok, RankMode};
use crate::optimizer::bridge::dense_parts;
use crate::optimizer::gpu_plan::{lemma_small_sums, range_message, small_values};
use crate::optimizer::gpu_run::{
    admissible, device_ready, device_refusal, fallback_reason, finish_search, has_negative,
    lemma_device_keys, plan_gpu_search, row, row_entries, rows_complete, rows_in_range, rows_sound, GpuPlan,
};
use crate::optimizer::model::{mods_at, ranked_combos, value_sum};
use crate::optimizer::optimize::{
    assemble, combo_fits, is_optimum, lemma_prepared_entries, shows, OptimizeResult,
};
use crate::optimizer::prepare::{hopeless, lemma_total_split, Prepared};
use crate::optimizer::ranking::{
    entries, is_best_of, is_top, lemma_best_was_offered, Entry, Ranked,
};
use crate::optimizer::solution::{lemma_sums_fit, Solution};
use crate::optimizer::space::{images, SearchSpace};
use crate::optimizer::sums::within;
use vstd::prelude::*;

verus! {

/// What is to be done for a prepared request.
pub enum GpuDecision {
    /// There is nothing to search: the result is empty.
    Empty,
    /// The device is not used, for this reason.
    Fallback(String),
    /// The device searches.
    Search(GpuPlan),
}

/// The required levels fit the words that the kernels read.
pub open spec fn requirements_fit(space: SearchSpace) -> bool {
    &&& space.required_idxs@.len() <= u32::MAX
    &&& forall|j: int|
        0 <= j < space.required_idxs@.len() ==> (#[trigger] space.required_idxs@[j]).1 <= u32::MAX
}

/// Decides how a prepared request is searched.
pub fn decide_gpu(
    prepared: &Prepared,
    top_k: usize,
    slot_count: usize,
    mode: RankMode,
) -> (decision: Result<GpuDecision, String>)
    requires
        top_k >= 1,
        !prepared.trivially_empty ==> {
            !has_negative(prepared.space) && 4 <= slot_count <= 5 ==> prepared.space.wf(
                slot_count as int,
            ) && slot_count <= prepared.space.cands@.len() && requirements_fit(prepared.space)
        },
    ensures
        decision is Ok,
        decision matches Ok(d) ==> match d {
            GpuDecision::Empty => prepared.trivially_empty,
            GpuDecision::Fallback(reason) => !prepared.trivially_empty && device_refusal(
                prepared.space,
                top_k as nat,
                slot_count as int,
                mode,
            ) == Some(reason@),
            GpuDecision::Search(plan) => {
                &&& !prepared.trivially_empty
                &&& device_ready(prepared.space, top_k as nat, slot_count as int, mode)
                &&& plan.plans(prepared.space, top_k as nat, slot_count as int, mode)
            },
        },
{
    if prepared.trivially_empty {
        return Ok(GpuDecision::Empty);
    }
    match fallback_reason(&prepared.space, top_k, slot_count, mode) {
        Some(reason) => Ok(GpuDecision::Fallback(reason)),
        None => {
            match plan_gpu_search(&prepared.space, top_k, slot_count, mode) {
                Ok(plan) => Ok(GpuDecision::Search(plan)),
                Err(message) => Err(message),
            }
        },
    }
}

/// Positions of candidates, however the device came by them, can be shown.
proof fn lemma_row_fits(prepared: Prepared, k: int, q: Seq<int>)
    requires
        prepared.ready(k),
        !prepared.trivially_empty,
        small_values(prepared.space),
        within(q, 0, prepared.space.cands@.len() as int),
        q.len() <= 5,
    ensures
        combo_fits(
            images(prepared.space.order@, q).sort(),
            prepared.views(),
            prepared.soft_exclude_ids@,
        ),
{
    let space = prepared.space;
    let views = prepared.views();
    let im = images(space.order@, q);
    let c = im.sort();
    im.lemma_sort_ensures();
    space.lemma_represents(
        prepared.attr_ids@,
        views,
        prepared.selected_ids@,
        prepared.soft_exclude_ids@,
        prepared.requirements@,
        q,
        c,
    );
    lemma_small_sums(space, k, q);
    let mods = mods_at(views, c);
    lemma_total_split(mods, prepared.soft_exclude_ids@);
    assert(space.score(q).link == space.link(q));
    assert(space.score(q).excl == space.left_out(q));
    assert(value_sum(mods) <= i32::MAX);
    assert forall|i: int, j: int| 0 <= i < mods.len() && 0 <= j < mods[i].parts.len() implies (
    #[trigger] mods[i].parts[j]).value >= 0 by {
        assert(im.contains(c[i])) by {
            broadcast use vstd::seq_lib::group_to_multiset_ensures;

            assert(c.contains(c[i]));
            assert(c.to_multiset().count(c[i]) > 0);
            assert(im.to_multiset().count(c[i]) > 0);
        }
        let x = choose|x: int| 0 <= x < im.len() && im[x] == c[i];
        assert(0 <= q[x] < space.cands@.len());
        let parts = space.cands@[q[x]].parts@;
        assert(parts_ok(parts, space.n_attr as int));
        assert(dense_parts(parts, views[c[i]], prepared.attr_ids@));
        assert(parts[j].1 >= 0);
    }
    lemma_sums_fit(mods, prepared.soft_exclude_ids@);
}

/// The solutions show the best `top_k` of `rows`, the best first, whatever the rows are.
pub open spec fn shows_best_rows(
    solutions: Seq<Solution>,
    prepared: Prepared,
    rows: Seq<Entry>,
    top_k: nat,
) -> bool {
    exists|best: Seq<Entry>| #[trigger]
        is_best_of(best, top_k, rows.to_multiset()) && shows(
            solutions,
            best,
            prepared.views(),
            prepared.selected_ids@,
            prepared.soft_exclude_ids@,
        )
}

/// Shows the best of what the device handed back.
///
/// Where the device handed back each combination that reaches the required levels and an admissible
/// threshold, once and nothing else, these are the solutions that a search without it finds.
pub fn finish_gpu(
    prepared: &Prepared,
    combos: &[u32],
    top_k: usize,
    slot_count: usize,
    mode: RankMode,
) -> (result: Result<OptimizeResult, String>)
    requires
        !prepared.trivially_empty,
        prepared.trivially_empty == hopeless(
            prepared.views(),
            prepared.requirements@,
            slot_count as int,
        ),
        prepared.ready(slot_count as int),
        prepared.complete(),
        device_ready(prepared.space, top_k as nat, slot_count as int, mode),
    ensures
        result is Ok <==> rows_in_range(prepared.space, combos@, slot_count as int),
        result matches Err(message) ==> message@ == range_message(),
        result matches Ok(r) ==> {
            &&& shows_best_rows(
                r.solutions@,
                *prepared,
                row_entries(prepared.space, combos@, slot_count as int, mode),
                top_k as nat,
            )
            &&& r.candidate_count == prepared.candidate_count
            &&& r.combinations == prepared.combinations
            &&& r.engine@ == "gpu"@
            &&& forall|threshold: (u32, u32)|
                rows_sound(prepared.space, combos@, slot_count as int) && #[trigger] admissible(
                    prepared.space,
                    top_k as nat,
                    slot_count as int,
                    mode,
                    threshold,
                ) && rows_complete(prepared.space, combos@, slot_count as int, mode, threshold)
                    ==> is_optimum(
                    r.solutions@,
                    prepared.views(),
                    prepared.selected_ids@,
                    prepared.soft_exclude_ids@,
                    prepared.requirements@,
                    top_k as nat,
                    slot_count as int,
                    mode,
                )
        },
{
    let ghost k = slot_count as int;
    let ghost space = prepared.space;
    let ranked: Vec<Ranked> = match finish_search(&prepared.space, combos, top_k, slot_count, mode) {
        Ok(list) => list,
        Err(message) => {
            return Err(message);
        },
    };
    let ghost best = entries(ranked@);
    let ghost rows = row_entries(space, combos@, k, mode);
    proof {
        lemma_device_keys(space, top_k as nat, k, mode);
        assert forall|i: int| 0 <= i < ranked@.len() implies combo_fits(
            (#[trigger] ranked@[i])@.combo,
            prepared.views(),
            prepared.soft_exclude_ids@,
        ) by {
            assert(best[i] == ranked@[i]@);
            lemma_best_was_offered(best, top_k as nat, rows, i);
            let j = choose|j: int| 0 <= j < rows.len() && rows[j] == best[i];
            let q = row(combos@, j, k);
            assert(within(q, 0, space.cands@.len() as int));
            lemma_row_fits(*prepared, k, q);
        }
        lemma_prepared_entries(*prepared, k, mode);
    }
    let result = assemble(prepared, ranked, "gpu");
    proof {
        assert(is_best_of(best, top_k as nat, rows.to_multiset()));
        let all = ranked_combos(
            prepared.views(),
            prepared.selected_ids@,
            prepared.soft_exclude_ids@,
            prepared.requirements@,
            k,
            mode,
        );
        assert forall|threshold: (u32, u32)|
            rows_sound(space, combos@, k) && #[trigger] admissible(
                space,
                top_k as nat,
                k,
                mode,
                threshold,
            ) && rows_complete(space, combos@, k, mode, threshold) implies is_optimum(
            result.solutions@,
            prepared.views(),
            prepared.selected_ids@,
            prepared.soft_exclude_ids@,
            prepared.requirements@,
            top_k as nat,
            k,
            mode,
        ) by {
            assert(is_top(best, top_k as nat, all));
        }
    }
    Ok(result)
}

} // verus!
