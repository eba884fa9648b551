//! The optimizer: request in, best solutions out.

use crate::optimizer::accum::RankMode;
use crate::optimizer::bridge::lemma_absent;
use crate::optimizer::levels::{choose_count, level, n_choose_k};
use crate::optimizer::limits::{choose_fits_machine, is_searchable};
use crate::optimizer::model::{
    attr_total, mods_at, module_views, ranked_combos, usable_modules, value_sum, Module, ModuleView,
};
use crate::optimizer::plain::{all_combos_fit, is_hopeless, plainly_searchable, search_plain};
use crate::optimizer::prepare::{
    category_view, has_attr, hopeless, lemma_preparable, nothing_to_search, prepare, ref_views, search_cpu,
    select_candidates, slice_views, within_limits, Prepared,
};
use crate::optimizer::ranking::{combo_view, entries, is_top, Entry, Ranked};
use crate::optimizer::request::{refusal, searchable, validate_inputs, values_fit};
use crate::optimizer::solution::{
    build_solution, is_solution, lemma_sums_fit, sums_fit, Solution,
};
use crate::optimizer::space::is_choice;
use crate::optimizer::sums::lemma_increasing_len;
use vstd::prelude::*;

verus! {

/// What a run of the optimizer found.
#[derive(Debug, Clone)]
pub struct OptimizeResult {
    /// The best solutions, the best first.
    pub solutions: Vec<Solution>,
    pub candidate_count: usize,
    pub combinations: u64,
    /// The engine that searched: "cpu" or "gpu".
    pub engine: String,
}

/// The solutions show the combinations of `best`, in order.
pub open spec fn shows(
    solutions: Seq<Solution>,
    best: Seq<Entry>,
    candidates: Seq<ModuleView>,
    selected: Seq<i32>,
    soft: Seq<i32>,
) -> bool {
    &&& solutions.len() == best.len()
    &&& forall|i: int|
        0 <= i < best.len() ==> is_solution(
            #[trigger] solutions[i],
            mods_at(candidates, best[i].combo),
            selected,
            soft,
        )
}

/// The solutions are the best `top_k` combinations of `k` candidates that reach the required
/// levels, the best first.
pub open spec fn is_optimum(
    solutions: Seq<Solution>,
    candidates: Seq<ModuleView>,
    selected: Seq<i32>,
    soft: Seq<i32>,
    requirements: Seq<(i32, usize)>,
    top_k: nat,
    k: int,
    mode: RankMode,
) -> bool {
    exists|best: Seq<Entry>| #[trigger]
        is_top(
            best,
            top_k,
            ranked_combos(candidates, selected, soft, requirements, k, mode),
        ) && shows(solutions, best, candidates, selected, soft)
}

/// The number of combinations that a run reports.
pub open spec fn reported_combinations(
    candidates: Seq<ModuleView>,
    requirements: Seq<(i32, usize)>,
    k: int,
) -> int {
    if hopeless(candidates, requirements, k) {
        0
    } else {
        choose_count(candidates.len(), k as nat) as int % 0x1_0000_0000_0000_0000
    }
}

/// Turns ranked combinations into solutions.
pub fn assemble(prepared: &Prepared, ranked: Vec<Ranked>, engine: &str) -> (result: OptimizeResult)
    requires
        forall|i: int|
            0 <= i < ranked@.len() ==> combo_fits(
                (#[trigger] ranked@[i])@.combo,
                prepared.views(),
                prepared.soft_exclude_ids@,
            ),
    ensures
        shows(
            result.solutions@,
            entries(ranked@),
            prepared.views(),
            prepared.selected_ids@,
            prepared.soft_exclude_ids@,
        ),
        result.candidate_count == prepared.candidate_count,
        result.combinations == prepared.combinations,
        result.engine@ == engine@,
{
    let ghost views = prepared.views();
    let ghost best = entries(ranked@);
    let mut solutions: Vec<Solution> = Vec::new();
    let mut i: usize = 0;
    while i < ranked.len()
        invariant
            i <= ranked@.len(),
            views == prepared.views(),
            best == entries(ranked@),
            forall|i: int|
                0 <= i < ranked@.len() ==> combo_fits(
                    (#[trigger] ranked@[i])@.combo,
                    views,
                    prepared.soft_exclude_ids@,
                ),
            solutions@.len() == i,
            forall|x: int|
                0 <= x < i ==> is_solution(
                    #[trigger] solutions@[x],
                    mods_at(views, best[x].combo),
                    prepared.selected_ids@,
                    prepared.soft_exclude_ids@,
                ),
        decreases ranked@.len() - i,
    {
        let ghost combo = best[i as int].combo;
        assert(combo_fits(ranked@[i as int]@.combo, views, prepared.soft_exclude_ids@));
        let mut mods: Vec<Module> = Vec::new();
        let mut j: usize = 0;
        while j < ranked[i].combo.len()
            invariant
                i < ranked@.len(),
                j <= ranked@[i as int].combo@.len(),
                views == prepared.views(),
                combo == combo_view(ranked@[i as int].combo@),
                combo_fits(combo, views, prepared.soft_exclude_ids@),
                mods@.len() == j,
                forall|x: int| 0 <= x < j ==> (#[trigger] mods@[x])@ == views[combo[x]],
            decreases ranked@[i as int].combo@.len() - j,
        {
            let at: usize = ranked[i].combo[j] as usize;
            assert(0 <= combo[j as int] < views.len());
            mods.push(prepared.candidates[at].duplicate());
            j += 1;
        }
        assert(module_views(mods@) =~= mods_at(views, combo));
        solutions.push(
            build_solution(mods, prepared.selected_ids, prepared.soft_exclude_ids),
        );
        i += 1;
    }
    OptimizeResult {
        solutions,
        candidate_count: prepared.candidate_count,
        combinations: prepared.combinations,
        engine: engine.to_owned(),
    }
}

/// Whether `combo` holds positions of modules whose sums fit 32 bits.
pub open spec fn combo_fits(
    combo: Seq<int>,
    candidates: Seq<ModuleView>,
    soft: Seq<i32>,
) -> bool {
    &&& forall|j: int| 0 <= j < combo.len() ==> 0 <= #[trigger] combo[j] < candidates.len()
    &&& sums_fit(mods_at(candidates, combo), soft)
}

/// A ranked combination of a searchable request can be shown.
pub proof fn lemma_combo_fits(
    candidates: Seq<ModuleView>,
    soft: Seq<i32>,
    k: int,
    combo: Seq<int>,
)
    requires
        values_fit(candidates, k),
        is_choice(combo, candidates.len() as int, k),
    ensures
        combo_fits(combo, candidates, soft),
{
    let mods = mods_at(candidates, combo);
    assert(value_sum(mods) <= i32::MAX);
    assert forall|i: int, j: int| 0 <= i < mods.len() && 0 <= j < mods[i].parts.len() implies (
    #[trigger] mods[i].parts[j]).value >= 0 by {
        assert(0 <= combo[i] < candidates.len());
        assert(candidates[combo[i]].parts[j].value >= 0);
    }
    lemma_sums_fit(mods, soft);
}

/// Finds the best solutions, with each kind of pruning switched on or off.
pub fn optimize_with_opts(
    modules: &[Module],
    selected_ids: &[i32],
    category: Option<&str>,
    hard_exclude_ids: &[i32],
    soft_exclude_ids: &[i32],
    requirements: &[(i32, usize)],
    top_k: usize,
    slot_count: usize,
    mode: RankMode,
    use_requirement_pruning: bool,
    use_bnb_pruning: bool,
) -> (result: Result<OptimizeResult, String>)
    requires
        within_limits(
            slice_views(modules@),
            selected_ids@,
            category_view(category),
            hard_exclude_ids@,
            soft_exclude_ids@,
            requirements@,
            slot_count as int,
        ),
        top_k >= 1 || refusal(
            selected_ids@,
            hard_exclude_ids@,
            soft_exclude_ids@,
            requirements@,
        ) is Some || ranked_combos(
            usable_modules(slice_views(modules@), category_view(category), hard_exclude_ids@),
            selected_ids@,
            soft_exclude_ids@,
            requirements@,
            slot_count as int,
            mode,
        ) == Set::<Entry>::empty(),
    ensures
        result is Ok <==> refusal(
            selected_ids@,
            hard_exclude_ids@,
            soft_exclude_ids@,
            requirements@,
        ) is None,
        result matches Err(message) ==> refusal(
            selected_ids@,
            hard_exclude_ids@,
            soft_exclude_ids@,
            requirements@,
        ) == Some(message@),
        result matches Ok(r) ==> {
            let candidates = usable_modules(
                slice_views(modules@),
                category_view(category),
                hard_exclude_ids@,
            );
            &&& is_optimum(
                r.solutions@,
                candidates,
                selected_ids@,
                soft_exclude_ids@,
                requirements@,
                top_k as nat,
                slot_count as int,
                mode,
            )
            &&& r.candidate_count == candidates.len()
            &&& r.combinations == reported_combinations(
                candidates,
                requirements@,
                slot_count as int,
            )
            &&& r.engine@ == "cpu"@
        },
{
    proof {
        lemma_preparable(
            slice_views(modules@),
            selected_ids@,
            category_view(category),
            hard_exclude_ids@,
            soft_exclude_ids@,
            requirements@,
            slot_count as int,
        );
    }
    let prepared: Prepared = match prepare(
        modules,
        selected_ids,
        category,
        hard_exclude_ids,
        soft_exclude_ids,
        requirements,
        slot_count,
    ) {
        Ok(p) => p,
        Err(message) => {
            return Err(message);
        },
    };
    proof {
        lemma_prepared_entries(prepared, slot_count as int, mode);
    }
    let ranked: Vec<Ranked> = search_cpu(
        &prepared,
        top_k,
        slot_count,
        mode,
        use_requirement_pruning,
        use_bnb_pruning,
    );
    let ghost best = entries(ranked@);
    let ghost k = slot_count as int;
    let ghost all = ranked_combos(
        prepared.views(),
        selected_ids@,
        soft_exclude_ids@,
        requirements@,
        k,
        mode,
    );
    proof {
        assert forall|i: int| 0 <= i < ranked@.len() implies combo_fits(
            (#[trigger] ranked@[i])@.combo,
            prepared.views(),
            prepared.soft_exclude_ids@,
        ) by {
            assert(best[i] == ranked@[i]@);
            assert(all.contains(best[i]));
            lemma_combo_fits(prepared.views(), prepared.soft_exclude_ids@, k, best[i].combo);
        }
    }
    let result = assemble(&prepared, ranked, "cpu");
    assert(is_top(best, top_k as nat, all));
    Ok(result)
}

/// What a complete prepared request ranks are the combinations of its candidates.
pub proof fn lemma_prepared_entries(
    prepared: Prepared,
    k: int,
    mode: RankMode,
)
    requires
        k >= 0,
        prepared.trivially_empty == hopeless(prepared.views(), prepared.requirements@, k),
        prepared.ready(k),
        prepared.complete(),
    ensures
        prepared.all_entries(k, mode) == ranked_combos(
            prepared.views(),
            prepared.selected_ids@,
            prepared.soft_exclude_ids@,
            prepared.requirements@,
            k,
            mode,
        ),
{
    let requirements = prepared.requirements@;
    let views = prepared.views();
    let selected = prepared.selected_ids@;
    let soft = prepared.soft_exclude_ids@;
    let all = ranked_combos(views, selected, soft, requirements, k, mode);
    if prepared.trivially_empty {
        lemma_hopeless(views, selected, soft, requirements, k, mode);
    } else {
        prepared.space.lemma_entries_are_all_combos(
            prepared.attr_ids@,
            views,
            selected,
            soft,
            requirements,
            k,
            mode,
        );
    }
}

/// A hopeless request has no combinations.
pub proof fn lemma_hopeless(
    candidates: Seq<ModuleView>,
    selected: Seq<i32>,
    soft: Seq<i32>,
    requirements: Seq<(i32, usize)>,
    k: int,
    mode: RankMode,
)
    requires
        k >= 0,
        hopeless(candidates, requirements, k),
    ensures
        ranked_combos(candidates, selected, soft, requirements, k, mode) == Set::<Entry>::empty(),
{
    let all = ranked_combos(candidates, selected, soft, requirements, k, mode);
    assert forall|e: Entry| !#[trigger] all.contains(e) by {
        if all.contains(e) {
            if candidates.len() < k {
                lemma_increasing_len(e.combo, 0, candidates.len() as int);
            } else {
                let j = choose|j: int|
                    0 <= j < requirements.len() && (#[trigger] requirements[j]).1 > 0 && !has_attr(
                        candidates,
                        requirements[j].0,
                    );
                let mods = mods_at(candidates, e.combo);
                assert forall|i: int, x: int|
                    0 <= i < candidates.len() && 0 <= x < candidates[i].parts.len() implies (
                #[trigger] candidates[i].parts[x]).attr_id != requirements[j].0 by {}
                lemma_absent(candidates, e.combo, requirements[j].0);
                assert(level(attr_total(mods, requirements[j].0)) >= requirements[j].1);
            }
        }
    }
    assert(all =~= Set::<Entry>::empty());
}

/// A request that is answered: it is refused, hopeless, or stays within the limits of the machine.
pub open spec fn answerable(
    modules: Seq<ModuleView>,
    selected: Seq<i32>,
    category: Option<Seq<char>>,
    hard: Seq<i32>,
    soft: Seq<i32>,
    requirements: Seq<(i32, usize)>,
    k: int,
) -> bool {
    ||| within_limits(modules, selected, category, hard, soft, requirements, k)
    ||| plainly_searchable(usable_modules(modules, category, hard), soft, k)
}

/// Whether a request is answered.
pub fn is_answerable(
    modules: &[Module],
    selected_ids: &[i32],
    category: Option<&str>,
    hard_exclude_ids: &[i32],
    soft_exclude_ids: &[i32],
    requirements: &[(i32, usize)],
    slot_count: usize,
) -> (b: bool)
    ensures
        b == answerable(
            slice_views(modules@),
            selected_ids@,
            category_view(category),
            hard_exclude_ids@,
            soft_exclude_ids@,
            requirements@,
            slot_count as int,
        ),
{
    if validate_inputs(selected_ids, hard_exclude_ids, soft_exclude_ids, requirements).is_err() {
        return true;
    }
    if is_searchable(modules, category, hard_exclude_ids, slot_count) {
        return true;
    }
    let candidates: Vec<&Module> = select_candidates(modules, category, hard_exclude_ids);
    assert(slice_views(modules@) =~= Seq::new(modules@.len(), |i: int| modules@[i]@));
    if is_hopeless(&candidates, requirements, slot_count) {
        return true;
    }
    let n: usize = candidates.len();
    if n as u64 >= u32::MAX as u64 {
        return false;
    }
    choose_fits_machine(n, slot_count) && all_combos_fit(&candidates, soft_exclude_ids, slot_count)
}

/// Finds the best solutions by looking at every combination.
fn optimize_plain(
    modules: &[Module],
    selected_ids: &[i32],
    category: Option<&str>,
    hard_exclude_ids: &[i32],
    soft_exclude_ids: &[i32],
    requirements: &[(i32, usize)],
    top_k: usize,
    slot_count: usize,
    mode: RankMode,
) -> (result: Result<OptimizeResult, String>)
    requires
        answerable(
            slice_views(modules@),
            selected_ids@,
            category_view(category),
            hard_exclude_ids@,
            soft_exclude_ids@,
            requirements@,
            slot_count as int,
        ),
        !searchable(
            usable_modules(slice_views(modules@), category_view(category), hard_exclude_ids@),
            slot_count as int,
        ),
        top_k >= 1 || refusal(
            selected_ids@,
            hard_exclude_ids@,
            soft_exclude_ids@,
            requirements@,
        ) is Some || ranked_combos(
            usable_modules(slice_views(modules@), category_view(category), hard_exclude_ids@),
            selected_ids@,
            soft_exclude_ids@,
            requirements@,
            slot_count as int,
            mode,
        ) == Set::<Entry>::empty(),
    ensures
        result is Ok <==> refusal(
            selected_ids@,
            hard_exclude_ids@,
            soft_exclude_ids@,
            requirements@,
        ) is None,
        result matches Err(message) ==> refusal(
            selected_ids@,
            hard_exclude_ids@,
            soft_exclude_ids@,
            requirements@,
        ) == Some(message@),
        result matches Ok(r) ==> {
            let candidates = usable_modules(
                slice_views(modules@),
                category_view(category),
                hard_exclude_ids@,
            );
            &&& is_optimum(
                r.solutions@,
                candidates,
                selected_ids@,
                soft_exclude_ids@,
                requirements@,
                top_k as nat,
                slot_count as int,
                mode,
            )
            &&& r.candidate_count == candidates.len()
            &&& r.combinations == reported_combinations(
                candidates,
                requirements@,
                slot_count as int,
            )
            &&& r.engine@ == "cpu"@
        },
{
    match validate_inputs(selected_ids, hard_exclude_ids, soft_exclude_ids, requirements) {
        Ok(_) => {},
        Err(message) => {
            return Err(message);
        },
    }
    let candidates: Vec<&Module> = select_candidates(modules, category, hard_exclude_ids);
    let ghost views = ref_views(candidates@);
    let ghost k = slot_count as int;
    let ghost all = ranked_combos(
        views,
        selected_ids@,
        soft_exclude_ids@,
        requirements@,
        k,
        mode,
    );
    assert(slice_views(modules@) =~= Seq::new(modules@.len(), |i: int| modules@[i]@));
    let mut ranked: Vec<Ranked> = Vec::new();
    let mut combinations: u64 = 0;
    if is_hopeless(&candidates, requirements, slot_count) {
        proof {
            lemma_hopeless(views, selected_ids@, soft_exclude_ids@, requirements@, k, mode);
        }
    } else {
        combinations = n_choose_k(candidates.len(), slot_count);
        if top_k > 0 {
            ranked = search_plain(
                &candidates,
                selected_ids,
                soft_exclude_ids,
                requirements,
                top_k,
                slot_count,
                mode,
            );
        }
    }
    let ghost best = entries(ranked@);
    let mut prepared: Prepared = nothing_to_search(
        candidates,
        Vec::new(),
        selected_ids,
        soft_exclude_ids,
        requirements,
    );
    prepared.combinations = combinations;
    proof {
        assert(prepared.views() == views);
        assert(is_top(best, top_k as nat, all));
        assert forall|i: int| 0 <= i < ranked@.len() implies combo_fits(
            (#[trigger] ranked@[i])@.combo,
            views,
            soft_exclude_ids@,
        ) by {
            assert(best[i] == ranked@[i]@);
            assert(all.contains(best[i]));
            assert(is_choice(best[i].combo, views.len() as int, k));
        }
    }
    Ok(assemble(&prepared, ranked, "cpu"))
}

/// Finds the best solutions.
///
/// `modules` holds the modules owned, of which those of the category `category` (of any where it is
/// `None` or "all") without an attribute of `hard_exclude_ids` are used, `slot_count` at a time.
/// Attributes of `soft_exclude_ids` do not count. The sums that are formed fit 32 bits. Where a value
/// is negative, every combination is looked at.
pub fn optimize(
    modules: &[Module],
    selected_ids: &[i32],
    category: Option<&str>,
    hard_exclude_ids: &[i32],
    soft_exclude_ids: &[i32],
    requirements: &[(i32, usize)],
    top_k: usize,
    slot_count: usize,
    mode: RankMode,
) -> (result: Result<OptimizeResult, String>)
    requires
        answerable(
            slice_views(modules@),
            selected_ids@,
            category_view(category),
            hard_exclude_ids@,
            soft_exclude_ids@,
            requirements@,
            slot_count as int,
        ),
        top_k >= 1 || refusal(
            selected_ids@,
            hard_exclude_ids@,
            soft_exclude_ids@,
            requirements@,
        ) is Some || ranked_combos(
            usable_modules(slice_views(modules@), category_view(category), hard_exclude_ids@),
            selected_ids@,
            soft_exclude_ids@,
            requirements@,
            slot_count as int,
            mode,
        ) == Set::<Entry>::empty(),
    ensures
        result is Ok <==> refusal(
            selected_ids@,
            hard_exclude_ids@,
            soft_exclude_ids@,
            requirements@,
        ) is None,
        result matches Err(message) ==> refusal(
            selected_ids@,
            hard_exclude_ids@,
            soft_exclude_ids@,
            requirements@,
        ) == Some(message@),
        result matches Ok(r) ==> {
            let candidates = usable_modules(
                slice_views(modules@),
                category_view(category),
                hard_exclude_ids@,
            );
            &&& is_optimum(
                r.solutions@,
                candidates,
                selected_ids@,
                soft_exclude_ids@,
                requirements@,
                top_k as nat,
                slot_count as int,
                mode,
            )
            &&& r.candidate_count == candidates.len()
            &&& r.combinations == reported_combinations(
                candidates,
                requirements@,
                slot_count as int,
            )
            &&& r.engine@ == "cpu"@
        },
{
    if !is_searchable(modules, category, hard_exclude_ids, slot_count) {
        return optimize_plain(
            modules,
            selected_ids,
            category,
            hard_exclude_ids,
            soft_exclude_ids,
            requirements,
            top_k,
            slot_count,
            mode,
        );
    }
    optimize_with_opts(
        modules,
        selected_ids,
        category,
        hard_exclude_ids,
        soft_exclude_ids,
        requirements,
        top_k,
        slot_count,
        mode,
        true,
        true,
    )
}

} // verus!
