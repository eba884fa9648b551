//! With or without a graphics device, a request is answered the same.

use crate::optimizer::accum::RankMode;
use crate::optimizer::gpu::{finish_gpu, shows_best_rows};
use crate::optimizer::gpu_run::{
    admissible, device_ready, row_entries, rows_complete, rows_in_range, rows_sound,
};
use crate::optimizer::levels::choose_count;
use crate::optimizer::model::{
    mods_at, module_views, ranked_combos, usable_modules, Module, ModuleView,
};
use crate::optimizer::optimize::{
    answerable, is_optimum, optimize, reported_combinations, shows, OptimizeResult,
};
use crate::optimizer::prepare::{category_view, hopeless, slice_views, Prepared};
use crate::optimizer::ranking::{is_top, law_top_is_unique, Entry};
use crate::optimizer::request::refusal;
use crate::optimizer::solution::{is_solution, Solution};
use crate::optimizer::space::SearchSpace;
use vstd::prelude::*;

verus! {

/// What is asked for.
pub struct Question {
    pub modules: Seq<ModuleView>,
    pub selected: Seq<i32>,
    pub category: Option<Seq<char>>,
    pub hard: Seq<i32>,
    pub soft: Seq<i32>,
    pub requirements: Seq<(i32, usize)>,
    pub top_k: nat,
    pub k: int,
    pub mode: RankMode,
}

impl Question {
    /// The modules that may be used.
    pub open spec fn candidates(self) -> Seq<ModuleView> {
        usable_modules(self.modules, self.category, self.hard)
    }

    /// Why the question is not answered.
    pub open spec fn refused(self) -> Option<Seq<char>> {
        refusal(self.selected, self.hard, self.soft, self.requirements)
    }
}

/// Whether `result` answers a question: with the best solutions, or with the reason of a refusal.
pub open spec fn is_answer(result: Result<OptimizeResult, String>, q: Question) -> bool {
    match q.refused() {
        Some(reason) => result is Err && result->Err_0@ == reason,
        None => result is Ok && is_optimum(
            result->Ok_0.solutions@,
            q.candidates(),
            q.selected,
            q.soft,
            q.requirements,
            q.top_k,
            q.k,
            q.mode,
        ) && result->Ok_0.candidate_count == q.candidates().len() && result->Ok_0.combinations
            == reported_combinations(q.candidates(), q.requirements, q.k),
    }
}

/// Whether two solutions show the same modules with the same numbers.
pub open spec fn same_solution(a: Solution, b: Solution) -> bool {
    &&& module_views(a.modules@) == module_views(b.modules@)
    &&& a.link_effect == b.link_effect
    &&& a.eval_link == b.eval_link
    &&& a.lv6_count == b.lv6_count
    &&& a.lv5_count == b.lv5_count
    &&& a.selected_lv6 == b.selected_lv6
    &&& a.selected_present == b.selected_present
}

/// Whether two results are the same in everything but the engine.
pub open spec fn agree(
    a: Result<OptimizeResult, String>,
    b: Result<OptimizeResult, String>,
) -> bool {
    match (a, b) {
        (Ok(x), Ok(y)) => {
            &&& x.candidate_count == y.candidate_count
            &&& x.combinations == y.combinations
            &&& x.solutions@.len() == y.solutions@.len()
            &&& forall|i: int|
                0 <= i < x.solutions@.len() ==> same_solution(
                    #[trigger] x.solutions@[i],
                    #[trigger] y.solutions@[i],
                )
        },
        (Err(x), Err(y)) => x@ == y@,
        _ => false,
    }
}

/// Whatever engine answered a question, and with whatever pruning, the answers agree: the same
/// refusal, or the same solutions rank by rank.
pub proof fn law_engines_agree(
    a: Result<OptimizeResult, String>,
    b: Result<OptimizeResult, String>,
    q: Question,
)
    requires
        is_answer(a, q),
        is_answer(b, q),
    ensures
        agree(a, b),
{
    if q.refused() is None {
        let x = a->Ok_0;
        let y = b->Ok_0;
        let all = ranked_combos(
            q.candidates(),
            q.selected,
            q.soft,
            q.requirements,
            q.k,
            q.mode,
        );
        let p = choose|best: Seq<Entry>| #[trigger]
            is_top(best, q.top_k, all) && shows(
                x.solutions@,
                best,
                q.candidates(),
                q.selected,
                q.soft,
            );
        let r = choose|best: Seq<Entry>| #[trigger]
            is_top(best, q.top_k, all) && shows(
                y.solutions@,
                best,
                q.candidates(),
                q.selected,
                q.soft,
            );
        law_top_is_unique(p, r, q.top_k, all);
        assert forall|i: int| 0 <= i < x.solutions@.len() implies same_solution(
            #[trigger] x.solutions@[i],
            #[trigger] y.solutions@[i],
        ) by {
            let mods = mods_at(q.candidates(), p[i].combo);
            assert(is_solution(x.solutions@[i], mods, q.selected, q.soft));
            assert(is_solution(y.solutions@[i], mods, q.selected, q.soft));
        }
    }
}

/// Whether `prepared` is the question put into search order.
pub open spec fn prepares(prepared: Prepared, q: Question) -> bool {
    &&& prepared.views() == q.candidates()
    &&& prepared.candidate_count == prepared.views().len()
    &&& prepared.selected_ids@ == q.selected
    &&& prepared.soft_exclude_ids@ == q.soft
    &&& prepared.requirements@ == q.requirements
    &&& prepared.trivially_empty == hopeless(prepared.views(), q.requirements, q.k)
    &&& prepared.combinations == if prepared.trivially_empty {
        0int
    } else {
        choose_count(prepared.views().len(), q.k as nat) as int % 0x1_0000_0000_0000_0000
    }
    &&& prepared.faithful()
    &&& prepared.complete()
}

/// Whether the device handed back what it was asked for: each choice that reaches the required
/// levels and an admissible threshold, once and nothing else.
pub open spec fn kept_its_word(
    space: SearchSpace,
    rows: Seq<u32>,
    top_k: nat,
    k: int,
    mode: RankMode,
) -> bool {
    &&& rows_sound(space, rows, k)
    &&& exists|threshold: (u32, u32)| #[trigger]
        admissible(space, top_k, k, mode, threshold) && rows_complete(
            space,
            rows,
            k,
            mode,
            threshold,
        )
}

/// Answers a request with what the device handed back, or without the device where it handed back
/// nothing (`None`) or what cannot be read. No failure of the device shows.
pub fn settle_gpu(
    modules: &[Module],
    selected_ids: &[i32],
    category: Option<&str>,
    hard_exclude_ids: &[i32],
    soft_exclude_ids: &[i32],
    requirements: &[(i32, usize)],
    top_k: usize,
    slot_count: usize,
    mode: RankMode,
    prepared: &Prepared,
    rows: Option<Vec<u32>>,
) -> (result: Result<OptimizeResult, String>)
    requires
        answerable(
            slice_views(modules@),
            selected_ids@,
            category_view(category),
            hard_exclude_ids@,
            soft_exclude_ids@,
            requirements@,
            slot_count as int,
        ),
        top_k >= 1,
        refusal(selected_ids@, hard_exclude_ids@, soft_exclude_ids@, requirements@) is None,
        prepares(
            *prepared,
            Question {
                modules: slice_views(modules@),
                selected: selected_ids@,
                category: category_view(category),
                hard: hard_exclude_ids@,
                soft: soft_exclude_ids@,
                requirements: requirements@,
                top_k: top_k as nat,
                k: slot_count as int,
                mode,
            },
        ),
        rows is Some ==> !prepared.trivially_empty && device_ready(
            prepared.space,
            top_k as nat,
            slot_count as int,
            mode,
        ),
    ensures
        ({
            let q = Question {
                modules: slice_views(modules@),
                selected: selected_ids@,
                category: category_view(category),
                hard: hard_exclude_ids@,
                soft: soft_exclude_ids@,
                requirements: requirements@,
                top_k: top_k as nat,
                k: slot_count as int,
                mode,
            };
            let readable = rows is Some && rows_in_range(prepared.space, rows->0@, q.k);
            &&& result is Ok
            &&& result->Ok_0.candidate_count == q.candidates().len()
            &&& result->Ok_0.combinations == reported_combinations(
                q.candidates(),
                q.requirements,
                q.k,
            )
            &&& result->Ok_0.engine@ == if readable {
                "gpu"@
            } else {
                "cpu"@
            }
            &&& readable ==> shows_best_rows(
                result->Ok_0.solutions@,
                *prepared,
                row_entries(prepared.space, rows->0@, q.k, mode),
                q.top_k,
            )
            &&& !readable || kept_its_word(prepared.space, rows->0@, q.top_k, q.k, mode)
                ==> is_answer(result, q)
        }),
{
    if let Some(combos) = rows {
        if let Ok(result) = finish_gpu(prepared, combos.as_slice(), top_k, slot_count, mode) {
            return Ok(result);
        }
    }
    optimize(
        modules,
        selected_ids,
        category,
        hard_exclude_ids,
        soft_exclude_ids,
        requirements,
        top_k,
        slot_count,
        mode,
    )
}

} // verus!
