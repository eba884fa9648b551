//! What every answer of the optimizer shows.

use crate::optimizer::accum::{key_of, RankMode};
use crate::optimizer::levels::{choose_count, level};
use crate::optimizer::model::{
    attr_total, attrs_at, category_text, listed_sum, listed_total, meets_levels, mods_at,
    module_score, module_views, part_sum, ranked_combos, value_sum, ModuleView, PartView,
};
use crate::optimizer::optimize::{is_optimum, lemma_hopeless, reported_combinations, shows};
use crate::optimizer::prepare::{has_attr, hopeless};
use crate::optimizer::ranking::{better, is_top, lex_lt, Entry};
use crate::optimizer::request::{bad_requirements, excluded, refusal};
use crate::optimizer::solution::{
    first_name, first_part_name, is_breakdown, is_solution, lemma_listed_sum_concat,
    lemma_part_sum_concat, lemma_rows_count, row_counts, part_has, row_first, row_of, AttrBreakdown,
    Solution,
};
use crate::optimizer::sums::count_where;
use crate::text::list_text;
use vstd::prelude::*;

verus! {

/// Sums add up: over parts that come one after the other, with a single part counting for its own
/// attribute only.
pub proof fn law_part_sums_add_up(a: Seq<PartView>, b: Seq<PartView>, p: PartView, id: i32)
    ensures
        part_sum(a + b, id) == part_sum(a, id) + part_sum(b, id),
        part_sum(seq![p], id) == if p.attr_id == id {
            p.value as int
        } else {
            0
        },
        part_sum(Seq::empty(), id) == 0,
{
    reveal_with_fuel(part_sum, 2);
    lemma_part_sum_concat(a, b, id);
    assert(seq![p].drop_last() =~= Seq::empty());
    assert(seq![p].last() == p);
}

/// Totals add up: over modules that come one after the other, with a single module counting for
/// what its parts hold.
pub proof fn law_totals_add_up(
    a: Seq<ModuleView>,
    b: Seq<ModuleView>,
    m: ModuleView,
    id: i32,
    ids: Seq<i32>,
    listed: bool,
)
    ensures
        attr_total(a + b, id) == attr_total(a, id) + attr_total(b, id),
        attr_total(seq![m], id) == part_sum(m.parts, id),
        attr_total(Seq::empty(), id) == 0,
        listed_total(a + b, ids, listed) == listed_total(a, ids, listed) + listed_total(
            b,
            ids,
            listed,
        ),
        listed_total(seq![m], ids, listed) == listed_sum(m.parts, ids, listed),
        value_sum(a + b) == value_sum(a) + value_sum(b),
    decreases b.len(),
{
    reveal_with_fuel(attr_total, 2);
    reveal_with_fuel(listed_total, 2);
    assert(seq![m].drop_last() =~= Seq::empty());
    assert(seq![m].last() == m);
    if b.len() == 0 {
        assert(a + b =~= a);
    } else {
        assert((a + b).drop_last() =~= a + b.drop_last());
        assert((a + b).last() == b.last());
        law_totals_add_up(a, b.drop_last(), m, id, ids, listed);
        law_totals_add_up(a, b.drop_last(), m, id, Seq::empty(), false);
    }
}

/// What counts and what is left out make up the sum of all values; where nothing is left out, all
/// values count.
pub proof fn law_values_split(mods: Seq<ModuleView>, soft: Seq<i32>)
    ensures
        listed_total(mods, soft, true) + listed_total(mods, soft, false) == value_sum(mods),
        soft.len() == 0 ==> listed_total(mods, soft, false) == value_sum(mods),
    decreases mods.len(),
{
    if mods.len() > 0 {
        law_values_split(mods.drop_last(), soft);
        lemma_parts_split(mods.last().parts, soft);
    }
    if soft.len() == 0 {
        assert(soft =~= Seq::empty());
    }
}

proof fn lemma_parts_split(parts: Seq<PartView>, soft: Seq<i32>)
    ensures
        listed_sum(parts, soft, true) + listed_sum(parts, soft, false) == listed_sum(
            parts,
            Seq::empty(),
            false,
        ),
    decreases parts.len(),
{
    if parts.len() > 0 {
        lemma_parts_split(parts.drop_last(), soft);
    }
}

/// A part counts with its value exactly where its attribute is (or is not) among `ids`.
pub proof fn law_listed_sums_add_up(
    a: Seq<PartView>,
    b: Seq<PartView>,
    p: PartView,
    ids: Seq<i32>,
    listed: bool,
)
    ensures
        listed_sum(a + b, ids, listed) == listed_sum(a, ids, listed) + listed_sum(b, ids, listed),
        listed_sum(seq![p], ids, listed) == if ids.contains(p.attr_id) == listed {
            p.value as int
        } else {
            0
        },
{
    reveal_with_fuel(listed_sum, 2);
    lemma_listed_sum_concat(a, b, ids, listed);
    assert(seq![p].drop_last() =~= Seq::empty());
    assert(seq![p].last() == p);
}

/// Counting positions is counting what stands there.
proof fn lemma_count_filter(
    rows: Seq<AttrBreakdown>,
    n: nat,
    f: spec_fn(int) -> bool,
    g: spec_fn(AttrBreakdown) -> bool,
)
    requires
        n <= rows.len(),
        forall|i: int| 0 <= i < n ==> #[trigger] f(i) == g(rows[i]),
    ensures
        count_where(n, f) == rows.take(n as int).filter(g).len(),
    decreases n,
{
    reveal(Seq::filter);
    if n > 0 {
        let m = (n - 1) as nat;
        lemma_count_filter(rows, m, f, g);
        assert(rows.take(n as int).drop_last() =~= rows.take(m as int));
        assert(rows.take(n as int).last() == rows[m as int]);
        assert(f(m as int) == g(rows[m as int]));
    }
}

/// A row counts at the levels from the one that `lo` reaches to the one that `hi` reaches exactly
/// where it is not left out, is a target where that is asked, and its value is at least `least` and
/// below `limit`.
proof fn lemma_row_filter(
    s: Solution,
    mods: Seq<ModuleView>,
    selected: Seq<i32>,
    soft: Seq<i32>,
    only_selected: bool,
    lo: int,
    hi: int,
    f: spec_fn(i32, int) -> bool,
    g: spec_fn(AttrBreakdown) -> bool,
)
    requires
        is_breakdown(s.breakdown@, mods, selected, soft),
        lo >= 1,
        forall|id: i32, lv: int| #[trigger]
            f(id, lv) == ((only_selected ==> selected.contains(id)) && lo <= lv <= hi),
        forall|r: AttrBreakdown| #[trigger]
            g(r) == (!r.soft_excluded && (only_selected ==> r.selected) && lo <= level(
                r.value as int,
            ) <= hi),
    ensures
        attrs_at(mods, soft, f).len() == s.breakdown@.filter(g).len(),
{
    let rows = s.breakdown@;
    let h = |i: int| row_counts(rows[i]@, only_selected, lo, hi);
    lemma_rows_count(rows, mods, selected, soft, only_selected, lo, hi, f);
    assert forall|i: int| 0 <= i < rows.len() implies #[trigger] h(i) == g(rows[i]) by {
        assert(rows[i]@ == row_of(mods, selected, soft, rows[i].attr_id));
    }
    lemma_count_filter(rows, rows.len(), h, g);
    assert(rows.take(rows.len() as int) =~= rows);
}

/// The counts of a solution can be read off its rows, of which those that are left out never
/// count: level 6 is a value of 20 or more, level 5 one of 16 to 19, and a target is there from a
/// value of 1 on.
pub proof fn law_counts_tell_rows(
    s: Solution,
    mods: Seq<ModuleView>,
    selected: Seq<i32>,
    soft: Seq<i32>,
)
    requires
        is_solution(s, mods, selected, soft),
    ensures
        s.lv6_count == s.breakdown@.filter(
            |r: AttrBreakdown| !r.soft_excluded && r.value >= 20,
        ).len(),
        s.lv5_count == s.breakdown@.filter(
            |r: AttrBreakdown| !r.soft_excluded && 16 <= r.value < 20,
        ).len(),
        s.selected_lv6 == s.breakdown@.filter(
            |r: AttrBreakdown| !r.soft_excluded && r.selected && r.value >= 20,
        ).len(),
        s.selected_present == s.breakdown@.filter(
            |r: AttrBreakdown| !r.soft_excluded && r.selected && r.value >= 1,
        ).len(),
{
    let f1 = |id: i32, lv: int| selected.contains(id) && lv >= 1;
    let g1 = |id: i32, lv: int| selected.contains(id) && 1 <= lv <= 6;
    assert(attrs_at(mods, soft, f1) =~= attrs_at(mods, soft, g1));
    lemma_row_filter(
        s,
        mods,
        selected,
        soft,
        true,
        1,
        6,
        g1,
        |r: AttrBreakdown| !r.soft_excluded && r.selected && r.value >= 1,
    );
    lemma_row_filter(
        s,
        mods,
        selected,
        soft,
        true,
        6,
        6,
        |id: i32, lv: int| selected.contains(id) && lv == 6,
        |r: AttrBreakdown| !r.soft_excluded && r.selected && r.value >= 20,
    );
    lemma_row_filter(
        s,
        mods,
        selected,
        soft,
        false,
        6,
        6,
        |id: i32, lv: int| lv == 6,
        |r: AttrBreakdown| !r.soft_excluded && r.value >= 20,
    );
    lemma_row_filter(
        s,
        mods,
        selected,
        soft,
        false,
        5,
        5,
        |id: i32, lv: int| lv == 5,
        |r: AttrBreakdown| !r.soft_excluded && 16 <= r.value < 20,
    );
}

/// Each attribute of the modules has one row, with its total over the modules and with the level
/// that this reaches; the row says whether it is a target and whether it is left out. The highest
/// level comes first, and of one level the highest value.
pub proof fn law_rows_tell_attributes(
    s: Solution,
    mods: Seq<ModuleView>,
    selected: Seq<i32>,
    soft: Seq<i32>,
    i: int,
    j: int,
)
    requires
        is_solution(s, mods, selected, soft),
        0 <= i < mods.len(),
        0 <= j < mods[i].parts.len(),
    ensures
        exists|x: int|
            0 <= x < s.breakdown@.len() && (#[trigger] s.breakdown@[x]).attr_id
                == mods[i].parts[j].attr_id && s.breakdown@[x].value == attr_total(
                mods,
                mods[i].parts[j].attr_id,
            ),
        forall|x: int|
            0 <= x < s.breakdown@.len() ==> {
                let r = #[trigger] s.breakdown@[x];
                &&& r.value == attr_total(mods, r.attr_id)
                &&& r.selected <==> selected.contains(r.attr_id)
                &&& r.soft_excluded <==> soft.contains(r.attr_id)
                &&& r.level <= 6
                &&& r.level >= 1 <==> r.value >= 1
                &&& r.level >= 2 <==> r.value >= 4
                &&& r.level >= 3 <==> r.value >= 8
                &&& r.level >= 4 <==> r.value >= 12
                &&& r.level >= 5 <==> r.value >= 16
                &&& r.level >= 6 <==> r.value >= 20
                &&& has_attr(mods, r.attr_id)
            },
        forall|x: int, y: int|
            0 <= x < y < s.breakdown@.len() ==> {
                let (a, b) = (#[trigger] s.breakdown@[x], #[trigger] s.breakdown@[y]);
                &&& a.attr_id != b.attr_id
                &&& a.level >= b.level
                &&& a.value >= b.value
                &&& a.value == b.value ==> (b.selected ==> a.selected)
            },
{
    let id = mods[i].parts[j].attr_id;
    let rows = s.breakdown@;
    assert(has_attr(mods, id));
    assert forall|x: int| 0 <= x < rows.len() implies {
        let r = #[trigger] rows[x];
        &&& r.value == attr_total(mods, r.attr_id)
        &&& r.level == level(r.value as int)
        &&& r.selected == selected.contains(r.attr_id)
        &&& r.soft_excluded == soft.contains(r.attr_id)
        &&& has_attr(mods, r.attr_id)
    } by {
        assert(rows[x]@ == row_of(mods, selected, soft, rows[x].attr_id));
        assert(rows[x].attr_id == rows[x].attr_id);
    }
    assert forall|x: int, y: int| 0 <= x < y < rows.len() implies {
        let (a, b) = (#[trigger] rows[x], #[trigger] rows[y]);
        &&& a.attr_id != b.attr_id
        &&& a.level >= b.level
        &&& a.value >= b.value
        &&& a.value == b.value ==> (b.selected ==> a.selected)
    } by {
        assert(rows[x].attr_id != rows[y].attr_id);
        assert(row_first(rows[x]@, rows[y]@));
        assert(rows[x].level == level(rows[x].value as int));
        assert(rows[y].level == level(rows[y].value as int));
    }
    let x = choose|x: int| 0 <= x < rows.len() && (#[trigger] rows[x]).attr_id == id;
    assert(rows[x].value == attr_total(mods, id));
}

/// What a solution sums up: the values of all parts, and the values of the parts that are not left
/// out.
pub proof fn law_solution_sums(
    s: Solution,
    mods: Seq<ModuleView>,
    selected: Seq<i32>,
    soft: Seq<i32>,
)
    requires
        is_solution(s, mods, selected, soft),
    ensures
        s.link_effect == value_sum(mods),
        s.eval_link == value_sum(mods) - listed_total(mods, soft, true),
        module_views(s.modules@) == mods,
{
    law_values_split(mods, soft);
}

/// The values of a solution that are left out.
pub open spec fn left_out(s: Solution) -> int {
    s.link_effect - s.eval_link
}

/// Whether `a` is at least as good as `b`: the first number in which they differ decides.
pub open spec fn not_behind(a: Solution, b: Solution, mode: RankMode) -> bool {
    if a.selected_present != b.selected_present {
        a.selected_present > b.selected_present
    } else if a.selected_lv6 != b.selected_lv6 {
        a.selected_lv6 > b.selected_lv6
    } else if a.lv6_count != b.lv6_count {
        a.lv6_count > b.lv6_count
    } else if mode is Link && a.eval_link != b.eval_link {
        a.eval_link > b.eval_link
    } else if a.lv5_count != b.lv5_count {
        a.lv5_count > b.lv5_count
    } else if a.eval_link != b.eval_link {
        a.eval_link > b.eval_link
    } else {
        left_out(a) <= left_out(b)
    }
}

/// Keys of six numbers compare by the first in which they differ.
proof fn lemma_six(x: Seq<int>, y: Seq<int>)
    requires
        x.len() == 6,
        y.len() == 6,
    ensures
        lex_lt(x, y) == (if x[0] != y[0] {
            x[0] < y[0]
        } else if x[1] != y[1] {
            x[1] < y[1]
        } else if x[2] != y[2] {
            x[2] < y[2]
        } else if x[3] != y[3] {
            x[3] < y[3]
        } else if x[4] != y[4] {
            x[4] < y[4]
        } else {
            x[5] < y[5]
        }),
{
    let (a1, b1) = (x.drop_first(), y.drop_first());
    let (a2, b2) = (a1.drop_first(), b1.drop_first());
    let (a3, b3) = (a2.drop_first(), b2.drop_first());
    let (a4, b4) = (a3.drop_first(), b3.drop_first());
    let (a5, b5) = (a4.drop_first(), b4.drop_first());
    let (a6, b6) = (a5.drop_first(), b5.drop_first());
    assert(!lex_lt(a6, b6));
    assert(lex_lt(a5, b5) == (x[5] < y[5]));
    assert(lex_lt(a4, b4) == if x[4] != y[4] {
        x[4] < y[4]
    } else {
        x[5] < y[5]
    });
    assert(lex_lt(a3, b3) == if x[3] != y[3] {
        x[3] < y[3]
    } else {
        lex_lt(a4, b4)
    });
    assert(lex_lt(a2, b2) == if x[2] != y[2] {
        x[2] < y[2]
    } else {
        lex_lt(a3, b3)
    });
    assert(lex_lt(a1, b1) == if x[1] != y[1] {
        x[1] < y[1]
    } else {
        lex_lt(a2, b2)
    });
}

proof fn lemma_better_is_not_behind(
    a: Solution,
    b: Solution,
    x: Entry,
    y: Entry,
    candidates: Seq<ModuleView>,
    selected: Seq<i32>,
    soft: Seq<i32>,
    mode: RankMode,
)
    requires
        is_solution(a, mods_at(candidates, x.combo), selected, soft),
        is_solution(b, mods_at(candidates, y.combo), selected, soft),
        x.key == key_of(module_score(mods_at(candidates, x.combo), selected, soft), mode),
        y.key == key_of(module_score(mods_at(candidates, y.combo), selected, soft), mode),
        better(x, y),
    ensures
        not_behind(a, b, mode),
{
    law_values_split(mods_at(candidates, x.combo), soft);
    law_values_split(mods_at(candidates, y.combo), soft);
    lemma_six(y.key, x.key);
}

/// No allowed combination is overlooked. Take any combination of `k` usable modules that reaches
/// the required levels, and `t`, what it shows: it is among the solutions, or there are as many as
/// were asked for and each is at least as good. The solutions come in that order, and there are
/// never more than were asked for.
pub proof fn law_solutions_are_the_best(
    solutions: Seq<Solution>,
    candidates: Seq<ModuleView>,
    selected: Seq<i32>,
    soft: Seq<i32>,
    requirements: Seq<(i32, usize)>,
    top_k: nat,
    k: int,
    mode: RankMode,
    c: Seq<int>,
    t: Solution,
)
    requires
        is_optimum(solutions, candidates, selected, soft, requirements, top_k, k, mode),
        k >= 1,
        c.len() == k,
        forall|i: int, j: int| 0 <= i < j < c.len() ==> c[i] < c[j],
        forall|i: int| 0 <= i < c.len() ==> 0 <= #[trigger] c[i] < candidates.len(),
        meets_levels(mods_at(candidates, c), requirements),
        is_solution(t, mods_at(candidates, c), selected, soft),
    ensures
        solutions.len() <= top_k,
        (exists|i: int|
            0 <= i < solutions.len() && module_views((#[trigger] solutions[i]).modules@)
                == mods_at(candidates, c)) || (solutions.len() == top_k && forall|i: int|
            0 <= i < solutions.len() ==> not_behind(#[trigger] solutions[i], t, mode)),
        forall|i: int, j: int|
            0 <= i < j < solutions.len() ==> not_behind(
                #[trigger] solutions[i],
                #[trigger] solutions[j],
                mode,
            ),
{
    let all = ranked_combos(candidates, selected, soft, requirements, k, mode);
    let best = choose|best: Seq<Entry>| #[trigger]
        is_top(best, top_k, all) && shows(solutions, best, candidates, selected, soft);
    let e = Entry {
        key: key_of(module_score(mods_at(candidates, c), selected, soft), mode),
        combo: c,
    };
    assert(all.contains(e));
    assert forall|i: int, j: int| 0 <= i < j < solutions.len() implies not_behind(
        #[trigger] solutions[i],
        #[trigger] solutions[j],
        mode,
    ) by {
        assert(all.contains(best[i]) && all.contains(best[j]));
        assert(better(best[i], best[j]));
        lemma_better_is_not_behind(
            solutions[i],
            solutions[j],
            best[i],
            best[j],
            candidates,
            selected,
            soft,
            mode,
        );
    }
    if best.contains(e) {
        let i = choose|i: int| 0 <= i < best.len() && best[i] == e;
        assert(is_solution(solutions[i], mods_at(candidates, best[i].combo), selected, soft));
    } else {
        assert forall|i: int| 0 <= i < solutions.len() implies not_behind(
            #[trigger] solutions[i],
            t,
            mode,
        ) by {
            assert(all.contains(best[i]));
            assert(better(best[i], e));
            lemma_better_is_not_behind(
                solutions[i],
                t,
                best[i],
                e,
                candidates,
                selected,
                soft,
                mode,
            );
        }
    }
}

/// Each solution is a combination of `k` modules that may be used, none of them twice, that reaches
/// the required levels; no two solutions are the same combination.
pub proof fn law_solutions_are_combinations(
    solutions: Seq<Solution>,
    candidates: Seq<ModuleView>,
    selected: Seq<i32>,
    soft: Seq<i32>,
    requirements: Seq<(i32, usize)>,
    top_k: nat,
    k: int,
    mode: RankMode,
) -> (combos: Seq<Seq<int>>)
    requires
        is_optimum(solutions, candidates, selected, soft, requirements, top_k, k, mode),
    ensures
        combos.len() == solutions.len(),
        combos.no_duplicates(),
        forall|i: int|
            0 <= i < combos.len() ==> {
                let c = #[trigger] combos[i];
                &&& c.len() == k
                &&& forall|x: int, y: int| 0 <= x < y < c.len() ==> c[x] < c[y]
                &&& forall|x: int| 0 <= x < c.len() ==> 0 <= #[trigger] c[x] < candidates.len()
                &&& module_views(solutions[i].modules@) == mods_at(candidates, c)
                &&& meets_levels(mods_at(candidates, c), requirements)
            },
{
    let all = ranked_combos(candidates, selected, soft, requirements, k, mode);
    let best = choose|best: Seq<Entry>| #[trigger]
        is_top(best, top_k, all) && shows(solutions, best, candidates, selected, soft);
    let combos = Seq::new(best.len(), |i: int| best[i].combo);
    assert forall|i: int| 0 <= i < combos.len() implies {
        let c = #[trigger] combos[i];
        &&& c.len() == k
        &&& forall|x: int, y: int| 0 <= x < y < c.len() ==> c[x] < c[y]
        &&& forall|x: int| 0 <= x < c.len() ==> 0 <= #[trigger] c[x] < candidates.len()
        &&& module_views(solutions[i].modules@) == mods_at(candidates, c)
        &&& meets_levels(mods_at(candidates, c), requirements)
    } by {
        assert(all.contains(best[i]));
        assert(is_solution(solutions[i], mods_at(candidates, best[i].combo), selected, soft));
    }
    assert forall|i: int, j: int| 0 <= i < combos.len() && 0 <= j < combos.len() && i
        != j implies combos[i] != combos[j] by {
        assert(all.contains(best[i]) && all.contains(best[j]));
        if combos[i] == combos[j] {
            let (x, y) = if i < j {
                (best[i], best[j])
            } else {
                (best[j], best[i])
            };
            assert(better(x, y));
            assert(x.key == y.key);
            lemma_six(x.key, y.key);
            lemma_irreflexive(x.combo);
        }
    }
    combos
}

proof fn lemma_irreflexive(c: Seq<int>)
    ensures
        !lex_lt(c, c),
    decreases c.len(),
{
    if c.len() > 0 {
        lemma_irreflexive(c.drop_first());
    }
}

/// A request is refused exactly where it contradicts itself: an attribute is a target, or has a
/// required level above 0, and is ruled out or left out at the same time.
pub proof fn law_contradictions_are_refused(
    selected: Seq<i32>,
    hard: Seq<i32>,
    soft: Seq<i32>,
    requirements: Seq<(i32, usize)>,
)
    ensures
        refusal(selected, hard, soft, requirements) is Some <==> {
            ||| exists|id: i32| #[trigger]
                selected.contains(id) && (hard.contains(id) || soft.contains(id))
            ||| exists|r: (i32, usize)| #[trigger]
                requirements.contains(r) && r.1 > 0 && (hard.contains(r.0) || soft.contains(r.0))
        },
{
    let f = |id: i32| excluded(id, hard, soft);
    let g = |r: (i32, usize)| r.1 > 0 && excluded(r.0, hard, soft);
    let bad = selected.filter(f);
    let bad_req = requirements.filter(g);
    assert(bad_requirements(requirements, hard, soft).len() == bad_req.len());
    if bad.len() > 0 {
        selected.lemma_filter_pred(f, 0);
        assert(bad.contains(bad[0]));
        selected.lemma_filter_contains_rev(f, bad[0]);
        assert(selected.contains(bad[0]));
    }
    if bad_req.len() > 0 {
        requirements.lemma_filter_pred(g, 0);
        assert(bad_req.contains(bad_req[0]));
        requirements.lemma_filter_contains_rev(g, bad_req[0]);
        assert(requirements.contains(bad_req[0]));
    }
    if exists|id: i32| #[trigger]
        selected.contains(id) && (hard.contains(id) || soft.contains(id)) {
        let id = choose|id: i32| #[trigger]
            selected.contains(id) && (hard.contains(id) || soft.contains(id));
        let i = choose|i: int| 0 <= i < selected.len() && selected[i] == id;
        selected.filter_lemma(f);
        assert(f(selected[i]));
        assert(bad.contains(selected[i]));
    }
    if exists|r: (i32, usize)| #[trigger]
        requirements.contains(r) && r.1 > 0 && (hard.contains(r.0) || soft.contains(r.0)) {
        let r = choose|r: (i32, usize)| #[trigger]
            requirements.contains(r) && r.1 > 0 && (hard.contains(r.0) || soft.contains(r.0));
        let i = choose|i: int| 0 <= i < requirements.len() && requirements[i] == r;
        requirements.filter_lemma(g);
        assert(g(requirements[i]));
        assert(bad_req.contains(requirements[i]));
    }
}

/// No combinations are reported only where there are none: without slots, with fewer modules than
/// slots, or with a required attribute that no module has. Else as many are reported as there are
/// ways to choose, where these can be counted in 64 bits.
pub proof fn law_nothing_to_search(
    candidates: Seq<ModuleView>,
    selected: Seq<i32>,
    soft: Seq<i32>,
    requirements: Seq<(i32, usize)>,
    k: int,
    mode: RankMode,
)
    requires
        k >= 0,
    ensures
        hopeless(candidates, requirements, k) ==> ranked_combos(
            candidates,
            selected,
            soft,
            requirements,
            k,
            mode,
        ) == Set::<Entry>::empty() && reported_combinations(candidates, requirements, k) == 0,
        k == 0 || candidates.len() < k ==> reported_combinations(candidates, requirements, k) == 0,
        1 <= k <= candidates.len() && (forall|j: int|
            0 <= j < requirements.len() && (#[trigger] requirements[j]).1 > 0 ==> has_attr(
                candidates,
                requirements[j].0,
            )) ==> !hopeless(candidates, requirements, k),
        !hopeless(candidates, requirements, k) && choose_count(candidates.len(), k as nat)
            <= u64::MAX ==> reported_combinations(candidates, requirements, k) == choose_count(
            candidates.len(),
            k as nat,
        ),
{
    if hopeless(candidates, requirements, k) {
        lemma_hopeless(candidates, selected, soft, requirements, k, mode);
    }
}

/// The hundreds digit tells the category: 1 is attack, 2 support, 3 guardian; all other module
/// types, and negative numbers, are unknown.
pub proof fn law_categories(config_id: i32, group: i32, digit: i32, kind: i32)
    requires
        0 <= group < 1_000_000,
        0 <= digit < 10,
        0 <= kind < 100,
        config_id == 1000 * group + 100 * digit + kind,
    ensures
        category_text(config_id) == (if digit == 1 {
            "attack"@
        } else if digit == 2 {
            "support"@
        } else if digit == 3 {
            "guardian"@
        } else {
            "unknown"@
        }),
        category_text((-1 - config_id) as i32) == "unknown"@,
{
    assert(config_id / 100 == 10 * group + digit);
}

proof fn lemma_first_part_name(parts: Seq<PartView>, id: i32, y: int)
    requires
        0 <= y < parts.len(),
        parts[y].attr_id == id,
        forall|j: int| 0 <= j < y ==> (#[trigger] parts[j]).attr_id != id,
    ensures
        first_part_name(parts, id) == parts[y].attr_name,
    decreases y,
{
    if y > 0 {
        assert(parts[0].attr_id != id);
        lemma_first_part_name(parts.drop_first(), id, y - 1);
    }
}

/// A row is named as the first part with its attribute is, in the first module that has one.
pub proof fn law_rows_are_named(mods: Seq<ModuleView>, id: i32, x: int, y: int)
    requires
        0 <= x < mods.len(),
        0 <= y < mods[x].parts.len(),
        mods[x].parts[y].attr_id == id,
        forall|j: int| 0 <= j < y ==> (#[trigger] mods[x].parts[j]).attr_id != id,
        forall|i: int, j: int|
            0 <= i < x && 0 <= j < mods[i].parts.len() ==> (
            #[trigger] mods[i].parts[j]).attr_id != id,
    ensures
        first_name(mods, id) == mods[x].parts[y].attr_name,
    decreases x,
{
    if x > 0 {
        let rest = mods.drop_first();
        assert forall|i: int, j: int| 0 <= i < x - 1 && 0 <= j < rest[i].parts.len() implies (
        #[trigger] rest[i].parts[j]).attr_id != id by {
            assert(mods[i + 1].parts[j].attr_id != id);
        }
        assert(!part_has(mods[0].parts, id));
        law_rows_are_named(rest, id, x - 1, y);
    } else {
        lemma_first_part_name(mods[0].parts, id, y);
    }
}

/// A refusal names the attributes at fault in the order in which they were given: the targets where
/// there are any, else those with a required level.
pub proof fn law_refusals_name_attributes(
    selected: Seq<i32>,
    hard: Seq<i32>,
    soft: Seq<i32>,
    requirements: Seq<(i32, usize)>,
)
    ensures
        ({
            let targets = selected.filter(|id: i32| hard.contains(id) || soft.contains(id));
            let required = requirements.filter(
                |r: (i32, usize)| r.1 > 0 && (hard.contains(r.0) || soft.contains(r.0)),
            );
            let said = refusal(selected, hard, soft, requirements);
            &&& targets.len() > 0 ==> said == Some(
                "目標属性と除外属性が重複しています（属性ID: "@ + list_text(targets)
                    + "）。同じ属性を目標と除外の両方に指定することはできません。"@,
            )
            &&& targets.len() == 0 && required.len() > 0 ==> said == Some(
                "下限Lv指定と除外属性が重複しています（属性ID: "@ + list_text(
                    required.map_values(|r: (i32, usize)| r.0),
                ) + "）。除外指定した属性に下限Lvは設定できません。"@,
            )
            &&& targets.len() == 0 && required.len() == 0 ==> said is None
        }),
{
    assert((|id: i32| hard.contains(id) || soft.contains(id)) =~= (|id: i32|
        excluded(id, hard, soft)));
    assert((|r: (i32, usize)| r.1 > 0 && (hard.contains(r.0) || soft.contains(r.0))) =~= (|
        r: (i32, usize),
    | r.1 > 0 && excluded(r.0, hard, soft)));
}

/// Whether `a` comes before `b`: at the first place in which they differ, `a` has the smaller number.
pub open spec fn comes_first(a: Seq<int>, b: Seq<int>) -> bool {
    exists|p: int|
        0 <= p < a.len() && p < b.len() && #[trigger] a[p] < b[p] && forall|x: int|
            0 <= x < p ==> a[x] == b[x]
}

proof fn lemma_comes_first(a: Seq<int>, b: Seq<int>)
    requires
        lex_lt(a, b),
        a.len() == b.len(),
    ensures
        comes_first(a, b),
    decreases a.len(),
{
    if a[0] != b[0] {
        assert(a[0] < b[0]);
    } else {
        let (c, d) = (a.drop_first(), b.drop_first());
        lemma_comes_first(c, d);
        let p = choose|p: int|
            0 <= p < c.len() && p < d.len() && #[trigger] c[p] < d[p] && forall|x: int|
                0 <= x < p ==> c[x] == d[x];
        assert(a[p + 1] < b[p + 1]);
        assert forall|x: int| 0 <= x < p + 1 implies a[x] == b[x] by {
            if x > 0 {
                assert(c[x - 1] == d[x - 1]);
            }
        }
    }
}

/// Of two solutions that are equally good, the one whose modules come first among those that may be
/// used stands first.
pub proof fn law_ties_keep_the_order_of_modules(
    solutions: Seq<Solution>,
    candidates: Seq<ModuleView>,
    selected: Seq<i32>,
    soft: Seq<i32>,
    requirements: Seq<(i32, usize)>,
    top_k: nat,
    k: int,
    mode: RankMode,
    i: int,
    j: int,
) -> (pair: (Seq<int>, Seq<int>))
    requires
        is_optimum(solutions, candidates, selected, soft, requirements, top_k, k, mode),
        0 <= i < j < solutions.len(),
        not_behind(solutions[j], solutions[i], mode),
    ensures
        module_views(solutions[i].modules@) == mods_at(candidates, pair.0),
        module_views(solutions[j].modules@) == mods_at(candidates, pair.1),
        comes_first(pair.0, pair.1),
{
    let all = ranked_combos(candidates, selected, soft, requirements, k, mode);
    let best = choose|best: Seq<Entry>| #[trigger]
        is_top(best, top_k, all) && shows(solutions, best, candidates, selected, soft);
    let (x, y) = (best[i], best[j]);
    assert(all.contains(x) && all.contains(y));
    assert(better(x, y));
    assert(is_solution(solutions[i], mods_at(candidates, x.combo), selected, soft));
    assert(is_solution(solutions[j], mods_at(candidates, y.combo), selected, soft));
    law_values_split(mods_at(candidates, x.combo), soft);
    law_values_split(mods_at(candidates, y.combo), soft);
    lemma_six(y.key, x.key);
    assert(x.key == y.key && lex_lt(x.combo, y.combo));
    lemma_comes_first(x.combo, y.combo);
    (x.combo, y.combo)
}

} // verus!
