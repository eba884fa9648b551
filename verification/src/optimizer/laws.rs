//! What holds of every search.

use crate::optimizer::accum::{key_of, RankMode, Score};
use crate::optimizer::levels::level;
use crate::optimizer::model::{
    attr_total, attrs_at, listed_sum, listed_total, meets_levels, mods_at, module_score, part_sum,
    ranked_combos, usable, usable_modules, ModuleView, PartView,
};
use crate::optimizer::ranking::{
    better, is_top, law_top_is_unique, lex_lt, Entry,
};
use vstd::prelude::*;

verus! {

/// What counts comes in order: targets that are there at all, targets at level 6, attributes at
/// level 6. A combination that is ahead in one of these, and not behind in one before it, ranks
/// first.
pub proof fn law_priorities(a: Score, b: Score, mode: RankMode)
    ensures
        a.present > b.present ==> lex_lt(key_of(b, mode), key_of(a, mode)),
        a.present == b.present && a.sel6 > b.sel6 ==> lex_lt(key_of(b, mode), key_of(a, mode)),
        a.present == b.present && a.sel6 == b.sel6 && a.lv6 > b.lv6 ==> lex_lt(
            key_of(b, mode),
            key_of(a, mode),
        ),
{
    let x = key_of(b, mode);
    let y = key_of(a, mode);
    assert(x.drop_first()[0] == x[1] && y.drop_first()[0] == y[1]);
    assert(x.drop_first().drop_first()[0] == x[2] && y.drop_first().drop_first()[0] == y[2]);
    reveal_with_fuel(lex_lt, 4);
}

/// After them, one way of ranking looks at the sum of values before the attributes at level 5, the
/// other the other way round; values that are left out decide last, fewer of them first.
pub proof fn law_later_priorities(a: Score, b: Score)
    requires
        a.present == b.present,
        a.sel6 == b.sel6,
        a.lv6 == b.lv6,
    ensures
        a.link > b.link ==> lex_lt(key_of(b, RankMode::Link), key_of(a, RankMode::Link)),
        a.link == b.link && a.lv5 > b.lv5 ==> lex_lt(
            key_of(b, RankMode::Link),
            key_of(a, RankMode::Link),
        ),
        a.lv5 > b.lv5 ==> lex_lt(key_of(b, RankMode::Lv5), key_of(a, RankMode::Lv5)),
        a.lv5 == b.lv5 && a.link > b.link ==> lex_lt(
            key_of(b, RankMode::Lv5),
            key_of(a, RankMode::Lv5),
        ),
        a.lv5 == b.lv5 && a.link == b.link && a.excl < b.excl ==> lex_lt(
            key_of(b, RankMode::Link),
            key_of(a, RankMode::Link),
        ) && lex_lt(key_of(b, RankMode::Lv5), key_of(a, RankMode::Lv5)),
{
    lemma_last_three(key_of(b, RankMode::Link), key_of(a, RankMode::Link));
    lemma_last_three(key_of(b, RankMode::Lv5), key_of(a, RankMode::Lv5));
}

/// Keys whose first three numbers agree.
proof fn lemma_last_three(x: Seq<int>, y: Seq<int>)
    requires
        x.len() == 6,
        y.len() == 6,
        x[0] == y[0] && x[1] == y[1] && x[2] == y[2],
    ensures
        lex_lt(x, y) == (x[3] < y[3] || (x[3] == y[3] && (x[4] < y[4] || (x[4] == y[4] && x[5]
            < y[5])))),
{
    let (a1, b1) = (x.drop_first(), y.drop_first());
    let (a2, b2) = (a1.drop_first(), b1.drop_first());
    let (a3, b3) = (a2.drop_first(), b2.drop_first());
    let (a4, b4) = (a3.drop_first(), b3.drop_first());
    let (a5, b5) = (a4.drop_first(), b4.drop_first());
    let (a6, b6) = (a5.drop_first(), b5.drop_first());
    assert(!lex_lt(a6, b6));
    assert(lex_lt(a5, b5) == (x[5] < y[5]));
    assert(lex_lt(a4, b4) == (x[4] < y[4] || (x[4] == y[4] && x[5] < y[5])));
    assert(lex_lt(x, y) == lex_lt(a1, b1));
    assert(lex_lt(a1, b1) == lex_lt(a2, b2));
    assert(lex_lt(a2, b2) == lex_lt(a3, b3));
}

/// Modules without the attribute `id`.
pub open spec fn lacks(mods: Seq<ModuleView>, id: i32) -> bool {
    forall|i: int, j: int|
        0 <= i < mods.len() && 0 <= j < mods[i].parts.len() ==> (
        #[trigger] mods[i].parts[j]).attr_id != id
}

proof fn lemma_part_sum_lacks(parts: Seq<PartView>, id: i32)
    requires
        forall|j: int| 0 <= j < parts.len() ==> (#[trigger] parts[j]).attr_id != id,
    ensures
        part_sum(parts, id) == 0,
    decreases parts.len(),
{
    if parts.len() > 0 {
        let r = parts.drop_last();
        assert forall|j: int| 0 <= j < r.len() implies (#[trigger] r[j]).attr_id != id by {
            assert(r[j] == parts[j]);
        }
        lemma_part_sum_lacks(r, id);
        assert(parts[parts.len() - 1].attr_id != id);
    }
}

proof fn lemma_total_lacks(mods: Seq<ModuleView>, id: i32)
    requires
        lacks(mods, id),
    ensures
        attr_total(mods, id) == 0,
    decreases mods.len(),
{
    if mods.len() > 0 {
        let r = mods.drop_last();
        assert forall|i: int, j: int|
            0 <= i < r.len() && 0 <= j < r[i].parts.len() implies (
        #[trigger] r[i].parts[j]).attr_id != id by {
            assert(r[i] == mods[i]);
            assert(mods[i].parts[j].attr_id != id);
        }
        lemma_total_lacks(r, id);
        let m = mods[mods.len() - 1];
        assert forall|j: int| 0 <= j < m.parts.len() implies (#[trigger] m.parts[j]).attr_id
            != id by {
            assert(mods[mods.len() - 1].parts[j].attr_id != id);
        }
        lemma_part_sum_lacks(m.parts, id);
    }
}

/// A target that no module has changes no score: it is passed over.
pub proof fn law_absent_target_is_ignored(
    mods: Seq<ModuleView>,
    selected: Seq<i32>,
    soft: Seq<i32>,
    id: i32,
)
    requires
        lacks(mods, id),
    ensures
        module_score(mods, selected.push(id), soft) == module_score(mods, selected, soft),
{
    lemma_total_lacks(mods, id);
    let more = selected.push(id);
    assert forall|x: i32| #[trigger] more.contains(x) <==> selected.contains(x) || x == id by {
        assert(more[selected.len() as int] == id);
        if selected.contains(x) {
            let j = choose|j: int| 0 <= j < selected.len() && selected[j] == x;
            assert(more[j] == x);
        }
    }
    assert(attrs_at(mods, soft, |x: i32, lv: int| more.contains(x) && lv >= 1) =~= attrs_at(
        mods,
        soft,
        |x: i32, lv: int| selected.contains(x) && lv >= 1,
    ));
    assert(attrs_at(mods, soft, |x: i32, lv: int| more.contains(x) && lv == 6) =~= attrs_at(
        mods,
        soft,
        |x: i32, lv: int| selected.contains(x) && lv == 6,
    ));
}

/// A target changes the ranking only: whatever the targets are, the same combinations take part.
pub proof fn law_targets_drop_no_combination(
    candidates: Seq<ModuleView>,
    a: Seq<i32>,
    b: Seq<i32>,
    soft: Seq<i32>,
    requirements: Seq<(i32, usize)>,
    k: int,
    mode: RankMode,
    e: Entry,
)
    requires
        ranked_combos(candidates, a, soft, requirements, k, mode).contains(e),
    ensures
        ranked_combos(candidates, b, soft, requirements, k, mode).contains(
            Entry {
                key: key_of(module_score(mods_at(candidates, e.combo), b, soft), mode),
                combo: e.combo,
            },
        ),
{
}

/// The parts of a module whose attributes count.
pub open spec fn counted_parts(parts: Seq<PartView>, soft: Seq<i32>) -> Seq<PartView>
    decreases parts.len(),
{
    if parts.len() == 0 {
        seq![]
    } else if soft.contains(parts.last().attr_id) {
        counted_parts(parts.drop_last(), soft)
    } else {
        counted_parts(parts.drop_last(), soft).push(parts.last())
    }
}

/// Modules without the parts that are left out of the ranking.
pub open spec fn counted_mods(mods: Seq<ModuleView>, soft: Seq<i32>) -> Seq<ModuleView> {
    mods.map_values(
        |m: ModuleView| ModuleView { parts: counted_parts(m.parts, soft), ..m },
    )
}

proof fn lemma_counted_parts(parts: Seq<PartView>, soft: Seq<i32>, id: i32)
    ensures
        !soft.contains(id) ==> part_sum(counted_parts(parts, soft), id) == part_sum(parts, id),
        listed_sum(counted_parts(parts, soft), soft, false) == listed_sum(parts, soft, false),
        listed_sum(counted_parts(parts, soft), soft, true) == 0,
    decreases parts.len(),
{
    if parts.len() > 0 {
        let r = parts.drop_last();
        lemma_counted_parts(r, soft, id);
        if !soft.contains(parts.last().attr_id) {
            let c = counted_parts(r, soft);
            assert(c.push(parts.last()).drop_last() =~= c);
        }
    }
}

proof fn lemma_counted_mods(mods: Seq<ModuleView>, soft: Seq<i32>, id: i32)
    ensures
        !soft.contains(id) ==> attr_total(counted_mods(mods, soft), id) == attr_total(mods, id),
        listed_total(counted_mods(mods, soft), soft, false) == listed_total(mods, soft, false),
        listed_total(counted_mods(mods, soft), soft, true) == 0,
    decreases mods.len(),
{
    if mods.len() > 0 {
        let r = mods.drop_last();
        lemma_counted_mods(r, soft, id);
        lemma_counted_parts(mods.last().parts, soft, id);
        assert(counted_mods(mods, soft).drop_last() =~= counted_mods(r, soft));
    }
}

/// Attributes that are left out of the ranking do not count: without them, a combination scores the
/// same in everything but what was left out.
pub proof fn law_left_out_values_do_not_count(
    mods: Seq<ModuleView>,
    selected: Seq<i32>,
    soft: Seq<i32>,
)
    ensures
        module_score(mods, selected, soft) == (Score {
            excl: listed_total(mods, soft, true),
            ..module_score(counted_mods(mods, soft), selected, soft)
        }),
        module_score(counted_mods(mods, soft), selected, soft).excl == 0,
{
    let c = counted_mods(mods, soft);
    lemma_counted_mods(mods, soft, 0);
    assert forall|id: i32| !soft.contains(id) implies #[trigger] attr_total(c, id) == attr_total(
        mods,
        id,
    ) by {
        lemma_counted_mods(mods, soft, id);
    }
    assert(attrs_at(mods, soft, |id: i32, lv: int| selected.contains(id) && lv >= 1) =~= attrs_at(
        c,
        soft,
        |id: i32, lv: int| selected.contains(id) && lv >= 1,
    ));
    assert(attrs_at(mods, soft, |id: i32, lv: int| selected.contains(id) && lv == 6) =~= attrs_at(
        c,
        soft,
        |id: i32, lv: int| selected.contains(id) && lv == 6,
    ));
    assert(attrs_at(mods, soft, |id: i32, lv: int| lv == 6) =~= attrs_at(
        c,
        soft,
        |id: i32, lv: int| lv == 6,
    ));
    assert(attrs_at(mods, soft, |id: i32, lv: int| lv == 5) =~= attrs_at(
        c,
        soft,
        |id: i32, lv: int| lv == 5,
    ));
}

/// Who asks for fewer gets the first of those who asks for more.
pub proof fn law_fewer_are_the_first(
    few: Seq<Entry>,
    many: Seq<Entry>,
    k: nat,
    n: nat,
    all: Set<Entry>,
)
    requires
        k <= n,
        is_top(few, k, all),
        is_top(many, n, all),
    ensures
        few.is_prefix_of(many),
{
    let m: int = if many.len() < k {
        many.len() as int
    } else {
        k as int
    };
    let head = many.take(m);
    assert forall|e: Entry| #[trigger] all.contains(e) && !head.contains(e) implies head.len() == k
        && forall|i: int| 0 <= i < head.len() ==> better(#[trigger] head[i], e) by {
        if many.contains(e) {
            let j = choose|j: int| 0 <= j < many.len() && many[j] == e;
            if j < m {
                assert(head[j] == e);
            }
            assert forall|i: int| 0 <= i < head.len() implies better(#[trigger] head[i], e) by {
                assert(better(many[i], many[j]));
            }
        } else {
            assert(many.len() == n);
            assert forall|i: int| 0 <= i < head.len() implies better(#[trigger] head[i], e) by {
                assert(better(many[i], e));
            }
        }
    }
    assert forall|i: int| 0 <= i < head.len() implies all.contains(#[trigger] head[i]) by {
        assert(all.contains(many[i]));
    }
    assert(is_top(head, k, all));
    law_top_is_unique(few, head, k, all);
}

/// No combination uses a module of another category, or one with an excluded attribute, and each
/// reaches the required levels.
pub proof fn law_combinations_are_allowed(
    modules: Seq<ModuleView>,
    category: Option<Seq<char>>,
    hard: Seq<i32>,
    selected: Seq<i32>,
    soft: Seq<i32>,
    requirements: Seq<(i32, usize)>,
    k: int,
    mode: RankMode,
    e: Entry,
    i: int,
)
    requires
        ranked_combos(
            usable_modules(modules, category, hard),
            selected,
            soft,
            requirements,
            k,
            mode,
        ).contains(e),
        0 <= i < e.combo.len(),
    ensures
        ({
            let mods = mods_at(usable_modules(modules, category, hard), e.combo);
            &&& mods.len() == k
            &&& usable(mods[i], category, hard)
            &&& modules.contains(mods[i])
            &&& meets_levels(mods, requirements)
        }),
{
    let keep = |m: ModuleView| usable(m, category, hard);
    let list = usable_modules(modules, category, hard);
    assert(list == modules.filter(keep));
    modules.lemma_filter_pred(keep, e.combo[i]);
    modules.lemma_filter_contains_rev(keep, list[e.combo[i]]);
}

/// The category "all" asks for every category: what may be used is what may be used where none is
/// asked for.
pub proof fn law_all_is_every_category(modules: Seq<ModuleView>, hard: Seq<i32>)
    ensures
        usable_modules(modules, Some("all"@), hard) == usable_modules(modules, None, hard),
{
    assert((|m: ModuleView| usable(m, Some("all"@), hard)) =~= (|m: ModuleView|
        usable(m, None, hard)));
}

/// A module may be used exactly where it was given, its category is the wanted one or any is, and
/// none of its attributes is ruled out.
pub proof fn law_usable_modules(
    modules: Seq<ModuleView>,
    category: Option<Seq<char>>,
    hard: Seq<i32>,
    m: ModuleView,
)
    ensures
        usable_modules(modules, category, hard).contains(m) <==> {
            &&& modules.contains(m)
            &&& category is None || category == Some("all"@) || category == Some(m.category)
            &&& forall|j: int|
                0 <= j < m.parts.len() ==> !hard.contains((#[trigger] m.parts[j]).attr_id)
        },
{
    let f = |m: ModuleView| usable(m, category, hard);
    let kept = modules.filter(f);
    if kept.contains(m) {
        modules.lemma_filter_contains_rev(f, m);
        let i = choose|i: int| 0 <= i < kept.len() && kept[i] == m;
        modules.lemma_filter_pred(f, i);
    }
    if modules.contains(m) && f(m) {
        let i = choose|i: int| 0 <= i < modules.len() && modules[i] == m;
        modules.filter_lemma(f);
        assert(kept.contains(modules[i]));
    }
}

/// Modules stay in their order, each as often as it was given: what may be used of two lists is
/// what may be used of the first, followed by what may be used of the second. Where nothing is
/// asked for and nothing is ruled out, all may be used.
pub proof fn law_usable_modules_keep_order(
    first: Seq<ModuleView>,
    second: Seq<ModuleView>,
    category: Option<Seq<char>>,
    hard: Seq<i32>,
)
    ensures
        usable_modules(first + second, category, hard) == usable_modules(first, category, hard)
            + usable_modules(second, category, hard),
        usable_modules(first, None, Seq::empty()) == first,
    decreases first.len() + second.len(),
{
    reveal(Seq::filter);
    let f = |m: ModuleView| usable(m, category, hard);
    if second.len() > 0 {
        law_usable_modules_keep_order(first, second.drop_last(), category, hard);
        assert((first + second).drop_last() =~= first + second.drop_last());
        assert((first + second).last() == second.last());
        assert(usable_modules(first + second, category, hard) =~= usable_modules(
            first,
            category,
            hard,
        ) + usable_modules(second, category, hard));
    } else {
        assert(first + second =~= first);
        assert(second.filter(f) =~= Seq::empty());
        if first.len() > 0 {
            law_usable_modules_keep_order(first.drop_last(), second, category, hard);
            assert(usable(first.last(), None, Seq::empty()));
            assert(first.drop_last().push(first.last()) =~= first);
        } else {
            assert(first =~= Seq::empty());
        }
    }
}

/// Asking for a category leaves out, of what may be used otherwise, exactly the modules of other
/// categories; ruling out more attributes leaves out exactly the modules that have one of these.
pub proof fn law_restrictions_add_up(
    modules: Seq<ModuleView>,
    category: Seq<char>,
    hard: Seq<i32>,
    more: Seq<i32>,
)
    ensures
        category != "all"@ ==> usable_modules(modules, Some(category), hard) == usable_modules(
            modules,
            None,
            hard,
        ).filter(|m: ModuleView| m.category == category),
        usable_modules(modules, Some(category), hard + more) == usable_modules(
            usable_modules(modules, Some(category), hard),
            None,
            more,
        ),
    decreases modules.len(),
{
    reveal(Seq::filter);
    if modules.len() > 0 {
        let rest = modules.drop_last();
        let m = modules.last();
        law_restrictions_add_up(rest, category, hard, more);
        assert(usable(m, Some(category), hard + more) == (usable(m, Some(category), hard)
            && usable(m, None, more))) by {
            assert forall|id: i32| #[trigger]
                (hard + more).contains(id) == (hard.contains(id) || more.contains(id)) by {
                vstd::seq_lib::lemma_seq_concat_contains_all_elements(hard, more, id);
            }
            if usable(m, Some(category), hard + more) {
                assert forall|j: int| 0 <= j < m.parts.len() implies !hard.contains(
                    (#[trigger] m.parts[j]).attr_id,
                ) && !more.contains(m.parts[j].attr_id) by {
                    assert(!(hard + more).contains(m.parts[j].attr_id));
                }
            }
        }
        if category != "all"@ {
            assert(usable(m, Some(category), hard) == (usable(m, None, hard) && m.category
                == category));
        }
        assert(usable_modules(rest, Some(category), hard).push(m).drop_last() =~= usable_modules(
            rest,
            Some(category),
            hard,
        ));
        assert(usable_modules(rest, None, hard).push(m).drop_last() =~= usable_modules(
            rest,
            None,
            hard,
        ));
    }
}

/// A level is required of an attribute by its total: level 0 asks for nothing, levels 1 to 6 ask
/// for 1, 4, 8, 12, 16 and 20, and no modules reach more. Several requirements hold together.
pub proof fn law_required_totals(mods: Seq<ModuleView>, id: i32, lv: usize, others: Seq<(i32, usize)>)
    ensures
        meets_levels(mods, seq![(id, lv)]) <==> {
            ||| lv == 0
            ||| lv == 1 && attr_total(mods, id) >= 1
            ||| lv == 2 && attr_total(mods, id) >= 4
            ||| lv == 3 && attr_total(mods, id) >= 8
            ||| lv == 4 && attr_total(mods, id) >= 12
            ||| lv == 5 && attr_total(mods, id) >= 16
            ||| lv == 6 && attr_total(mods, id) >= 20
        },
        meets_levels(mods, seq![(id, lv)] + others) <==> meets_levels(mods, seq![(id, lv)])
            && meets_levels(mods, others),
        meets_levels(mods, Seq::empty()),
{
    let one = seq![(id, lv)];
    let all = one + others;
    assert(one[0] == (id, lv));
    assert(all[0] == (id, lv));
    if meets_levels(mods, all) {
        assert forall|j: int| 0 <= j < others.len() implies level(
            attr_total(mods, (#[trigger] others[j]).0),
        ) >= others[j].1 by {
            assert(all[j + 1] == others[j]);
        }
        assert(level(attr_total(mods, all[0].0)) >= all[0].1);
    }
    if meets_levels(mods, one) && meets_levels(mods, others) {
        assert forall|j: int| 0 <= j < all.len() implies level(
            attr_total(mods, (#[trigger] all[j]).0),
        ) >= all[j].1 by {
            if j > 0 {
                assert(all[j] == others[j - 1]);
            } else {
                assert(level(attr_total(mods, one[0].0)) >= one[0].1);
            }
        }
    }
    if meets_levels(mods, one) {
        assert(level(attr_total(mods, one[0].0)) >= one[0].1);
    }
}

} // verus!
