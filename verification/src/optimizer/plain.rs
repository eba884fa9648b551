//! The search one combination after the other. It needs no bounds, and so also ranks modules with
//! negative values, of which more modules may reach less.

use crate::optimizer::accum::{key_of, key_view, Key, RankMode};
use crate::optimizer::levels::{choose_fits, level};
use crate::optimizer::model::{
    attr_total, listed_sum, listed_total, meets_levels, mods_at, module_score, module_views,
    part_sum, ranked_combos, Module, ModuleView, PartView,
};
use crate::optimizer::prepare::{
    has_attr, hopeless, lemma_distinct_ids, lemma_total_split, ref_views,
};
use crate::optimizer::ranking::{combo_view, entries, is_top, lemma_offer_top, Entry, Ranked, TopK};
use crate::optimizer::request::contains_id;
use crate::optimizer::solution::{
    build_solution, counts_rows, is_solution, lemma_absent_total, row_of, sums_fit,
    Solution,
};
use crate::optimizer::space::is_choice;
use crate::optimizer::sums::{increasing, within};
use vstd::prelude::*;

verus! {

/// Whether the sums of every combination of `k` candidates fit 32 bits.
pub open spec fn combos_fit(candidates: Seq<ModuleView>, soft: Seq<i32>, k: int) -> bool {
    forall|c: Seq<int>| #[trigger]
        is_choice(c, candidates.len() as int, k) ==> sums_fit(mods_at(candidates, c), soft)
}

/// The machine limits within which candidates with negative values are searched.
pub open spec fn plainly_searchable(
    candidates: Seq<ModuleView>,
    soft: Seq<i32>,
    k: int,
) -> bool {
    &&& candidates.len() < u32::MAX
    &&& combos_fit(candidates, soft, k)
    &&& 0 <= k <= candidates.len() ==> choose_fits(candidates.len(), k as nat)
}

/// The sum of the values of a module for an attribute.
fn sum_of_attr(m: &Module, id: i32) -> (sum: i128)
    ensures
        sum == part_sum(m@.parts, id),
        -0x7fff_ffff_ffff_ffff_8000_0000 <= sum <= 0x7fff_ffff_ffff_ffff_8000_0000,
{
    let ghost parts = m@.parts;
    let n: usize = m.parts.len();
    let mut sum: i128 = 0;
    assert(parts.take(0) =~= Seq::<PartView>::empty());
    for j in 0..n
        invariant
            n == m.parts@.len(),
            parts == m@.parts,
            sum == part_sum(parts.take(j as int), id),
            -(j as int) * 0x8000_0000 <= sum <= (j as int) * 0x8000_0000,
    {
        assert(parts.take(j + 1).drop_last() =~= parts.take(j as int));
        assert(parts[j as int] == m.parts@[j as int]@);
        if m.parts[j].attr_id == id {
            sum = sum + m.parts[j].value as i128;
        }
    }
    assert(parts.take(n as int) =~= parts);
    sum
}

/// The sum of the values of a module whose attribute is not among `skip`.
fn sum_of_others(m: &Module, skip: &[i32]) -> (sum: i128)
    ensures
        sum == listed_sum(m@.parts, skip@, false),
        -0x7fff_ffff_ffff_ffff_8000_0000 <= sum <= 0x7fff_ffff_ffff_ffff_8000_0000,
{
    let ghost parts = m@.parts;
    let n: usize = m.parts.len();
    let mut sum: i128 = 0;
    assert(parts.take(0) =~= Seq::<PartView>::empty());
    for j in 0..n
        invariant
            n == m.parts@.len(),
            parts == m@.parts,
            sum == listed_sum(parts.take(j as int), skip@, false),
            -(j as int) * 0x8000_0000 <= sum <= (j as int) * 0x8000_0000,
    {
        assert(parts.take(j + 1).drop_last() =~= parts.take(j as int));
        assert(parts[j as int] == m.parts@[j as int]@);
        if !contains_id(skip, m.parts[j].attr_id) {
            sum = sum + m.parts[j].value as i128;
        }
    }
    assert(parts.take(n as int) =~= parts);
    sum
}

/// Whether the total of an attribute fits 32 bits.
fn attr_fits(mods: &Vec<Module>, id: i32) -> (b: bool)
    requires
        mods@.len() <= u32::MAX,
    ensures
        b == (i32::MIN <= attr_total(module_views(mods@), id) <= i32::MAX),
{
    let ghost views = module_views(mods@);
    let n: usize = mods.len();
    let mut sum: i128 = 0;
    assert(views.take(0) =~= Seq::<ModuleView>::empty());
    for i in 0..n
        invariant
            n == mods@.len(),
            n <= u32::MAX,
            views == module_views(mods@),
            sum == attr_total(views.take(i as int), id),
            -(i as int) * 0x7fff_ffff_ffff_ffff_8000_0000 <= sum <= (i as int)
                * 0x7fff_ffff_ffff_ffff_8000_0000,
    {
        assert(views.take(i + 1).drop_last() =~= views.take(i as int));
        assert(views.take(i + 1).last() == mods@[i as int]@);
        sum = sum + sum_of_attr(&mods[i], id);
    }
    assert(views.take(n as int) =~= views);
    i32::MIN as i128 <= sum && sum <= i32::MAX as i128
}

/// Whether the total of the values whose attribute is not among `skip` fits 32 bits.
fn others_fit(mods: &Vec<Module>, skip: &[i32]) -> (b: bool)
    requires
        mods@.len() <= u32::MAX,
    ensures
        b == (i32::MIN <= listed_total(module_views(mods@), skip@, false) <= i32::MAX),
{
    let ghost views = module_views(mods@);
    let n: usize = mods.len();
    let mut sum: i128 = 0;
    assert(views.take(0) =~= Seq::<ModuleView>::empty());
    for i in 0..n
        invariant
            n == mods@.len(),
            n <= u32::MAX,
            views == module_views(mods@),
            sum == listed_total(views.take(i as int), skip@, false),
            -(i as int) * 0x7fff_ffff_ffff_ffff_8000_0000 <= sum <= (i as int)
                * 0x7fff_ffff_ffff_ffff_8000_0000,
    {
        assert(views.take(i + 1).drop_last() =~= views.take(i as int));
        assert(views.take(i + 1).last() == mods@[i as int]@);
        sum = sum + sum_of_others(&mods[i], skip);
    }
    assert(views.take(n as int) =~= views);
    i32::MIN as i128 <= sum && sum <= i32::MAX as i128
}

/// Whether the sums of modules fit 32 bits.
fn mods_fit(mods: &Vec<Module>, soft_exclude_ids: &[i32]) -> (b: bool)
    requires
        mods@.len() <= u32::MAX,
    ensures
        b == sums_fit(module_views(mods@), soft_exclude_ids@),
{
    let ghost views = module_views(mods@);
    let none: Vec<i32> = Vec::new();
    assert(none@ =~= Seq::<i32>::empty());
    if !others_fit(mods, none.as_slice()) || !others_fit(mods, soft_exclude_ids) {
        return false;
    }
    let n: usize = mods.len();
    for i in 0..n
        invariant
            n == mods@.len(),
            n <= u32::MAX,
            views == module_views(mods@),
            forall|x: int, y: int|
                0 <= x < i && 0 <= y < views[x].parts.len() ==> i32::MIN <= attr_total(
                    views,
                    (#[trigger] views[x].parts[y]).attr_id,
                ) <= i32::MAX,
    {
        let k: usize = mods[i].parts.len();
        for j in 0..k
            invariant
                i < n,
                n == mods@.len(),
                n <= u32::MAX,
                k == mods@[i as int].parts@.len(),
                views == module_views(mods@),
                forall|x: int, y: int|
                    0 <= x < i && 0 <= y < views[x].parts.len() ==> i32::MIN <= attr_total(
                        views,
                        (#[trigger] views[x].parts[y]).attr_id,
                    ) <= i32::MAX,
                forall|y: int|
                    0 <= y < j ==> i32::MIN <= attr_total(
                        views,
                        (#[trigger] views[i as int].parts[y]).attr_id,
                    ) <= i32::MAX,
        {
            assert(views[i as int].parts[j as int] == mods@[i as int].parts@[j as int]@);
            if !attr_fits(mods, mods[i].parts[j].attr_id) {
                return false;
            }
        }
    }
    assert forall|id: i32| i32::MIN <= #[trigger] attr_total(views, id) <= i32::MAX by {
        if has_attr(views, id) {
            let (x, y) = choose|x: int, y: int|
                0 <= x < views.len() && 0 <= y < views[x].parts.len() && (
                #[trigger] views[x].parts[y]).attr_id == id;
            assert(views[x].parts[y].attr_id == id);
        } else {
            lemma_absent_total(views, id);
        }
    }
    true
}

/// The modules at some positions.
fn picked(candidates: &Vec<&Module>, path: &Vec<u32>) -> (mods: Vec<Module>)
    requires
        forall|j: int| 0 <= j < path@.len() ==> #[trigger] path@[j] < candidates@.len(),
    ensures
        mods@.len() == path@.len(),
        module_views(mods@) == mods_at(ref_views(candidates@), combo_view(path@)),
{
    let mut mods: Vec<Module> = Vec::new();
    let n: usize = path.len();
    for j in 0..n
        invariant
            n == path@.len(),
            forall|j: int| 0 <= j < path@.len() ==> #[trigger] path@[j] < candidates@.len(),
            mods@.len() == j,
            forall|x: int| 0 <= x < j ==> (#[trigger] mods@[x])@ == candidates@[path@[x] as int]@,
    {
        assert(path@[j as int] < candidates@.len());
        mods.push(candidates[path[j] as usize].duplicate());
    }
    assert(module_views(mods@) =~= mods_at(ref_views(candidates@), combo_view(path@)));
    mods
}

/// `c` begins with `prefix` and goes on at a position in `start..end`.
pub open spec fn leads_to(c: Seq<int>, prefix: Seq<int>, start: int, end: int) -> bool {
    &&& prefix.len() <= c.len()
    &&& c.take(prefix.len() as int) == prefix
    &&& c.len() > prefix.len() ==> start <= c[prefix.len() as int] < end
}

/// Whether `prefix` is the beginning of a choice that goes on at `start` or later.
pub open spec fn is_prefix(prefix: Seq<int>, start: int) -> bool {
    increasing(prefix) && within(prefix, 0, start)
}

/// A choice that goes on at `i` is one that begins with `i` behind the prefix.
proof fn lemma_leads_step(c: Seq<int>, prefix: Seq<int>, i: int, n: int, k: int)
    requires
        is_choice(c, n, k),
        prefix.len() < k,
        0 <= i < n,
    ensures
        leads_to(c, prefix.push(i), i + 1, n) == leads_to(c, prefix, i, i + 1),
{
    let d = prefix.len() as int;
    let longer = prefix.push(i);
    if leads_to(c, prefix, i, i + 1) {
        assert(c.take(d + 1) =~= longer) by {
            assert forall|x: int| 0 <= x < d implies c[x] == prefix[x] by {
                assert(c.take(d)[x] == prefix[x]);
            }
        }
        if c.len() > d + 1 {
            assert(c[d] < c[d + 1]);
            assert(c[d + 1] < n);
        }
    }
    if leads_to(c, longer, i + 1, n) {
        assert(c[d] == c.take(d + 1)[d]);
        assert(c.take(d) =~= prefix) by {
            assert forall|x: int| 0 <= x < d implies c[x] == prefix[x] by {
                assert(c.take(d + 1)[x] == longer[x]);
            }
        }
    }
}

/// Whether the sums of every combination that begins with `path` fit.
fn fit_below(
    candidates: &Vec<&Module>,
    soft_exclude_ids: &[i32],
    path: &mut Vec<u32>,
    start: usize,
    k: usize,
) -> (b: bool)
    requires
        candidates@.len() < u32::MAX,
        start <= candidates@.len(),
        old(path)@.len() <= k <= candidates@.len(),
        is_prefix(combo_view(old(path)@), start as int),
    ensures
        final(path)@ == old(path)@,
        b == forall|c: Seq<int>| #[trigger]
            is_choice(c, candidates@.len() as int, k as int) && leads_to(
                c,
                combo_view(old(path)@),
                start as int,
                candidates@.len() as int,
            ) ==> sums_fit(mods_at(ref_views(candidates@), c), soft_exclude_ids@),
    decreases k - old(path)@.len(),
{
    let ghost views = ref_views(candidates@);
    let ghost soft = soft_exclude_ids@;
    let ghost first = path@;
    let ghost prefix = combo_view(path@);
    let n: usize = candidates.len();
    assert forall|j: int| 0 <= j < path@.len() implies #[trigger] path@[j] < n by {
        assert(prefix[j] == path@[j]);
    }
    if path.len() == k {
        let mods: Vec<Module> = picked(candidates, path);
        let b: bool = mods_fit(&mods, soft_exclude_ids);
        proof {
            assert(is_choice(prefix, n as int, k as int));
            assert(prefix.take(prefix.len() as int) =~= prefix);
            assert forall|c: Seq<int>| #[trigger]
                is_choice(c, n as int, k as int) && leads_to(
                    c,
                    prefix,
                    start as int,
                    n as int,
                ) implies c == prefix by {
                assert(c.take(prefix.len() as int) =~= c);
            }
        }
        return b;
    }
    let mut i: usize = start;
    while i < n
        invariant
            n == candidates@.len(),
            n < u32::MAX,
            start <= i <= n,
            k <= n,
            first.len() < k,
            first == old(path)@,
            path@ == first,
            prefix == combo_view(first),
            views == ref_views(candidates@),
            soft == soft_exclude_ids@,
            is_prefix(prefix, start as int),
            forall|c: Seq<int>| #[trigger]
                is_choice(c, n as int, k as int) && leads_to(
                    c,
                    prefix,
                    start as int,
                    i as int,
                ) ==> sums_fit(mods_at(views, c), soft),
        decreases n - i,
    {
        path.push(i as u32);
        proof {
            assert(combo_view(path@) =~= prefix.push(i as int));
            lemma_prefix_step(prefix, start as int, i as int);
        }
        let b: bool = fit_below(candidates, soft_exclude_ids, path, i + 1, k);
        path.pop();
        assert(path@ =~= first);
        proof {
            assert forall|c: Seq<int>| #[trigger]
                is_choice(c, n as int, k as int) implies leads_to(
                c,
                prefix.push(i as int),
                i + 1,
                n as int,
            ) == leads_to(c, prefix, i as int, i + 1) by {
                lemma_leads_step(c, prefix, i as int, n as int, k as int);
            }
        }
        if !b {
            proof {
                let c = choose|c: Seq<int>| #[trigger]
                    is_choice(c, n as int, k as int) && leads_to(
                        c,
                        prefix.push(i as int),
                        i + 1,
                        n as int,
                    ) && !sums_fit(mods_at(views, c), soft);
                assert(leads_to(c, prefix, start as int, n as int));
            }
            return false;
        }
        i += 1;
    }
    true
}

/// A longer prefix.
proof fn lemma_prefix_step(prefix: Seq<int>, start: int, i: int)
    requires
        is_prefix(prefix, start),
        0 <= start <= i,
    ensures
        is_prefix(prefix.push(i), i + 1),
{
    let longer = prefix.push(i);
    assert forall|a: int, b: int| 0 <= a < b < longer.len() implies longer[a] < longer[b] by {
        assert(longer[a] == prefix[a]);
    }
    assert forall|a: int| 0 <= a < longer.len() implies 0 <= #[trigger] longer[a] < i + 1 by {
        if a < prefix.len() {
            assert(longer[a] == prefix[a]);
        }
    }
}

/// Whether the sums of every combination fit.
pub fn all_combos_fit(candidates: &Vec<&Module>, soft_exclude_ids: &[i32], k: usize) -> (b: bool)
    requires
        candidates@.len() < u32::MAX,
        k <= candidates@.len(),
    ensures
        b == combos_fit(ref_views(candidates@), soft_exclude_ids@, k as int),
{
    let mut path: Vec<u32> = Vec::new();
    let ghost n = candidates@.len() as int;
    let ghost views = ref_views(candidates@);
    proof {
        let none = Seq::<int>::empty();
        assert(combo_view(path@) =~= none);
        assert forall|c: Seq<int>| #[trigger] is_choice(c, n, k as int) implies leads_to(
            c,
            none,
            0,
            n,
        ) by {
            assert(c.take(0) =~= none);
            if c.len() > 0 {
                assert(0 <= c[0] < n);
            }
        }
    }
    let b: bool = fit_below(candidates, soft_exclude_ids, &mut path, 0, k);
    proof {
        let none = Seq::<int>::empty();
        assert(combo_view(path@) =~= none);
        assert(views.len() == n);
        if b {
            assert forall|c: Seq<int>| #[trigger] is_choice(c, n, k as int) implies sums_fit(
                mods_at(views, c),
                soft_exclude_ids@,
            ) by {
                assert(leads_to(c, none, 0, n));
            }
        } else {
            let c = choose|c: Seq<int>| #[trigger]
                is_choice(c, n, k as int) && leads_to(c, none, 0, n) && !sums_fit(
                    mods_at(views, c),
                    soft_exclude_ids@,
                );
            assert(is_choice(c, views.len() as int, k as int));
        }
    }
    b
}

/// The key of a combination that is shown.
fn key_shown(
    s: &Solution,
    mode: RankMode,
    Ghost(mods): Ghost<Seq<ModuleView>>,
    Ghost(selected): Ghost<Seq<i32>>,
    Ghost(soft): Ghost<Seq<i32>>,
) -> (key: Key)
    requires
        is_solution(*s, mods, selected, soft),
        counts_rows(*s),
    ensures
        key_view(key) == key_of(module_score(mods, selected, soft), mode),
{
    proof {
        let ids = Seq::new(s.breakdown@.len(), |i: int| s.breakdown@[i].attr_id);
        assert(ids.no_duplicates()) by {
            assert forall|i: int, j: int| 0 <= i < ids.len() && 0 <= j < ids.len() && i
                != j implies ids[i] != ids[j] by {
                if i < j {
                    assert(s.breakdown@[i].attr_id != s.breakdown@[j].attr_id);
                } else {
                    assert(s.breakdown@[j].attr_id != s.breakdown@[i].attr_id);
                }
            }
        }
        lemma_distinct_ids(ids);
    }
    let present: i64 = s.selected_present as i64;
    let sel6: i64 = s.selected_lv6 as i64;
    let lv6: i64 = s.lv6_count as i64;
    let lv5: i64 = s.lv5_count as i64;
    let link: i64 = s.eval_link as i64;
    let excl: i64 = s.link_effect as i64 - link;
    proof {
        lemma_total_split(mods, soft);
    }
    let key: Key = match mode {
        RankMode::Link => [present, sel6, lv6, link, lv5, -excl],
        RankMode::Lv5 => [present, sel6, lv6, lv5, link, -excl],
    };
    assert(key_view(key) =~= key_of(module_score(mods, selected, soft), mode));
    key
}

/// Whether shown modules reach the required levels.
fn shows_levels(
    s: &Solution,
    requirements: &[(i32, usize)],
    Ghost(mods): Ghost<Seq<ModuleView>>,
    Ghost(selected): Ghost<Seq<i32>>,
    Ghost(soft): Ghost<Seq<i32>>,
) -> (b: bool)
    requires
        is_solution(*s, mods, selected, soft),
    ensures
        b == meets_levels(mods, requirements@),
{
    let n: usize = requirements.len();
    for j in 0..n
        invariant
            n == requirements@.len(),
            is_solution(*s, mods, selected, soft),
            forall|x: int|
                0 <= x < j ==> level(attr_total(mods, (#[trigger] requirements@[x]).0))
                    >= requirements@[x].1,
    {
        let (id, lowest): (i32, usize) = requirements[j];
        let mut reached: usize = 0;
        let m: usize = s.breakdown.len();
        let ghost mut found = false;
        for i in 0..m
            invariant
                m == s.breakdown@.len(),
                is_solution(*s, mods, selected, soft),
                !found ==> reached == 0 && forall|x: int|
                    0 <= x < i ==> (#[trigger] s.breakdown@[x]).attr_id != id,
                found ==> reached == level(attr_total(mods, id)),
        {
            if s.breakdown[i].attr_id == id {
                reached = s.breakdown[i].level;
                proof {
                    found = true;
                    assert(s.breakdown@[i as int]@ == row_of(mods, selected, soft, id));
                }
            }
        }
        proof {
            if !found {
                assert(!has_attr(mods, id)) by {
                    if has_attr(mods, id) {
                        let x = choose|x: int|
                            0 <= x < s.breakdown@.len() && (#[trigger] s.breakdown@[x]).attr_id
                                == id;
                        assert(s.breakdown@[x].attr_id == id);
                    }
                }
                lemma_absent_total(mods, id);
            }
            assert(reached == level(attr_total(mods, id)));
            assert(requirements@[j as int] == (id, lowest));
        }
        if reached < lowest {
            return false;
        }
    }
    true
}

/// The ranked combinations that begin with `prefix` and go on at a position in `start..end`.
pub open spec fn below(all: Set<Entry>, prefix: Seq<int>, start: int, end: int) -> Set<Entry> {
    all.filter(|e: Entry| leads_to(e.combo, prefix, start, end))
}

/// Offers every combination that begins with `path`.
fn visit(
    candidates: &Vec<&Module>,
    selected_ids: &[i32],
    soft_exclude_ids: &[i32],
    requirements: &[(i32, usize)],
    mode: RankMode,
    path: &mut Vec<u32>,
    start: usize,
    k: usize,
    top: &mut TopK,
    Ghost(seen): Ghost<Set<Entry>>,
)
    requires
        candidates@.len() < u32::MAX,
        start <= candidates@.len(),
        old(path)@.len() <= k <= candidates@.len(),
        k >= 1,
        is_prefix(combo_view(old(path)@), start as int),
        combos_fit(ref_views(candidates@), soft_exclude_ids@, k as int),
        old(top).cap >= 1,
        old(top).holds(seen),
        forall|e: Entry| #[trigger]
            seen.contains(e) ==> !leads_to(
                e.combo,
                combo_view(old(path)@),
                start as int,
                candidates@.len() as int,
            ),
    ensures
        final(path)@ == old(path)@,
        final(top).cap == old(top).cap,
        final(top).holds(
            seen.union(
                below(
                    ranked_combos(
                        ref_views(candidates@),
                        selected_ids@,
                        soft_exclude_ids@,
                        requirements@,
                        k as int,
                        mode,
                    ),
                    combo_view(old(path)@),
                    start as int,
                    candidates@.len() as int,
                ),
            ),
        ),
    decreases k - old(path)@.len(),
{
    let ghost views = ref_views(candidates@);
    let ghost soft = soft_exclude_ids@;
    let ghost first = path@;
    let ghost prefix = combo_view(path@);
    let ghost all = ranked_combos(
        views,
        selected_ids@,
        soft,
        requirements@,
        k as int,
        mode,
    );
    let n: usize = candidates.len();
    assert forall|j: int| 0 <= j < path@.len() implies #[trigger] path@[j] < n by {
        assert(prefix[j] == path@[j]);
    }
    if path.len() == k {
        let ghost mods_view = mods_at(views, prefix);
        assert(is_choice(prefix, n as int, k as int));
        let mods: Vec<Module> = picked(candidates, path);
        let s: Solution = build_solution(mods, selected_ids, soft_exclude_ids);
        let b: bool = shows_levels(
            &s,
            requirements,
            Ghost(mods_view),
            Ghost(selected_ids@),
            Ghost(soft),
        );
        let ghost here = below(all, prefix, start as int, n as int);
        let ghost key = key_of(module_score(mods_view, selected_ids@, soft), mode);
        let ghost e = Entry { key, combo: prefix };
        proof {
            assert(prefix.take(prefix.len() as int) =~= prefix);
            assert forall|x: Entry| #[trigger] here.contains(x) implies b && x == e by {
                assert(x.combo.take(prefix.len() as int) =~= x.combo);
            }
        }
        if b {
            let shown: Key = key_shown(
                &s,
                mode,
                Ghost(mods_view),
                Ghost(selected_ids@),
                Ghost(soft),
            );
            proof {
                assert(here.contains(e));
                assert(!seen.contains(e));
                lemma_offer_top(entries(top.items@), top.cap as nat, seen, e);
                assert(seen.insert(e) =~= seen.union(here));
            }
            top.offer(shown, path.as_slice());
        } else {
            assert(seen =~= seen.union(here));
        }
        return;
    }
    let mut i: usize = start;
    assert(seen.union(below(all, prefix, start as int, start as int)) =~= seen) by {
        assert forall|e: Entry| !#[trigger]
            below(all, prefix, start as int, start as int).contains(e) by {}
    }
    while i < n
        invariant
            n == candidates@.len(),
            n < u32::MAX,
            start <= i <= n,
            1 <= k <= n,
            first.len() < k,
            first == old(path)@,
            path@ == first,
            prefix == combo_view(first),
            views == ref_views(candidates@),
            soft == soft_exclude_ids@,
            all == ranked_combos(
                views,
                selected_ids@,
                soft,
                requirements@,
                k as int,
                mode,
            ),
            is_prefix(prefix, start as int),
            combos_fit(views, soft, k as int),
            top.cap == old(top).cap,
            top.cap >= 1,
            top.holds(seen.union(below(all, prefix, start as int, i as int))),
            forall|e: Entry| #[trigger]
                seen.contains(e) ==> !leads_to(e.combo, prefix, start as int, n as int),
        decreases n - i,
    {
        let ghost done = seen.union(below(all, prefix, start as int, i as int));
        let ghost longer = prefix.push(i as int);
        path.push(i as u32);
        proof {
            assert(combo_view(path@) =~= longer);
            lemma_prefix_step(prefix, start as int, i as int);
            assert forall|e: Entry| #[trigger] done.contains(e) implies !leads_to(
                e.combo,
                longer,
                i + 1,
                n as int,
            ) by {
                if leads_to(e.combo, longer, i + 1, n as int) {
                    lemma_longer(e.combo, prefix, i as int);
                    assert(leads_to(e.combo, prefix, start as int, n as int));
                }
            }
        }
        visit(
            candidates,
            selected_ids,
            soft_exclude_ids,
            requirements,
            mode,
            path,
            i + 1,
            k,
            top,
            Ghost(done),
        );
        path.pop();
        assert(path@ =~= first);
        proof {
            let more = below(all, longer, i + 1, n as int);
            let next = below(all, prefix, start as int, i + 1);
            assert forall|e: Entry|
                done.union(more).contains(e) == #[trigger] seen.union(next).contains(e) by {
                if all.contains(e) {
                    lemma_leads_step(e.combo, prefix, i as int, n as int, k as int);
                }
            }
            assert(done.union(more) =~= seen.union(next));
        }
        i += 1;
    }
}

/// What begins with a longer prefix begins with the shorter one.
proof fn lemma_longer(c: Seq<int>, prefix: Seq<int>, i: int)
    requires
        prefix.len() < c.len(),
        c.take((prefix.len() + 1) as int) == prefix.push(i),
    ensures
        c.take(prefix.len() as int) == prefix,
        c[prefix.len() as int] == i,
{
    let d = prefix.len() as int;
    assert(c.take(d + 1)[d] == i);
    assert(c.take(d) =~= prefix) by {
        assert forall|x: int| 0 <= x < d implies c[x] == prefix[x] by {
            assert(c.take(d + 1)[x] == prefix.push(i)[x]);
        }
    }
}

/// The best `top_k` combinations of `k` candidates, the best first.
pub fn search_plain(
    candidates: &Vec<&Module>,
    selected_ids: &[i32],
    soft_exclude_ids: &[i32],
    requirements: &[(i32, usize)],
    top_k: usize,
    k: usize,
    mode: RankMode,
) -> (ranked: Vec<Ranked>)
    requires
        plainly_searchable(ref_views(candidates@), soft_exclude_ids@, k as int),
        1 <= k <= candidates@.len(),
        top_k >= 1,
    ensures
        is_top(
            entries(ranked@),
            top_k as nat,
            ranked_combos(
                ref_views(candidates@),
                selected_ids@,
                soft_exclude_ids@,
                requirements@,
                k as int,
                mode,
            ),
        ),
{
    let ghost views = ref_views(candidates@);
    let ghost all = ranked_combos(
        views,
        selected_ids@,
        soft_exclude_ids@,
        requirements@,
        k as int,
        mode,
    );
    let ghost none = Seq::<int>::empty();
    let mut path: Vec<u32> = Vec::new();
    let mut top: TopK = TopK::new(top_k);
    assert(combo_view(path@) =~= none);
    visit(
        candidates,
        selected_ids,
        soft_exclude_ids,
        requirements,
        mode,
        &mut path,
        0,
        k,
        &mut top,
        Ghost(Set::empty()),
    );
    proof {
        let n = candidates@.len() as int;
        let found = Set::<Entry>::empty().union(below(all, none, 0, n));
        assert forall|e: Entry| found.contains(e) == #[trigger] all.contains(e) by {
            if all.contains(e) {
                assert(e.combo.take(0) =~= none);
                assert(0 <= e.combo[0] < n);
            }
        }
        assert(found =~= all);
    }
    top.into_vec()
}

/// Whether some candidate has an attribute.
fn is_carried(candidates: &Vec<&Module>, id: i32) -> (b: bool)
    ensures
        b == has_attr(ref_views(candidates@), id),
{
    let ghost views = ref_views(candidates@);
    let n: usize = candidates.len();
    for i in 0..n
        invariant
            n == candidates@.len(),
            views == ref_views(candidates@),
            forall|x: int, y: int|
                0 <= x < i && 0 <= y < views[x].parts.len() ==> (
                #[trigger] views[x].parts[y]).attr_id != id,
    {
        let m: &Module = candidates[i];
        assert(views[i as int] == m@);
        let k: usize = m.parts.len();
        for j in 0..k
            invariant
                i < n,
                n == candidates@.len(),
                k == m.parts@.len(),
                views == ref_views(candidates@),
                views[i as int] == m@,
                forall|x: int, y: int|
                    0 <= x < i && 0 <= y < views[x].parts.len() ==> (
                    #[trigger] views[x].parts[y]).attr_id != id,
                forall|y: int| 0 <= y < j ==> (#[trigger] views[i as int].parts[y]).attr_id != id,
        {
            assert(views[i as int].parts[j as int] == m.parts@[j as int]@);
            if m.parts[j].attr_id == id {
                assert(views[i as int].parts[j as int].attr_id == id);
                return true;
            }
        }
    }
    false
}

/// Whether there is nothing to search.
pub fn is_hopeless(candidates: &Vec<&Module>, requirements: &[(i32, usize)], k: usize) -> (b: bool)
    ensures
        b == hopeless(ref_views(candidates@), requirements@, k as int),
{
    if k == 0 || candidates.len() < k {
        return true;
    }
    let n: usize = requirements.len();
    for j in 0..n
        invariant
            n == requirements@.len(),
            forall|x: int|
                0 <= x < j && (#[trigger] requirements@[x]).1 > 0 ==> has_attr(
                    ref_views(candidates@),
                    requirements@[x].0,
                ),
    {
        if requirements[j].1 > 0 && !is_carried(candidates, requirements[j].0) {
            assert(requirements@[j as int].1 > 0);
            return true;
        }
    }
    false
}

} // verus!
