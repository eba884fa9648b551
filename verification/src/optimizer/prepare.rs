//! From modules to the space that is searched.

use crate::optimizer::accum::{parts_ok, Cand, RankMode};
use crate::optimizer::bridge::{
    dense_parts, lemma_sort_increasing, listed_mask, positive, represents, required_as,
};
use crate::optimizer::levels::{choose_count, choose_fits, n_choose_k};
use crate::optimizer::model::{
    listed_sum, listed_total, mods_at, usable, usable_modules, value_sum, Module, ModuleView, PartView,
};
use crate::optimizer::ranking::{entries, is_top, Entry, Ranked};
use crate::optimizer::request::{
    bad_targets, contains_id, excluded, refusal, searchable, validate_inputs, values_fit,
};
use crate::optimizer::search::search_space;
use crate::optimizer::solution::{add_wrapped, lemma_wrapped_fits, wrapped};
use crate::optimizer::space::{images, SearchSpace};
use crate::optimizer::sums::{increasing, within};
use vstd::prelude::*;

verus! {

/// Whether some candidate has attribute `id`.
pub open spec fn has_attr(candidates: Seq<ModuleView>, id: i32) -> bool {
    exists|i: int, j: int|
        0 <= i < candidates.len() && 0 <= j < candidates[i].parts.len() && (
        #[trigger] candidates[i].parts[j]).attr_id == id
}

/// Whether no combination can be asked for: no slots, too few candidates, or a required attribute
/// that no candidate has.
pub open spec fn hopeless(
    candidates: Seq<ModuleView>,
    requirements: Seq<(i32, usize)>,
    k: int,
) -> bool {
    ||| k == 0
    ||| candidates.len() < k
    ||| exists|j: int|
        0 <= j < requirements.len() && (#[trigger] requirements[j]).1 > 0 && !has_attr(
            candidates,
            requirements[j].0,
        )
}

/// Whether a module has an attribute with a required level.
pub open spec fn is_carrier(m: ModuleView, requirements: Seq<(i32, usize)>) -> bool {
    exists|j: int, x: int|
        0 <= j < m.parts.len() && 0 <= x < requirements.len() && (#[trigger] requirements[x]).1 > 0
            && requirements[x].0 == (#[trigger] m.parts[j]).attr_id
}

/// The order of the search: modules with a required attribute first, then by the counted value
/// sum, the largest first, then by position.
pub open spec fn searched_before(
    candidates: Seq<ModuleView>,
    soft: Seq<i32>,
    requirements: Seq<(i32, usize)>,
    a: int,
    b: int,
) -> bool {
    let ca = is_carrier(candidates[a], requirements);
    let cb = is_carrier(candidates[b], requirements);
    let wa = listed_sum(candidates[a].parts, soft, false);
    let wb = listed_sum(candidates[b].parts, soft, false);
    if ca != cb {
        ca
    } else if wa != wb {
        wa > wb
    } else {
        a < b
    }
}

/// A request that was checked and made ready for the search.
pub struct Prepared<'a> {
    /// The modules that may be used, in their order. Combinations hold positions in this list.
    pub candidates: Vec<&'a Module>,
    pub space: SearchSpace,
    /// The attribute that each dense index stands for.
    pub attr_ids: Vec<i32>,
    pub candidate_count: usize,
    pub combinations: u64,
    /// There is nothing to search.
    pub trivially_empty: bool,
    pub selected_ids: &'a [i32],
    pub soft_exclude_ids: &'a [i32],
    pub requirements: &'a [(i32, usize)],
}

/// The modules behind references.
pub open spec fn ref_views(modules: Seq<&Module>) -> Seq<ModuleView> {
    Seq::new(modules.len(), |i: int| modules[i]@)
}

impl<'a> Prepared<'a> {
    pub open spec fn views(self) -> Seq<ModuleView> {
        ref_views(self.candidates@)
    }

    /// The space holds some or all of the candidates.
    pub open spec fn faithful(self) -> bool {
        !self.trivially_empty ==> represents(
            self.space,
            self.attr_ids@,
            self.views(),
            self.selected_ids@,
            self.soft_exclude_ids@,
            self.requirements@,
        )
    }

    /// The space holds some or all of the candidates, and sums over `k` of them fit 32 bits.
    pub open spec fn ready(self, k: int) -> bool {
        !self.trivially_empty ==> {
            &&& k >= 1
            &&& self.space.wf(k)
            &&& represents(
                self.space,
                self.attr_ids@,
                self.views(),
                self.selected_ids@,
                self.soft_exclude_ids@,
                self.requirements@,
            )
        }
    }

    /// The space holds all candidates, in the order of the search.
    pub open spec fn complete(self) -> bool {
        !self.trivially_empty ==> {
            &&& self.space.cands@.len() == self.candidates@.len()
            &&& forall|i: int, j: int|
                0 <= i < j < self.space.order@.len() ==> searched_before(
                    self.views(),
                    self.soft_exclude_ids@,
                    self.requirements@,
                    self.space.order@[i] as int,
                    self.space.order@[j] as int,
                )
        }
    }

    /// The combinations that a search over the space ranks.
    pub open spec fn all_entries(self, k: int, mode: RankMode) -> Set<Entry> {
        if self.trivially_empty {
            Set::empty()
        } else {
            self.space.all_entries(k, mode)
        }
    }
}

/// The request as given.
pub open spec fn category_view(category: Option<&str>) -> Option<Seq<char>> {
    match category {
        Some(c) => Some(c@),
        None => None,
    }
}

/// Whether a module has none of the attributes `hard`.
fn has_no_part_in(m: &Module, hard: &[i32]) -> (b: bool)
    ensures
        b == forall|j: int|
            0 <= j < m@.parts.len() ==> !hard@.contains((#[trigger] m@.parts[j]).attr_id),
{
    let mut j: usize = 0;
    while j < m.parts.len()
        invariant
            j <= m.parts@.len(),
            forall|x: int| 0 <= x < j ==> !hard@.contains((#[trigger] m@.parts[x]).attr_id),
        decreases m.parts@.len() - j,
    {
        assert(m@.parts[j as int] == m.parts@[j as int]@);
        if contains_id(hard, m.parts[j].attr_id) {
            return false;
        }
        j += 1;
    }
    true
}

/// The modules that may be used.
pub(crate) fn select_candidates<'a>(
    modules: &'a [Module],
    category: Option<&str>,
    hard_exclude_ids: &[i32],
) -> (candidates: Vec<&'a Module>)
    ensures
        ref_views(candidates@) == usable_modules(
            Seq::new(modules@.len(), |i: int| modules@[i]@),
            category_view(category),
            hard_exclude_ids@,
        ),
        candidates@.len() <= modules@.len(),
{
    let ghost views = Seq::new(modules@.len(), |i: int| modules@[i]@);
    let ghost cat = category_view(category);
    let ghost hard = hard_exclude_ids@;
    let ghost keep = |m: ModuleView| usable(m, cat, hard);
    let wanted: Option<String> = match category {
        Some(c) => Some(c.to_owned()),
        None => None,
    };
    let all: String = "all".to_owned();
    let mut candidates: Vec<&'a Module> = Vec::new();
    let mut i: usize = 0;
    assert(views.take(0) =~= Seq::<ModuleView>::empty());
    assert(ref_views(candidates@) =~= views.take(0).filter(keep)) by {
        reveal(Seq::filter);
    }
    while i < modules.len()
        invariant
            i <= modules@.len(),
            views == Seq::new(modules@.len(), |i: int| modules@[i]@),
            hard == hard_exclude_ids@,
            keep == (|m: ModuleView| usable(m, cat, hard)),
            all@ == "all"@,
            wanted is Some <==> cat is Some,
            wanted matches Some(c) ==> cat == Some(c@),
            candidates@.len() <= i,
            ref_views(candidates@) == views.take(i as int).filter(keep),
        decreases modules@.len() - i,
    {
        let m: &'a Module = &modules[i];
        let ghost before = candidates@;
        proof {
            reveal(Seq::filter);
            let next = views.take(i + 1);
            assert(next.drop_last() =~= views.take(i as int));
            assert(next.last() == m@);
        }
        let in_category: bool = match &wanted {
            Some(c) => *c == all || m.category == *c,
            None => true,
        };
        if in_category && has_no_part_in(m, hard_exclude_ids) {
            candidates.push(m);
            assert(ref_views(candidates@) =~= ref_views(before).push(m@));
        }
        i += 1;
    }
    assert(views.take(i as int) =~= views);
    candidates
}

/// The position of `id` in `ids`.
pub fn position_of(ids: &Vec<i32>, id: i32) -> (found: Option<usize>)
    ensures
        found is Some <==> ids@.contains(id),
        found matches Some(i) ==> i < ids@.len() && ids@[i as int] == id,
{
    let mut i: usize = 0;
    while i < ids.len()
        invariant
            i <= ids@.len(),
            forall|j: int| 0 <= j < i ==> ids@[j] != id,
        decreases ids@.len() - i,
    {
        if ids[i] == id {
            return Some(i);
        }
        i += 1;
    }
    None
}

/// The attributes of all candidates, each once, in the order in which they are met.
fn collect_attr_ids(candidates: &Vec<&Module>) -> (ids: Vec<i32>)
    ensures
        ids@.no_duplicates(),
        forall|id: i32| #[trigger] ids@.contains(id) <==> has_attr(ref_views(candidates@), id),
{
    let ghost views = ref_views(candidates@);
    let mut ids: Vec<i32> = Vec::new();
    let mut i: usize = 0;
    while i < candidates.len()
        invariant
            i <= candidates@.len(),
            views == ref_views(candidates@),
            ids@.no_duplicates(),
            forall|x: int, y: int|
                0 <= x < i && 0 <= y < views[x].parts.len() ==> ids@.contains(
                    (#[trigger] views[x].parts[y]).attr_id,
                ),
            forall|id: i32| #[trigger] ids@.contains(id) ==> has_attr(views, id),
        decreases candidates@.len() - i,
    {
        let m: &Module = candidates[i];
        assert(views[i as int] == m@);
        let mut j: usize = 0;
        while j < m.parts.len()
            invariant
                i < candidates@.len(),
                j <= m.parts@.len(),
                views == ref_views(candidates@),
                views[i as int] == m@,
                ids@.no_duplicates(),
                forall|x: int, y: int|
                    0 <= x < i && 0 <= y < views[x].parts.len() ==> ids@.contains(
                        (#[trigger] views[x].parts[y]).attr_id,
                    ),
                forall|y: int|
                    0 <= y < j ==> ids@.contains((#[trigger] views[i as int].parts[y]).attr_id),
                forall|id: i32| #[trigger] ids@.contains(id) ==> has_attr(views, id),
            decreases m.parts@.len() - j,
        {
            let id: i32 = m.parts[j].attr_id;
            assert(views[i as int].parts[j as int] == m.parts@[j as int]@);
            let ghost before = ids@;
            if position_of(&ids, id).is_none() {
                ids.push(id);
                proof {
                    assert forall|x: i32| before.contains(x) implies #[trigger] ids@.contains(x) by {
                        let a = choose|a: int| 0 <= a < before.len() && before[a] == x;
                        assert(ids@[a] == x);
                    }
                    assert(ids@[before.len() as int] == id);
                    assert(ids@.contains(id));
                    assert forall|x: i32| #[trigger] ids@.contains(x) implies has_attr(views, x) by {
                        let a = choose|a: int| 0 <= a < ids@.len() && ids@[a] == x;
                        if a < before.len() {
                            assert(before[a] == x);
                            assert(before.contains(x));
                        } else {
                            assert(views[i as int].parts[j as int].attr_id == x);
                        }
                    }
                }
            }
            j += 1;
        }
        i += 1;
    }
    proof {
        assert forall|id: i32| has_attr(views, id) implies #[trigger] ids@.contains(id) by {
            let (x, y) = choose|x: int, y: int|
                0 <= x < views.len() && 0 <= y < views[x].parts.len() && (
                #[trigger] views[x].parts[y]).attr_id == id;
            assert(ids@.contains(views[x].parts[y].attr_id));
        }
    }
    ids
}

/// Which of `ids` are among `listed`.
fn mask_of(ids: &Vec<i32>, listed: &[i32]) -> (mask: Vec<bool>)
    ensures
        mask@ == listed_mask(ids@, listed@),
{
    let mut mask: Vec<bool> = Vec::new();
    let mut i: usize = 0;
    while i < ids.len()
        invariant
            i <= ids@.len(),
            mask@.len() == i,
            forall|j: int| 0 <= j < i ==> #[trigger] mask@[j] == listed@.contains(ids@[j]),
        decreases ids@.len() - i,
    {
        mask.push(contains_id(listed, ids[i]));
        i += 1;
    }
    assert(mask@ =~= listed_mask(ids@, listed@));
    mask
}

/// The required levels above 0 with dense indices, or `None` where no candidate has one of the
/// attributes.
fn resolve_requirements(ids: &Vec<i32>, requirements: &[(i32, usize)]) -> (req: Option<
    Vec<(usize, usize)>,
>)
    ensures
        req is None <==> exists|j: int|
            0 <= j < requirements@.len() && (#[trigger] requirements@[j]).1 > 0 && !ids@.contains(
                requirements@[j].0,
            ),
        req matches Some(r) ==> required_as(r@, ids@, positive(requirements@)),
{
    let ghost pred = |r: (i32, usize)| r.1 > 0;
    let mut req: Vec<(usize, usize)> = Vec::new();
    let mut j: usize = 0;
    assert(requirements@.take(0) =~= Seq::<(i32, usize)>::empty());
    assert(required_as(req@, ids@, requirements@.take(0).filter(pred))) by {
        reveal(Seq::filter);
    }
    while j < requirements.len()
        invariant
            j <= requirements@.len(),
            pred == (|r: (i32, usize)| r.1 > 0),
            required_as(req@, ids@, requirements@.take(j as int).filter(pred)),
            forall|x: int|
                0 <= x < j && (#[trigger] requirements@[x]).1 > 0 ==> ids@.contains(
                    requirements@[x].0,
                ),
        decreases requirements@.len() - j,
    {
        let r: (i32, usize) = requirements[j];
        proof {
            reveal(Seq::filter);
            let next = requirements@.take(j + 1);
            assert(next.drop_last() =~= requirements@.take(j as int));
            assert(next.last() == r);
        }
        if r.1 > 0 {
            match position_of(ids, r.0) {
                Some(idx) => {
                    req.push((idx, r.1));
                },
                None => {
                    assert(requirements@[j as int].1 > 0);
                    return None;
                },
            }
        }
        j += 1;
    }
    assert(requirements@.take(j as int) =~= requirements@);
    Some(req)
}

/// The sums of the first parts never exceed the sum of all.
proof fn lemma_listed_prefix(parts: Seq<PartView>, ids: Seq<i32>, listed: bool, j: int)
    requires
        0 <= j <= parts.len(),
        forall|x: int| 0 <= x < parts.len() ==> (#[trigger] parts[x]).value >= 0,
    ensures
        0 <= listed_sum(parts.take(j), ids, listed) <= listed_sum(parts, ids, listed),
    decreases parts.len(),
{
    if j < parts.len() {
        let p = parts.drop_last();
        assert forall|x: int| 0 <= x < p.len() implies (#[trigger] p[x]).value >= 0 by {
            assert(p[x] == parts[x]);
        }
        lemma_listed_prefix(p, ids, listed, j);
        assert(p.take(j) =~= parts.take(j));
        assert(parts[parts.len() - 1].value >= 0);
    } else {
        assert(parts.take(j) =~= parts);
        if j > 0 {
            let p = parts.drop_last();
            assert forall|x: int| 0 <= x < p.len() implies (#[trigger] p[x]).value >= 0 by {
                assert(p[x] == parts[x]);
            }
            lemma_listed_prefix(p, ids, listed, j - 1);
            assert(p.take(j - 1) =~= p);
            assert(parts[parts.len() - 1].value >= 0);
        }
    }
}

/// Values are listed or not: the two sums are the sum of all.
pub proof fn lemma_listed_split(parts: Seq<PartView>, ids: Seq<i32>)
    ensures
        listed_sum(parts, ids, false) + listed_sum(parts, ids, true) == listed_sum(
            parts,
            Seq::empty(),
            false,
        ),
    decreases parts.len(),
{
    if parts.len() > 0 {
        lemma_listed_split(parts.drop_last(), ids);
        assert(!Seq::<i32>::empty().contains(parts.last().attr_id));
    }
}

/// The same of whole modules.
pub proof fn lemma_total_split(mods: Seq<ModuleView>, ids: Seq<i32>)
    ensures
        listed_total(mods, ids, false) + listed_total(mods, ids, true) == value_sum(mods),
    decreases mods.len(),
{
    if mods.len() > 0 {
        lemma_total_split(mods.drop_last(), ids);
        lemma_listed_split(mods.last().parts, ids);
    }
}

/// One candidate alone sums within 32 bits.
proof fn lemma_single_fits(candidates: Seq<ModuleView>, k: int, i: int, ids: Seq<i32>)
    requires
        values_fit(candidates, k),
        k >= 1,
        0 <= i < candidates.len(),
    ensures
        0 <= listed_sum(candidates[i].parts, ids, false) <= i32::MAX,
{
    let c = seq![i];
    let mods = mods_at(candidates, c);
    assert(value_sum(mods) <= i32::MAX);
    lemma_total_split(mods, ids);
    assert(mods.drop_last() =~= Seq::<ModuleView>::empty());
    assert(mods.last() == candidates[i]);
    assert(listed_total(mods, ids, false) == listed_sum(candidates[i].parts, ids, false)) by {
        reveal_with_fuel(listed_total, 2);
    }
    assert(listed_total(mods, ids, true) == listed_sum(candidates[i].parts, ids, true)) by {
        reveal_with_fuel(listed_total, 2);
    }
    let parts = candidates[i].parts;
    assert forall|x: int| 0 <= x < parts.len() implies (#[trigger] parts[x]).value >= 0 by {
        assert(candidates[i].parts[x].value >= 0);
    }
    lemma_listed_prefix(parts, ids, true, parts.len() as int);
    lemma_listed_prefix(parts, ids, false, parts.len() as int);
    assert(parts.take(parts.len() as int) =~= parts);
}

/// Sums over choices of the space are sums over modules.
proof fn lemma_space_fits(
    space: SearchSpace,
    ids: Seq<i32>,
    candidates: Seq<ModuleView>,
    selected: Seq<i32>,
    soft: Seq<i32>,
    requirements: Seq<(i32, usize)>,
    k: int,
)
    requires
        represents(space, ids, candidates, selected, soft, requirements),
        forall|j: int|
            0 <= j < space.required_idxs@.len()
                ==> !space.soft_excl_mask@[(#[trigger] space.required_idxs@[j]).0 as int],
        values_fit(candidates, k),
    ensures
        space.sums_fit(k),
        forall|i: int|
            0 <= i < space.cands@.len() ==> parts_ok(
                (#[trigger] space.cands@[i]).parts@,
                space.n_attr as int,
            ),
{
    assert forall|p: Seq<int>|
        increasing(p) && within(p, 0, space.cands@.len() as int) && p.len()
            <= k implies #[trigger] space.value_total(p) <= i32::MAX by {
        let im = images(space.order@, p);
        space.lemma_images_distinct(p);
        lemma_sort_increasing(im);
        let c = im.sort();
        space.lemma_represents(ids, candidates, selected, soft, requirements, p, c);
        let mods = mods_at(candidates, c);
        lemma_total_split(mods, soft);
        assert(space.score(p).link == listed_total(mods, soft, false));
        assert(space.score(p).excl == listed_total(mods, soft, true));
        assert(value_sum(mods) <= i32::MAX);
    }
    assert forall|i: int| 0 <= i < space.cands@.len() implies parts_ok(
        (#[trigger] space.cands@[i]).parts@,
        space.n_attr as int,
    ) by {
        let parts = space.cands@[i].parts@;
        let m = candidates[space.order@[i] as int];
        assert(dense_parts(parts, m, ids));
        assert forall|j: int| 0 <= j < parts.len() implies (#[trigger] parts[j]).0 < space.n_attr
            && parts[j].1 >= 0 by {
            assert(candidates[space.order@[i] as int].parts[j].value >= 0);
        }
    }
}

/// There are at most 2^32 distinct 32-bit numbers.
pub proof fn lemma_distinct_ids(ids: Seq<i32>)
    requires
        ids.no_duplicates(),
    ensures
        ids.len() <= 0x1_0000_0000,
{
    let s = Seq::new(ids.len(), |i: int| ids[i] as int);
    assert(s.no_duplicates());
    s.unique_seq_to_set();
    let lo = i32::MIN as int;
    let hi = i32::MAX + 1;
    vstd::set_lib::lemma_int_range(lo, hi);
    let range = vstd::set_lib::set_int_range(lo, hi);
    assert(s.to_set().subset_of(range));
    vstd::set_lib::lemma_len_subset(s.to_set(), range);
}

/// The counted value sum of each candidate.
fn counted_values(candidates: &Vec<&Module>, soft_exclude_ids: &[i32]) -> (w: Vec<i32>)
    requires
        each_sum_fits(ref_views(candidates@), soft_exclude_ids@),
    ensures
        w@.len() == candidates@.len(),
        forall|i: int|
            0 <= i < w@.len() ==> #[trigger] w@[i] == listed_sum(
                ref_views(candidates@)[i].parts,
                soft_exclude_ids@,
                false,
            ),
{
    let ghost views = ref_views(candidates@);
    let ghost soft = soft_exclude_ids@;
    let mut w: Vec<i32> = Vec::new();
    let mut i: usize = 0;
    while i < candidates.len()
        invariant
            i <= candidates@.len(),
            views == ref_views(candidates@),
            soft == soft_exclude_ids@,
            each_sum_fits(views, soft),
            w@.len() == i,
            forall|x: int|
                0 <= x < i ==> #[trigger] w@[x] == listed_sum(views[x].parts, soft, false),
        decreases candidates@.len() - i,
    {
        let m: &Module = candidates[i];
        let ghost parts = views[i as int].parts;
        proof {
            assert(parts.take(0) =~= Seq::<PartView>::empty());
            lemma_wrapped_fits(0);
        }
        let mut sum: i32 = 0;
        let mut j: usize = 0;
        while j < m.parts.len()
            invariant
                j <= m.parts@.len(),
                parts == m@.parts,
                soft == soft_exclude_ids@,
                sum == wrapped(listed_sum(parts.take(j as int), soft, false)),
            decreases m.parts@.len() - j,
        {
            proof {
                assert(parts.take(j + 1).drop_last() =~= parts.take(j as int));
                assert(parts.take(j + 1).last() == m.parts@[j as int]@);
            }
            if !contains_id(soft_exclude_ids, m.parts[j].attr_id) {
                sum = add_wrapped(
                    sum,
                    m.parts[j].value,
                    Ghost(listed_sum(parts.take(j as int), soft, false)),
                );
            }
            j += 1;
        }
        proof {
            assert(parts.take(j as int) =~= parts);
            lemma_wrapped_fits(listed_sum(parts, soft, false));
        }
        w.push(sum);
        i += 1;
    }
    w
}

/// Which candidates have an attribute with a required level.
fn carriers(candidates: &Vec<&Module>, requirements: &[(i32, usize)]) -> (flags: Vec<bool>)
    ensures
        flags@.len() == candidates@.len(),
        forall|i: int|
            0 <= i < flags@.len() ==> #[trigger] flags@[i] == is_carrier(
                ref_views(candidates@)[i],
                requirements@,
            ),
{
    let ghost views = ref_views(candidates@);
    let mut flags: Vec<bool> = Vec::new();
    let mut i: usize = 0;
    while i < candidates.len()
        invariant
            i <= candidates@.len(),
            views == ref_views(candidates@),
            flags@.len() == i,
            forall|x: int| 0 <= x < i ==> #[trigger] flags@[x] == is_carrier(views[x], requirements@),
        decreases candidates@.len() - i,
    {
        flags.push(carries(candidates[i], requirements));
        i += 1;
    }
    flags
}

/// Whether one module has an attribute with a required level.
fn carries(m: &Module, requirements: &[(i32, usize)]) -> (b: bool)
    ensures
        b == is_carrier(m@, requirements@),
{
    let mut j: usize = 0;
    while j < m.parts.len()
        invariant
            j <= m.parts@.len(),
            forall|y: int, x: int|
                0 <= y < j && 0 <= x < requirements@.len() && (#[trigger] requirements@[x]).1 > 0
                    ==> requirements@[x].0 != (#[trigger] m@.parts[y]).attr_id,
        decreases m.parts@.len() - j,
    {
        let id: i32 = m.parts[j].attr_id;
        assert(m@.parts[j as int] == m.parts@[j as int]@);
        let mut x: usize = 0;
        while x < requirements.len()
            invariant
                j < m.parts@.len(),
                x <= requirements@.len(),
                id == m@.parts[j as int].attr_id,
                forall|z: int|
                    0 <= z < x && (#[trigger] requirements@[z]).1 > 0 ==> requirements@[z].0 != id,
            decreases requirements@.len() - x,
        {
            if requirements[x].1 > 0 && requirements[x].0 == id {
                assert(requirements@[x as int].0 == m@.parts[j as int].attr_id);
                return true;
            }
            x += 1;
        }
        j += 1;
    }
    false
}

/// `a` comes before `b`: carriers first, then the larger sum, then the earlier position.
spec fn before(flags: Seq<bool>, w: Seq<i32>, a: int, b: int) -> bool {
    if flags[a] != flags[b] {
        flags[a]
    } else if w[a] != w[b] {
        w[a] > w[b]
    } else {
        a < b
    }
}

/// All positions in the order of the search.
fn search_order(flags: &Vec<bool>, w: &Vec<i32>) -> (order: Vec<usize>)
    requires
        flags@.len() == w@.len(),
    ensures
        order@.len() == w@.len(),
        forall|i: int| 0 <= i < order@.len() ==> #[trigger] order@[i] < w@.len(),
        forall|i: int, j: int|
            0 <= i < j < order@.len() ==> before(
                flags@,
                w@,
                order@[i] as int,
                order@[j] as int,
            ),
{
    let mut order: Vec<usize> = Vec::new();
    let mut x: usize = 0;
    while x < w.len()
        invariant
            flags@.len() == w@.len(),
            x <= w@.len(),
            order@.len() == x,
            forall|i: int| 0 <= i < order@.len() ==> #[trigger] order@[i] < x,
            forall|i: int, j: int|
                0 <= i < j < order@.len() ==> before(
                    flags@,
                    w@,
                    order@[i] as int,
                    order@[j] as int,
                ),
        decreases w@.len() - x,
    {
        let ghost prev = order@;
        let mut pos: usize = order.len();
        while pos > 0 && ((flags[x] && !flags[order[pos - 1]]) || (flags[x] == flags[order[pos - 1]]
            && w[x] > w[order[pos - 1]]))
            invariant
                flags@.len() == w@.len(),
                x < w@.len(),
                pos <= order@.len(),
                order@ == prev,
                forall|i: int| 0 <= i < order@.len() ==> #[trigger] order@[i] < x,
                forall|i: int|
                    pos <= i < order@.len() ==> before(
                        flags@,
                        w@,
                        x as int,
                        #[trigger] order@[i] as int,
                    ),
            decreases pos,
        {
            pos -= 1;
        }
        order.insert(pos, x);
        proof {
            assert forall|i: int| 0 <= i < order@.len() implies #[trigger] order@[i] < x + 1 by {
                if i < pos {
                    assert(prev[i] < x);
                } else if i > pos {
                    assert(prev[i - 1] < x);
                }
            }
            assert forall|i: int, j: int| 0 <= i < j < order@.len() implies before(
                flags@,
                w@,
                order@[i] as int,
                order@[j] as int,
            ) by {
                let oi = if i < pos {
                    i
                } else {
                    i - 1
                };
                let oj = if j < pos {
                    j
                } else {
                    j - 1
                };
                if i == pos {
                    assert(before(flags@, w@, x as int, prev[oj] as int));
                } else if j == pos {
                    assert(before(flags@, w@, prev[pos - 1] as int, x as int)) by {
                        assert(prev[pos - 1] < x);
                    }
                    if oi < pos - 1 {
                        assert(before(flags@, w@, prev[oi] as int, prev[pos - 1] as int));
                    }
                } else {
                    assert(before(flags@, w@, prev[oi] as int, prev[oj] as int));
                }
            }
        }
        x += 1;
    }
    order
}

/// The parts of a module with dense indices.
fn dense_cand(m: &Module, ids: &Vec<i32>) -> (cand: Cand)
    requires
        ids@.len() <= 0x1_0000_0000,
        forall|j: int| 0 <= j < m@.parts.len() ==> ids@.contains((#[trigger] m@.parts[j]).attr_id),
    ensures
        dense_parts(cand.parts@, m@, ids@),
{
    let mut parts: Vec<(u32, i32)> = Vec::new();
    let mut j: usize = 0;
    while j < m.parts.len()
        invariant
            ids@.len() <= 0x1_0000_0000,
            j <= m.parts@.len(),
            parts@.len() == j,
            forall|x: int|
                0 <= x < m@.parts.len() ==> ids@.contains((#[trigger] m@.parts[x]).attr_id),
            forall|x: int|
                0 <= x < j ==> (#[trigger] parts@[x]).0 < ids@.len() && ids@[parts@[x].0 as int]
                    == m@.parts[x].attr_id && parts@[x].1 == m@.parts[x].value,
        decreases m.parts@.len() - j,
    {
        assert(m@.parts[j as int] == m.parts@[j as int]@);
        assert(ids@.contains(m@.parts[j as int].attr_id));
        match position_of(ids, m.parts[j].attr_id) {
            Some(idx) => {
                parts.push((idx as u32, m.parts[j].value));
            },
            None => {},
        }
        j += 1;
    }
    Cand { parts }
}


/// Targets and required attributes count where the request was not refused.
proof fn lemma_not_refused(
    selected: Seq<i32>,
    hard: Seq<i32>,
    soft: Seq<i32>,
    requirements: Seq<(i32, usize)>,
)
    requires
        refusal(selected, hard, soft, requirements) is None,
    ensures
        forall|id: i32| !(#[trigger] selected.contains(id) && soft.contains(id)),
        forall|j: int|
            0 <= j < positive(requirements).len() ==> !soft.contains(
                (#[trigger] positive(requirements)[j]).0,
            ),
{
    broadcast use vstd::seq_lib::group_filter_ensures;

    let bad = |id: i32| excluded(id, hard, soft);
    assert forall|id: i32| !(#[trigger] selected.contains(id) && soft.contains(id)) by {
        if selected.contains(id) && soft.contains(id) {
            let i = choose|i: int| 0 <= i < selected.len() && selected[i] == id;
            assert(bad(selected[i]));
            assert(bad_targets(selected, hard, soft).contains(selected[i]));
        }
    }
    let pos = |r: (i32, usize)| r.1 > 0;
    let bad_req = |r: (i32, usize)| r.1 > 0 && excluded(r.0, hard, soft);
    assert forall|j: int| 0 <= j < positive(requirements).len() implies !soft.contains(
        (#[trigger] positive(requirements)[j]).0,
    ) by {
        let r = positive(requirements)[j];
        assert(positive(requirements).contains(r));
        requirements.lemma_filter_contains_rev(pos, r);
        requirements.lemma_filter_pred(pos, j);
        if soft.contains(r.0) {
            let i = choose|i: int| 0 <= i < requirements.len() && requirements[i] == r;
            assert(bad_req(requirements[i]));
            assert(requirements.filter(bad_req).contains(requirements[i]));
            assert(requirements.filter(bad_req).len() > 0);
        }
    }
}

/// A request with nothing to search.
pub(crate) fn nothing_to_search<'a>(
    candidates: Vec<&'a Module>,
    attr_ids: Vec<i32>,
    selected_ids: &'a [i32],
    soft_exclude_ids: &'a [i32],
    requirements: &'a [(i32, usize)],
) -> (p: Prepared<'a>)
    ensures
        p.candidates@ == candidates@,
        p.candidate_count == candidates@.len(),
        p.combinations == 0,
        p.trivially_empty,
        p.selected_ids == selected_ids,
        p.soft_exclude_ids == soft_exclude_ids,
        p.requirements == requirements,
{
    let candidate_count: usize = candidates.len();
    Prepared {
        candidates,
        space: SearchSpace {
            cands: Vec::new(),
            order: Vec::new(),
            n_attr: 0,
            selected_mask: Vec::new(),
            soft_excl_mask: Vec::new(),
            required_idxs: Vec::new(),
        },
        attr_ids,
        candidate_count,
        combinations: 0,
        trivially_empty: true,
        selected_ids,
        soft_exclude_ids,
        requirements,
    }
}

/// The modules of a slice.
pub open spec fn slice_views(modules: Seq<Module>) -> Seq<ModuleView> {
    Seq::new(modules.len(), |i: int| modules[i]@)
}

/// A request that is searched stays within the limits of the machine.
pub open spec fn within_limits(
    modules: Seq<ModuleView>,
    selected: Seq<i32>,
    category: Option<Seq<char>>,
    hard: Seq<i32>,
    soft: Seq<i32>,
    requirements: Seq<(i32, usize)>,
    k: int,
) -> bool {
    let candidates = usable_modules(modules, category, hard);
    ||| refusal(selected, hard, soft, requirements) is Some
    ||| hopeless(candidates, requirements, k)
    ||| searchable(candidates, k)
}

/// Whether the counted values of each candidate alone sum within 32 bits.
pub open spec fn each_sum_fits(candidates: Seq<ModuleView>, soft: Seq<i32>) -> bool {
    forall|i: int|
        0 <= i < candidates.len() ==> i32::MIN <= listed_sum(
            (#[trigger] candidates[i]).parts,
            soft,
            false,
        ) <= i32::MAX
}

/// A request that can be made ready: it is refused, hopeless, or the sums of its candidates and the
/// number of combinations can be computed.
pub open spec fn preparable(
    modules: Seq<ModuleView>,
    selected: Seq<i32>,
    category: Option<Seq<char>>,
    hard: Seq<i32>,
    soft: Seq<i32>,
    requirements: Seq<(i32, usize)>,
    k: int,
) -> bool {
    let candidates = usable_modules(modules, category, hard);
    ||| refusal(selected, hard, soft, requirements) is Some
    ||| hopeless(candidates, requirements, k)
    ||| each_sum_fits(candidates, soft) && choose_fits(candidates.len(), k as nat)
}

/// A request that is searched can be made ready.
pub proof fn lemma_preparable(
    modules: Seq<ModuleView>,
    selected: Seq<i32>,
    category: Option<Seq<char>>,
    hard: Seq<i32>,
    soft: Seq<i32>,
    requirements: Seq<(i32, usize)>,
    k: int,
)
    requires
        k >= 0,
        within_limits(modules, selected, category, hard, soft, requirements, k),
    ensures
        preparable(modules, selected, category, hard, soft, requirements, k),
{
    let candidates = usable_modules(modules, category, hard);
    if refusal(selected, hard, soft, requirements) is None && !hopeless(
        candidates,
        requirements,
        k,
    ) {
        assert forall|i: int| 0 <= i < candidates.len() implies i32::MIN <= listed_sum(
            (#[trigger] candidates[i]).parts,
            soft,
            false,
        ) <= i32::MAX by {
            lemma_single_fits(candidates, k, i, soft);
        }
    }
}

/// Checks a request, picks the candidates and puts them into search order.
pub fn prepare<'a>(
    modules: &'a [Module],
    selected_ids: &'a [i32],
    category: Option<&str>,
    hard_exclude_ids: &[i32],
    soft_exclude_ids: &'a [i32],
    requirements: &'a [(i32, usize)],
    slot_count: usize,
) -> (result: Result<Prepared<'a>, String>)
    requires
        preparable(
            slice_views(modules@),
            selected_ids@,
            category_view(category),
            hard_exclude_ids@,
            soft_exclude_ids@,
            requirements@,
            slot_count as int,
        ),
    ensures
        result is Ok <==> refusal(
            selected_ids@,
            hard_exclude_ids@,
            soft_exclude_ids@,
            requirements@,
        ) is None,
        result matches Err(message) ==> refusal(
            selected_ids@,
            hard_exclude_ids@,
            soft_exclude_ids@,
            requirements@,
        ) == Some(message@),
        result matches Ok(p) ==> {
            &&& p.views() == usable_modules(
                slice_views(modules@),
                category_view(category),
                hard_exclude_ids@,
            )
            &&& p.candidate_count == p.views().len()
            &&& p.selected_ids@ == selected_ids@
            &&& p.soft_exclude_ids@ == soft_exclude_ids@
            &&& p.requirements@ == requirements@
            &&& p.trivially_empty == hopeless(p.views(), requirements@, slot_count as int)
            &&& p.combinations == if p.trivially_empty {
                0int
            } else {
                choose_count(p.views().len(), slot_count as nat) as int % 0x1_0000_0000_0000_0000
            }
            &&& p.faithful()
            &&& p.complete()
            &&& searchable(p.views(), slot_count as int) ==> p.ready(slot_count as int)
        },
{
    match validate_inputs(selected_ids, hard_exclude_ids, soft_exclude_ids, requirements) {
        Ok(_) => {},
        Err(message) => {
            return Err(message);
        },
    }
    let candidates: Vec<&'a Module> = select_candidates(modules, category, hard_exclude_ids);
    let ghost views = ref_views(candidates@);
    let ghost k = slot_count as int;
    assert(slice_views(modules@) =~= Seq::new(modules@.len(), |i: int| modules@[i]@));
    let n: usize = candidates.len();
    if slot_count == 0 || n < slot_count {
        return Ok(nothing_to_search(candidates, Vec::new(), selected_ids, soft_exclude_ids, requirements));
    }
    let attr_ids: Vec<i32> = collect_attr_ids(&candidates);
    let ghost ids = attr_ids@;
    proof {
        lemma_distinct_ids(ids);
        lemma_not_refused(
            selected_ids@,
            hard_exclude_ids@,
            soft_exclude_ids@,
            requirements@,
        );
        assert forall|i: int, j: int|
            0 <= i < views.len() && 0 <= j < views[i].parts.len() implies ids.contains(
            (#[trigger] views[i].parts[j]).attr_id,
        ) by {
            assert(has_attr(views, views[i].parts[j].attr_id));
        }
    }
    let required_idxs: Vec<(usize, usize)> = match resolve_requirements(&attr_ids, requirements) {
        Some(req) => req,
        None => {
            proof {
                let j = choose|j: int|
                    0 <= j < requirements@.len() && (#[trigger] requirements@[j]).1 > 0
                        && !ids.contains(requirements@[j].0);
                assert(!has_attr(views, requirements@[j].0));
            }
            return Ok(nothing_to_search(candidates, attr_ids, selected_ids, soft_exclude_ids, requirements));
        },
    };
    proof {
        assert(!hopeless(views, requirements@, k)) by {
            if exists|j: int|
                0 <= j < requirements@.len() && (#[trigger] requirements@[j]).1 > 0 && !has_attr(
                    views,
                    requirements@[j].0,
                ) {
                let j = choose|j: int|
                    0 <= j < requirements@.len() && (#[trigger] requirements@[j]).1 > 0
                        && !has_attr(views, requirements@[j].0);
                assert(!ids.contains(requirements@[j].0));
            }
        }
    }
    let selected_mask: Vec<bool> = mask_of(&attr_ids, selected_ids);
    let soft_excl_mask: Vec<bool> = mask_of(&attr_ids, soft_exclude_ids);
    let combinations: u64 = n_choose_k(n, slot_count);
    let w: Vec<i32> = counted_values(&candidates, soft_exclude_ids);
    let flags: Vec<bool> = carriers(&candidates, requirements);
    let order: Vec<usize> = search_order(&flags, &w);
    let mut cands: Vec<Cand> = Vec::new();
    let mut i: usize = 0;
    while i < order.len()
        invariant
            i <= order@.len(),
            order@.len() == candidates@.len(),
            views == ref_views(candidates@),
            ids == attr_ids@,
            ids.len() <= 0x1_0000_0000,
            forall|x: int| 0 <= x < order@.len() ==> #[trigger] order@[x] < candidates@.len(),
            forall|i: int, j: int|
                0 <= i < views.len() && 0 <= j < views[i].parts.len() ==> ids.contains(
                    (#[trigger] views[i].parts[j]).attr_id,
                ),
            cands@.len() == i,
            forall|x: int|
                0 <= x < i ==> dense_parts(
                    (#[trigger] cands@[x]).parts@,
                    views[order@[x] as int],
                    ids,
                ),
        decreases order@.len() - i,
    {
        let at: usize = order[i];
        let m: &Module = candidates[at];
        assert(views[at as int] == m@);
        assert forall|j: int| 0 <= j < m@.parts.len() implies ids.contains(
            (#[trigger] m@.parts[j]).attr_id,
        ) by {
            assert(ids.contains(views[at as int].parts[j].attr_id));
        }
        cands.push(dense_cand(m, &attr_ids));
        i += 1;
    }
    let n_attr: usize = attr_ids.len();
    let space = SearchSpace { cands, order, n_attr, selected_mask, soft_excl_mask, required_idxs };
    proof {
        assert forall|i: int, j: int| 0 <= i < j < space.order@.len() implies space.order@[i]
            != space.order@[j] by {
            assert(before(flags@, w@, space.order@[i] as int, space.order@[j] as int));
        }
        assert(represents(
            space,
            ids,
            views,
            selected_ids@,
            soft_exclude_ids@,
            requirements@,
        ));
        assert forall|j: int| 0 <= j < space.required_idxs@.len() implies (
        #[trigger] space.required_idxs@[j]).0 < space.n_attr
            && !space.soft_excl_mask@[space.required_idxs@[j].0 as int] by {
            assert(!soft_exclude_ids@.contains(positive(requirements@)[j].0));
        }
        assert forall|a: int| 0 <= a < space.n_attr implies !(#[trigger] space.selected_mask@[a]
            && space.soft_excl_mask@[a]) by {
            assert(!(selected_ids@.contains(ids[a]) && soft_exclude_ids@.contains(ids[a])));
        }
        if searchable(views, k) {
            lemma_space_fits(
                space,
                ids,
                views,
                selected_ids@,
                soft_exclude_ids@,
                requirements@,
                k,
            );
            assert(space.wf(k));
        }
        assert forall|i: int, j: int| 0 <= i < j < space.order@.len() implies searched_before(
            views,
            soft_exclude_ids@,
            requirements@,
            space.order@[i] as int,
            space.order@[j] as int,
        ) by {
            let a = space.order@[i] as int;
            let b = space.order@[j] as int;
            assert(before(flags@, w@, a, b));
            assert(flags@[a] == is_carrier(views[a], requirements@));
            assert(flags@[b] == is_carrier(views[b], requirements@));
            assert(w@[a] == listed_sum(views[a].parts, soft_exclude_ids@, false));
            assert(w@[b] == listed_sum(views[b].parts, soft_exclude_ids@, false));
        }
    }
    Ok(
        Prepared {
            candidates,
            space,
            attr_ids,
            candidate_count: n,
            combinations,
            trivially_empty: false,
            selected_ids,
            soft_exclude_ids,
            requirements,
        },
    )
}

/// The best `top_k` combinations of the prepared request, the best first. Neither kind of pruning
/// changes the result.
pub fn search_cpu(
    prepared: &Prepared,
    top_k: usize,
    slot_count: usize,
    mode: RankMode,
    use_requirement_pruning: bool,
    use_bnb_pruning: bool,
) -> (ranked: Vec<Ranked>)
    requires
        !prepared.trivially_empty ==> prepared.space.wf(slot_count as int) && 1 <= slot_count
            <= prepared.space.cands@.len(),
        top_k >= 1 || prepared.all_entries(slot_count as int, mode) == Set::<Entry>::empty(),
    ensures
        is_top(entries(ranked@), top_k as nat, prepared.all_entries(slot_count as int, mode)),
{
    if prepared.trivially_empty {
        return Vec::new();
    }
    search_space(
        &prepared.space,
        top_k,
        slot_count,
        mode,
        use_requirement_pruning,
        use_bnb_pruning,
    )
}

} // verus!
