//! Why a search over dense indices ranks modules as their attributes do.

use crate::optimizer::accum::{attr_sum, marked_sum, RankMode};
use crate::optimizer::bounds::{attr_vals, marked_vals};
use crate::optimizer::levels::level;
use crate::optimizer::model::{
    attr_total, attrs_at, listed_sum, listed_total, meets_levels, mods_at, module_score, part_sum,
    ranked_combos, ModuleView,
};
use crate::optimizer::ranking::Entry;
use crate::optimizer::space::{
    goes_on, images, is_choice, lemma_increasing_same, SearchSpace,
};
use crate::optimizer::sums::{
    count_where, increasing, lemma_count_same, lemma_pick_sum_map, lemma_pick_sum_permute,
    pick_sum, within,
};
use vstd::prelude::*;

verus! {

/// The requirements that ask for a level above 0.
pub open spec fn positive(requirements: Seq<(i32, usize)>) -> Seq<(i32, usize)> {
    requirements.filter(|r: (i32, usize)| r.1 > 0)
}

/// Which of the attributes `ids` are among `listed`.
pub open spec fn listed_mask(ids: Seq<i32>, listed: Seq<i32>) -> Seq<bool> {
    Seq::new(ids.len(), |a: int| listed.contains(ids[a]))
}

/// `space` holds `candidates` (or some of them), where the dense index `a` stands for the
/// attribute `ids[a]`.
pub open spec fn represents(
    space: SearchSpace,
    ids: Seq<i32>,
    candidates: Seq<ModuleView>,
    selected: Seq<i32>,
    soft: Seq<i32>,
    requirements: Seq<(i32, usize)>,
) -> bool {
    &&& ids.no_duplicates()
    &&& ids.len() == space.n_attr
    &&& space.selected_mask@ == listed_mask(ids, selected)
    &&& space.soft_excl_mask@ == listed_mask(ids, soft)
    &&& space.order@.len() == space.cands@.len()
    &&& forall|i: int|
        0 <= i < space.order@.len() ==> #[trigger] space.order@[i] < candidates.len()
    &&& forall|i: int, j: int|
        0 <= i < j < space.order@.len() ==> space.order@[i] != space.order@[j]
    &&& forall|i: int|
        0 <= i < space.cands@.len() ==> dense_parts(
            (#[trigger] space.cands@[i]).parts@,
            candidates[space.order@[i] as int],
            ids,
        )
    &&& forall|i: int, j: int|
        0 <= i < candidates.len() && 0 <= j < candidates[i].parts.len() ==> ids.contains(
            (#[trigger] candidates[i].parts[j]).attr_id,
        )
    &&& required_as(space.required_idxs@, ids, positive(requirements))
}

/// `parts` are the parts of `m` with dense indices.
pub open spec fn dense_parts(parts: Seq<(u32, i32)>, m: ModuleView, ids: Seq<i32>) -> bool {
    &&& parts.len() == m.parts.len()
    &&& forall|j: int|
        0 <= j < parts.len() ==> (#[trigger] parts[j]).0 < ids.len() && ids[parts[j].0 as int]
            == m.parts[j].attr_id && parts[j].1 == m.parts[j].value
}

/// `req` are the requirements with dense indices.
pub open spec fn required_as(
    req: Seq<(usize, usize)>,
    ids: Seq<i32>,
    requirements: Seq<(i32, usize)>,
) -> bool {
    &&& req.len() == requirements.len()
    &&& forall|j: int|
        0 <= j < req.len() ==> (#[trigger] req[j]).0 < ids.len() && ids[req[j].0 as int]
            == requirements[j].0 && req[j].1 == requirements[j].1
}

/// What each module holds of attribute `id`.
pub open spec fn id_vals(candidates: Seq<ModuleView>, id: i32) -> Seq<int> {
    Seq::new(candidates.len(), |i: int| part_sum(candidates[i].parts, id))
}

/// The values of each module whose attribute is or is not among `ids`.
pub open spec fn listed_vals(candidates: Seq<ModuleView>, ids: Seq<i32>, listed: bool) -> Seq<int> {
    Seq::new(candidates.len(), |i: int| listed_sum(candidates[i].parts, ids, listed))
}

proof fn lemma_part_sums(parts: Seq<(u32, i32)>, m: ModuleView, ids: Seq<i32>, soft: Seq<i32>)
    requires
        dense_parts(parts, m, ids),
        ids.no_duplicates(),
    ensures
        forall|a: int|
            0 <= a < ids.len() ==> #[trigger] attr_sum(parts, a) == part_sum(m.parts, ids[a]),
        forall|flag: bool| #[trigger]
            marked_sum(parts, listed_mask(ids, soft), flag) == listed_sum(m.parts, soft, flag),
    decreases parts.len(),
{
    if parts.len() > 0 {
        let shorter = ModuleView { parts: m.parts.drop_last(), ..m };
        let p = parts.drop_last();
        assert forall|j: int| 0 <= j < p.len() implies (#[trigger] p[j]).0 < ids.len()
            && ids[p[j].0 as int] == shorter.parts[j].attr_id && p[j].1
            == shorter.parts[j].value by {
            assert(p[j] == parts[j]);
        }
        lemma_part_sums(p, shorter, ids, soft);
        let last = parts[parts.len() - 1];
        assert(last == parts.last());
        assert(ids[last.0 as int] == m.parts.last().attr_id);
        assert forall|a: int| 0 <= a < ids.len() implies #[trigger] attr_sum(parts, a) == part_sum(
            m.parts,
            ids[a],
        ) by {
            assert(attr_sum(p, a) == part_sum(shorter.parts, ids[a]));
        }
        let mask = listed_mask(ids, soft);
        assert forall|flag: bool| #[trigger] marked_sum(parts, mask, flag) == listed_sum(
            m.parts,
            soft,
            flag,
        ) by {
            assert(marked_sum(p, mask, flag) == listed_sum(shorter.parts, soft, flag));
        }
    }
}

pub proof fn lemma_attr_total_picks(candidates: Seq<ModuleView>, c: Seq<int>, id: i32)
    requires
        within(c, 0, candidates.len() as int),
    ensures
        attr_total(mods_at(candidates, c), id) == pick_sum(id_vals(candidates, id), c),
    decreases c.len(),
{
    if c.len() > 0 {
        let d = c.drop_last();
        assert forall|i: int| 0 <= i < d.len() implies 0 <= #[trigger] d[i] < candidates.len() by {
            assert(d[i] == c[i]);
        }
        lemma_attr_total_picks(candidates, d, id);
        assert(mods_at(candidates, c).drop_last() =~= mods_at(candidates, d));
        assert(0 <= c[c.len() - 1] < candidates.len());
    }
}

pub proof fn lemma_listed_total_picks(
    candidates: Seq<ModuleView>,
    c: Seq<int>,
    ids: Seq<i32>,
    listed: bool,
)
    requires
        within(c, 0, candidates.len() as int),
    ensures
        listed_total(mods_at(candidates, c), ids, listed) == pick_sum(
            listed_vals(candidates, ids, listed),
            c,
        ),
    decreases c.len(),
{
    if c.len() > 0 {
        let d = c.drop_last();
        assert forall|i: int| 0 <= i < d.len() implies 0 <= #[trigger] d[i] < candidates.len() by {
            assert(d[i] == c[i]);
        }
        lemma_listed_total_picks(candidates, d, ids, listed);
        assert(mods_at(candidates, c).drop_last() =~= mods_at(candidates, d));
        assert(0 <= c[c.len() - 1] < candidates.len());
    }
}

/// An attribute that no part has sums to 0.
pub proof fn lemma_absent(candidates: Seq<ModuleView>, c: Seq<int>, id: i32)
    requires
        within(c, 0, candidates.len() as int),
        forall|i: int, j: int|
            0 <= i < candidates.len() && 0 <= j < candidates[i].parts.len()
                ==> (#[trigger] candidates[i].parts[j]).attr_id != id,
    ensures
        attr_total(mods_at(candidates, c), id) == 0,
    decreases c.len(),
{
    if c.len() > 0 {
        let d = c.drop_last();
        assert forall|i: int| 0 <= i < d.len() implies 0 <= #[trigger] d[i] < candidates.len() by {
            assert(d[i] == c[i]);
        }
        lemma_absent(candidates, d, id);
        assert(mods_at(candidates, c).drop_last() =~= mods_at(candidates, d));
        let m = candidates[c[c.len() - 1]];
        assert(0 <= c[c.len() - 1] < candidates.len());
        lemma_absent_part(m.parts, id);
    }
}

proof fn lemma_absent_part(parts: Seq<crate::optimizer::model::PartView>, id: i32)
    requires
        forall|j: int| 0 <= j < parts.len() ==> (#[trigger] parts[j]).attr_id != id,
    ensures
        part_sum(parts, id) == 0,
    decreases parts.len(),
{
    if parts.len() > 0 {
        let p = parts.drop_last();
        assert forall|j: int| 0 <= j < p.len() implies (#[trigger] p[j]).attr_id != id by {
            assert(p[j] == parts[j]);
        }
        lemma_absent_part(p, id);
        assert(parts[parts.len() - 1].attr_id != id);
    }
}

/// The size of a set of attributes is the number of dense indices that stand for them.
pub proof fn lemma_set_count(ids: Seq<i32>, set: Set<i32>, n: nat)
    requires
        ids.no_duplicates(),
        n <= ids.len(),
        forall|x: i32| #[trigger] set.contains(x) ==> ids.take(n as int).contains(x),
    ensures
        set.finite(),
        set.len() == count_where(n, |a: int| set.contains(ids[a])),
    decreases n,
{
    if n == 0 {
        assert(set =~= Set::<i32>::empty()) by {
            assert forall|x: i32| !#[trigger] set.contains(x) by {
                if set.contains(x) {
                    assert(ids.take(0).contains(x));
                }
            }
        }
    } else {
        let m = (n - 1) as nat;
        let last = ids[n - 1];
        let rest = set.remove(last);
        assert forall|x: i32| #[trigger] rest.contains(x) implies ids.take(m as int).contains(x) by {
            assert(set.contains(x));
            assert(ids.take(n as int).contains(x));
            let i = choose|i: int| 0 <= i < n && ids.take(n as int)[i] == x;
            assert(ids.take(m as int)[i] == x);
        }
        lemma_set_count(ids, rest, m);
        assert(set.finite()) by {
            if set.contains(last) {
                assert(set =~= rest.insert(last));
            } else {
                assert(set =~= rest);
            }
        }
        lemma_count_same(m, |a: int| rest.contains(ids[a]), |a: int| set.contains(ids[a]));
    }
}

impl SearchSpace {
    /// A choice in the space scores what its modules score, in whatever order they are listed.
    pub proof fn lemma_represents(
        self,
        ids: Seq<i32>,
        candidates: Seq<ModuleView>,
        selected: Seq<i32>,
        soft: Seq<i32>,
        requirements: Seq<(i32, usize)>,
        q: Seq<int>,
        c: Seq<int>,
    )
        requires
            represents(self, ids, candidates, selected, soft, requirements),
            forall|j: int|
                0 <= j < self.required_idxs@.len()
                    ==> !self.soft_excl_mask@[(#[trigger] self.required_idxs@[j]).0 as int],
            within(q, 0, self.cands@.len() as int),
            c.to_multiset() =~= images(self.order@, q).to_multiset(),
        ensures
            within(c, 0, candidates.len() as int),
            self.score(q) == module_score(mods_at(candidates, c), selected, soft),
            self.meets(q) == meets_levels(mods_at(candidates, c), requirements),
            forall|a: int|
                0 <= a < ids.len() && !self.soft_excl_mask@[a] ==> #[trigger] self.totals(q)[a]
                    == attr_total(mods_at(candidates, c), ids[a]),
    {
        let im = images(self.order@, q);
        let mods = mods_at(candidates, c);
        let n = ids.len();
        assert forall|i: int| 0 <= i < c.len() implies 0 <= #[trigger] c[i] < candidates.len() by {
            lemma_member_moves(c, im, i);
            let j = choose|j: int| 0 <= j < im.len() && im[j] == c[i];
            assert(0 <= q[j] < self.order@.len());
        }
        assert forall|a: int| 0 <= a < n && !self.soft_excl_mask@[a] implies #[trigger] self.totals(
            q,
        )[a] == attr_total(mods, ids[a]) by {
            let av = attr_vals(self.cands@, a);
            let iv = id_vals(candidates, ids[a]);
            assert forall|i: int| 0 <= i < q.len() implies av[#[trigger] q[i]] == iv[im[i]] by {
                let x = q[i];
                assert(0 <= x < self.cands@.len());
                lemma_part_sums(
                    self.cands@[x].parts@,
                    candidates[self.order@[x] as int],
                    ids,
                    soft,
                );
                assert(attr_sum(self.cands@[x].parts@, a) == part_sum(
                    candidates[self.order@[x] as int].parts,
                    ids[a],
                ));
            }
            lemma_pick_sum_map(av, iv, q, im);
            lemma_pick_sum_permute(iv, im, c);
            lemma_attr_total_picks(candidates, c, ids[a]);
        }
        self.lemma_listed(ids, candidates, selected, soft, requirements, q, c, false);
        self.lemma_listed(ids, candidates, selected, soft, requirements, q, c, true);
        assert forall|id: i32| !ids.contains(id) implies level(#[trigger] attr_total(mods, id))
            == 0 by {
            assert forall|i: int, j: int|
                0 <= i < candidates.len() && 0 <= j
                    < candidates[i].parts.len() implies (#[trigger] candidates[i].parts[j]).attr_id
                != id by {
                assert(ids.contains(candidates[i].parts[j].attr_id));
            }
            lemma_absent(candidates, c, id);
        }
        let t = self.totals(q);
        let sel = self.selected_mask@;
        assert(ids.take(n as int) =~= ids);
        let f1 = |id: i32, lv: int| selected.contains(id) && lv >= 1;
        let f2 = |id: i32, lv: int| selected.contains(id) && lv == 6;
        let f3 = |id: i32, lv: int| lv == 6;
        let f4 = |id: i32, lv: int| lv == 5;
        let s1 = attrs_at(mods, soft, f1);
        let s2 = attrs_at(mods, soft, f2);
        let s3 = attrs_at(mods, soft, f3);
        let s4 = attrs_at(mods, soft, f4);
        lemma_set_count(ids, s1, n);
        lemma_set_count(ids, s2, n);
        lemma_set_count(ids, s3, n);
        lemma_set_count(ids, s4, n);
        assert forall|a: int| 0 <= a < n implies (#[trigger] sel[a] && level(t[a]) >= 1)
            == s1.contains(ids[a]) && (sel[a] && level(t[a]) == 6) == s2.contains(ids[a]) && (
        level(t[a]) == 6) == s3.contains(ids[a]) && (level(t[a]) == 5) == s4.contains(ids[a]) by {
            if !self.soft_excl_mask@[a] {
                assert(t[a] == attr_total(mods, ids[a]));
            }
        }
        lemma_count_same(n, |a: int| sel[a] && level(t[a]) >= 1, |a: int| s1.contains(ids[a]));
        lemma_count_same(n, |a: int| sel[a] && level(t[a]) == 6, |a: int| s2.contains(ids[a]));
        assert forall|a: int| 0 <= a < n implies (level(t[a]) == 6) == s3.contains(
            #[trigger] ids[a],
        ) && (level(t[a]) == 5) == s4.contains(ids[a]) by {
            assert(sel[a] || !sel[a]);
        }
        lemma_count_same(n, |a: int| level(t[a]) == 6, |a: int| s3.contains(ids[a]));
        lemma_count_same(n, |a: int| level(t[a]) == 5, |a: int| s4.contains(ids[a]));
        self.lemma_meets(ids, candidates, selected, soft, requirements, q, c);
    }

    proof fn lemma_listed(
        self,
        ids: Seq<i32>,
        candidates: Seq<ModuleView>,
        selected: Seq<i32>,
        soft: Seq<i32>,
        requirements: Seq<(i32, usize)>,
        q: Seq<int>,
        c: Seq<int>,
        flag: bool,
    )
        requires
            represents(self, ids, candidates, selected, soft, requirements),
            within(q, 0, self.cands@.len() as int),
            within(c, 0, candidates.len() as int),
            c.to_multiset() =~= images(self.order@, q).to_multiset(),
        ensures
            pick_sum(marked_vals(self.cands@, self.soft_excl_mask@, flag), q) == listed_total(
                mods_at(candidates, c),
                soft,
                flag,
            ),
    {
        let im = images(self.order@, q);
        let mv = marked_vals(self.cands@, self.soft_excl_mask@, flag);
        let lv = listed_vals(candidates, soft, flag);
        assert forall|i: int| 0 <= i < q.len() implies mv[#[trigger] q[i]] == lv[im[i]] by {
            let x = q[i];
            assert(0 <= x < self.cands@.len());
            lemma_part_sums(self.cands@[x].parts@, candidates[self.order@[x] as int], ids, soft);
            assert(marked_sum(self.cands@[x].parts@, self.soft_excl_mask@, flag) == listed_sum(
                candidates[self.order@[x] as int].parts,
                soft,
                flag,
            ));
        }
        lemma_pick_sum_map(mv, lv, q, im);
        lemma_pick_sum_permute(lv, im, c);
        lemma_listed_total_picks(candidates, c, soft, flag);
    }

    proof fn lemma_meets(
        self,
        ids: Seq<i32>,
        candidates: Seq<ModuleView>,
        selected: Seq<i32>,
        soft: Seq<i32>,
        requirements: Seq<(i32, usize)>,
        q: Seq<int>,
        c: Seq<int>,
    )
        requires
            represents(self, ids, candidates, selected, soft, requirements),
            forall|j: int|
                0 <= j < self.required_idxs@.len()
                    ==> !self.soft_excl_mask@[(#[trigger] self.required_idxs@[j]).0 as int],
            forall|a: int|
                0 <= a < ids.len() && !self.soft_excl_mask@[a] ==> #[trigger] self.totals(q)[a]
                    == attr_total(mods_at(candidates, c), ids[a]),
        ensures
            self.meets(q) == meets_levels(mods_at(candidates, c), requirements),
    {
        broadcast use vstd::seq_lib::group_filter_ensures;

        let mods = mods_at(candidates, c);
        let pos = positive(requirements);
        let pred = |r: (i32, usize)| r.1 > 0;
        let req = self.required_idxs@;
        if self.meets(q) {
            assert forall|j: int| 0 <= j < requirements.len() implies level(
                attr_total(mods, (#[trigger] requirements[j]).0),
            ) >= requirements[j].1 by {
                if requirements[j].1 > 0 {
                    assert(pred(requirements[j]));
                    assert(pos.contains(requirements[j]));
                    let x = choose|x: int| 0 <= x < pos.len() && pos[x] == requirements[j];
                    assert(level(self.totals(q)[req[x].0 as int]) >= req[x].1);
                }
            }
        }
        if meets_levels(mods, requirements) {
            assert forall|x: int| 0 <= x < req.len() implies level(
                self.totals(q)[(#[trigger] req[x]).0 as int],
            ) >= req[x].1 by {
                assert(pos.contains(pos[x]));
                requirements.lemma_filter_contains_rev(pred, pos[x]);
                let j = choose|j: int| 0 <= j < requirements.len() && requirements[j] == pos[x];
                assert(level(attr_total(mods, requirements[j].0)) >= requirements[j].1);
            }
        }
    }
}

/// Sequences with the same multiset have the same elements.
pub proof fn lemma_member_moves(a: Seq<int>, b: Seq<int>, i: int)
    requires
        a.to_multiset() =~= b.to_multiset(),
        0 <= i < a.len(),
    ensures
        b.contains(a[i]),
{
    broadcast use vstd::seq_lib::group_to_multiset_ensures;

    assert(a.contains(a[i]));
    assert(b.to_multiset().count(a[i]) > 0);
}

/// A sorted arrangement of distinct integers is strictly increasing.
pub proof fn lemma_sort_increasing(s: Seq<int>)
    requires
        s.no_duplicates(),
    ensures
        increasing(s.sort()),
        s.sort().len() == s.len(),
        s.sort().to_multiset() =~= s.to_multiset(),
{
    broadcast use vstd::seq_lib::group_to_multiset_ensures;

    let leq = |x: int, y: int| x <= y;
    let t = s.sort();
    s.lemma_sort_ensures();
    s.lemma_multiset_has_no_duplicates();
    t.lemma_multiset_has_no_duplicates_conv();
    assert(t.len() == t.to_multiset().len());
    assert(s.len() == s.to_multiset().len());
    assert forall|i: int, j: int| 0 <= i < j < t.len() implies t[i] < t[j] by {
        assert(leq(t[i], t[j]));
        assert(t[i] != t[j]);
    }
}

/// `n` distinct positions below `n` are all of them.
pub proof fn lemma_onto(order: Seq<usize>, x: int)
    requires
        forall|i: int| 0 <= i < order.len() ==> #[trigger] order[i] < order.len(),
        forall|i: int, j: int| 0 <= i < j < order.len() ==> order[i] != order[j],
        0 <= x < order.len(),
    ensures
        exists|i: int| 0 <= i < order.len() && order[i] == x,
{
    let s = Seq::new(order.len(), |i: int| order[i] as int);
    let n = order.len() as int;
    assert(s.no_duplicates()) by {
        assert forall|i: int, j: int| 0 <= i < s.len() && 0 <= j < s.len() && i != j implies s[i]
            != s[j] by {
            if i < j {
                assert(order[i] != order[j]);
            } else {
                assert(order[j] != order[i]);
            }
        }
    }
    s.unique_seq_to_set();
    vstd::set_lib::lemma_int_range(0, n);
    let range = vstd::set_lib::set_int_range(0, n);
    assert(s.to_set().subset_of(range));
    vstd::set_lib::lemma_subset_equality(s.to_set(), range);
    assert(range.contains(x));
    assert(s.contains(x));
    let i = choose|i: int| 0 <= i < s.len() && s[i] == x;
    assert(order[i] == x);
}

impl SearchSpace {
    /// The images of a choice are distinct.
    pub proof fn lemma_images_distinct(self, q: Seq<int>)
        requires
            increasing(q),
            within(q, 0, self.order@.len() as int),
            forall|i: int, j: int|
                0 <= i < j < self.order@.len() ==> self.order@[i] != self.order@[j],
        ensures
            images(self.order@, q).no_duplicates(),
    {
        let im = images(self.order@, q);
        assert forall|i: int, j: int| 0 <= i < im.len() && 0 <= j < im.len() && i
            != j implies im[i] != im[j] by {
            if i < j {
                assert(q[i] < q[j]);
                assert(self.order@[q[i]] != self.order@[q[j]]);
            } else {
                assert(q[j] < q[i]);
                assert(self.order@[q[j]] != self.order@[q[i]]);
            }
        }
    }

    /// What the search finds are combinations of the modules, with their keys.
    pub proof fn lemma_entries_are_combos(
        self,
        ids: Seq<i32>,
        candidates: Seq<ModuleView>,
        selected: Seq<i32>,
        soft: Seq<i32>,
        requirements: Seq<(i32, usize)>,
        k: int,
        mode: RankMode,
    )
        requires
            represents(self, ids, candidates, selected, soft, requirements),
            forall|j: int|
                0 <= j < self.required_idxs@.len()
                    ==> !self.soft_excl_mask@[(#[trigger] self.required_idxs@[j]).0 as int],
            k >= 1,
        ensures
            forall|e: Entry| #[trigger]
                self.all_entries(k, mode).contains(e) ==> ranked_combos(
                    candidates,
                    selected,
                    soft,
                    requirements,
                    k,
                    mode,
                ).contains(e),
    {
        let n = self.cands@.len() as int;
        let none = Seq::<int>::empty();
        assert forall|e: Entry| #[trigger] self.all_entries(k, mode).contains(e) implies ranked_combos(
            candidates,
            selected,
            soft,
            requirements,
            k,
            mode,
        ).contains(e) by {
            let q = choose|q: Seq<int>|
                is_choice(q, n, k) && #[trigger] goes_on(q, none, 0) && self.meets(q) && e
                    == self.entry(q, mode);
            let im = images(self.order@, q);
            self.lemma_images_distinct(q);
            lemma_sort_increasing(im);
            self.lemma_represents(ids, candidates, selected, soft, requirements, q, im.sort());
        }
    }

    /// Where the space holds every candidate, the search finds exactly the combinations of the
    /// modules that reach the required levels.
    pub proof fn lemma_entries_are_all_combos(
        self,
        ids: Seq<i32>,
        candidates: Seq<ModuleView>,
        selected: Seq<i32>,
        soft: Seq<i32>,
        requirements: Seq<(i32, usize)>,
        k: int,
        mode: RankMode,
    )
        requires
            represents(self, ids, candidates, selected, soft, requirements),
            self.cands@.len() == candidates.len(),
            forall|j: int|
                0 <= j < self.required_idxs@.len()
                    ==> !self.soft_excl_mask@[(#[trigger] self.required_idxs@[j]).0 as int],
            k >= 1,
        ensures
            self.all_entries(k, mode) == ranked_combos(
                candidates,
                selected,
                soft,
                requirements,
                k,
                mode,
            ),
    {
        let all = ranked_combos(candidates, selected, soft, requirements, k, mode);
        let n = self.cands@.len() as int;
        let none = Seq::<int>::empty();
        let order = self.order@;
        self.lemma_entries_are_combos(ids, candidates, selected, soft, requirements, k, mode);
        assert forall|e: Entry| #[trigger] all.contains(e) implies self.all_entries(
            k,
            mode,
        ).contains(e) by {
            let c = e.combo;
            let at = |x: int| choose|i: int| 0 <= i < order.len() && order[i] == x;
            let r = Seq::new(c.len(), |j: int| at(c[j]));
            assert forall|j: int| 0 <= j < c.len() implies 0 <= #[trigger] r[j] < n && order[r[j]]
                == c[j] by {
                assert(0 <= c[j] < candidates.len());
                lemma_onto(order, c[j]);
            }
            assert(r.no_duplicates()) by {
                assert forall|i: int, j: int| 0 <= i < r.len() && 0 <= j < r.len() && i
                    != j implies r[i] != r[j] by {
                    assert(order[r[i]] == c[i] && order[r[j]] == c[j]);
                    if i < j {
                        assert(c[i] < c[j]);
                    } else {
                        assert(c[j] < c[i]);
                    }
                }
            }
            let q = r.sort();
            lemma_sort_increasing(r);
            assert forall|j: int| 0 <= j < q.len() implies 0 <= #[trigger] q[j] < n by {
                lemma_member_moves(q, r, j);
            }
            let im = images(order, q);
            self.lemma_images_distinct(q);
            lemma_sort_increasing(im);
            let s = im.sort();
            assert forall|j: int| 0 <= j < s.len() implies c.contains(#[trigger] s[j]) by {
                lemma_member_moves(s, im, j);
                let x = choose|x: int| 0 <= x < im.len() && im[x] == s[j];
                lemma_member_moves(q, r, x);
                let y = choose|y: int| 0 <= y < r.len() && r[y] == q[x];
                assert(order[r[y]] == c[y]);
                assert(c[y] == s[j]);
            }
            assert forall|j: int| 0 <= j < c.len() implies s.contains(#[trigger] c[j]) by {
                assert(order[r[j]] == c[j]);
                lemma_member_moves(r, q, j);
                let x = choose|x: int| 0 <= x < q.len() && q[x] == r[j];
                assert(im[x] == c[j]);
                lemma_member_moves(im, s, x);
            }
            lemma_increasing_same(s, c);
            self.lemma_represents(ids, candidates, selected, soft, requirements, q, c);
            assert(q.take(0) =~= none);
            assert(goes_on(q, none, 0));
            assert(e == self.entry(q, mode));
        }
        assert(self.all_entries(k, mode) =~= all);
    }
}


} // verus!
