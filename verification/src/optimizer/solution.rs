//! Solutions as they are shown.

use crate::optimizer::bridge::lemma_set_count;
use crate::optimizer::levels::{level, level_of};
use crate::optimizer::model::{
    attr_total, attrs_at, listed_sum, listed_total, module_score, module_views, part_sum, value_sum,
    Module, ModuleView, PartView,
};
use crate::optimizer::prepare::has_attr;
use crate::optimizer::request::contains_id;
use crate::optimizer::sums::{count_where, lemma_count_same};
use vstd::prelude::*;

verus! {

/// One attribute of a solution.
#[derive(Debug, Clone)]
pub struct AttrBreakdown {
    pub attr_id: i32,
    pub attr_name: String,
    pub value: i32,
    pub level: usize,
    /// Whether the attribute is a target.
    pub selected: bool,
    /// Whether the attribute is left out of the ranking.
    pub soft_excluded: bool,
}

pub struct RowView {
    pub attr_id: i32,
    pub attr_name: Seq<char>,
    pub value: int,
    pub level: int,
    pub selected: bool,
    pub soft_excluded: bool,
}

impl View for AttrBreakdown {
    type V = RowView;

    open spec fn view(&self) -> RowView {
        RowView {
            attr_id: self.attr_id,
            attr_name: self.attr_name@,
            value: self.value as int,
            level: self.level as int,
            selected: self.selected,
            soft_excluded: self.soft_excluded,
        }
    }
}

/// A combination of modules with what it achieves.
#[derive(Debug, Clone)]
pub struct Solution {
    pub modules: Vec<Module>,
    /// The sum of all values.
    pub link_effect: i32,
    /// The sum of the values that count.
    pub eval_link: i32,
    pub lv6_count: usize,
    pub lv5_count: usize,
    /// Targets at level 6.
    pub selected_lv6: usize,
    /// Targets at level 1 or more.
    pub selected_present: usize,
    /// Every attribute, the highest level first.
    pub breakdown: Vec<AttrBreakdown>,
}

/// The name that the first part with attribute `id` gives it.
pub open spec fn first_part_name(parts: Seq<PartView>, id: i32) -> Seq<char>
    decreases parts.len(),
{
    if parts.len() == 0 {
        Seq::empty()
    } else if parts[0].attr_id == id {
        parts[0].attr_name
    } else {
        first_part_name(parts.drop_first(), id)
    }
}

/// Whether a part has attribute `id`.
pub open spec fn part_has(parts: Seq<PartView>, id: i32) -> bool {
    exists|j: int| 0 <= j < parts.len() && (#[trigger] parts[j]).attr_id == id
}

/// The name that the first module with attribute `id` gives it.
pub open spec fn first_name(mods: Seq<ModuleView>, id: i32) -> Seq<char>
    decreases mods.len(),
{
    if mods.len() == 0 {
        Seq::empty()
    } else if part_has(mods[0].parts, id) {
        first_part_name(mods[0].parts, id)
    } else {
        first_name(mods.drop_first(), id)
    }
}

/// The row of attribute `id` in the breakdown of `mods`.
pub open spec fn row_of(
    mods: Seq<ModuleView>,
    selected: Seq<i32>,
    soft: Seq<i32>,
    id: i32,
) -> RowView {
    RowView {
        attr_id: id,
        attr_name: first_name(mods, id),
        value: attr_total(mods, id),
        level: level(attr_total(mods, id)),
        selected: selected.contains(id),
        soft_excluded: soft.contains(id),
    }
}

/// Whether row `a` may stand before row `b`: the higher level first, then the larger value, then
/// targets.
pub open spec fn row_first(a: RowView, b: RowView) -> bool {
    if a.level != b.level {
        a.level > b.level
    } else if a.value != b.value {
        a.value > b.value
    } else {
        a.selected || !b.selected
    }
}

/// `rows` is the breakdown of `mods`: one row per attribute, in order. Rows that tie may stand in
/// any order.
pub open spec fn is_breakdown(
    rows: Seq<AttrBreakdown>,
    mods: Seq<ModuleView>,
    selected: Seq<i32>,
    soft: Seq<i32>,
) -> bool {
    &&& forall|i: int|
        0 <= i < rows.len() ==> (#[trigger] rows[i])@ == row_of(
            mods,
            selected,
            soft,
            rows[i].attr_id,
        )
    &&& forall|i: int, j: int|
        0 <= i < j < rows.len() ==> rows[i].attr_id != rows[j].attr_id
    &&& forall|i: int, j: int| 0 <= i < j < rows.len() ==> row_first(rows[i]@, rows[j]@)
    &&& forall|id: i32|
        has_attr(mods, id) <==> exists|i: int|
            0 <= i < rows.len() && (#[trigger] rows[i]).attr_id == id
}

/// `s` shows the modules `mods`.
pub open spec fn is_solution(
    s: Solution,
    mods: Seq<ModuleView>,
    selected: Seq<i32>,
    soft: Seq<i32>,
) -> bool {
    let score = module_score(mods, selected, soft);
    &&& module_views(s.modules@) == mods
    &&& s.link_effect == value_sum(mods)
    &&& s.eval_link == score.link
    &&& s.lv6_count == score.lv6
    &&& s.lv5_count == score.lv5
    &&& s.selected_lv6 == score.sel6
    &&& s.selected_present == score.present
    &&& is_breakdown(s.breakdown@, mods, selected, soft)
}

/// A number wrapped around to 32 bits.
pub open spec fn wrapped(x: int) -> int {
    (x + 0x8000_0000) % 0x1_0000_0000 - 0x8000_0000
}

/// A number of 32 bits stays as it is.
pub proof fn lemma_wrapped_fits(x: int)
    requires
        i32::MIN <= x <= i32::MAX,
    ensures
        wrapped(x) == x,
{
    vstd::arithmetic::div_mod::lemma_small_mod((x + 0x8000_0000) as nat, 0x1_0000_0000);
}

/// Adds to a number that was wrapped around. What is wrapped around on the way does not matter
/// where the sum fits in the end.
pub(crate) fn add_wrapped(a: i32, b: i32, Ghost(x): Ghost<int>) -> (sum: i32)
    requires
        a == wrapped(x),
    ensures
        sum == wrapped(x + b),
{
    proof {
        let m: int = 0x1_0000_0000;
        let q = (x + 0x8000_0000) / m;
        vstd::arithmetic::div_mod::lemma_fundamental_div_mod(x + 0x8000_0000, m);
        let t = a + b + 0x8000_0000;
        let c: int = if t < 0 {
            -1
        } else if t >= m {
            1
        } else {
            0
        };
        vstd::arithmetic::div_mod::lemma_fundamental_div_mod_converse(
            x + b + 0x8000_0000,
            m,
            q + c,
            t - c * m,
        );
    }
    a.wrapping_add(b)
}

/// A running total of one attribute, wrapped around to 32 bits.
struct Tally {
    attr_id: i32,
    attr_name: String,
    value: i32,
}

/// All parts of `mods`, one after the other.
pub open spec fn flat(mods: Seq<ModuleView>) -> Seq<PartView>
    decreases mods.len(),
{
    if mods.len() == 0 {
        Seq::empty()
    } else {
        flat(mods.drop_last()) + mods.last().parts
    }
}

/// The tallies hold the attributes of `parts`, each once, with its sum and first name.
spec fn tallied(list: Seq<Tally>, parts: Seq<PartView>) -> bool {
    &&& forall|i: int, j: int| 0 <= i < j < list.len() ==> list[i].attr_id != list[j].attr_id
    &&& forall|i: int|
        0 <= i < list.len() ==> (#[trigger] list[i]).value == wrapped(
            part_sum(parts, list[i].attr_id),
        ) && list[i].attr_name@ == first_part_name(parts, list[i].attr_id) && part_has(
            parts,
            list[i].attr_id,
        )
    &&& forall|j: int|
        0 <= j < parts.len() ==> exists|i: int|
            0 <= i < list.len() && (#[trigger] list[i]).attr_id == (#[trigger] parts[j]).attr_id
}

pub proof fn lemma_part_sum_concat(a: Seq<PartView>, b: Seq<PartView>, id: i32)
    ensures
        part_sum(a + b, id) == part_sum(a, id) + part_sum(b, id),
    decreases b.len(),
{
    if b.len() == 0 {
        assert(a + b =~= a);
    } else {
        assert((a + b).drop_last() =~= a + b.drop_last());
        lemma_part_sum_concat(a, b.drop_last(), id);
    }
}

pub proof fn lemma_listed_sum_concat(a: Seq<PartView>, b: Seq<PartView>, ids: Seq<i32>, listed: bool)
    ensures
        listed_sum(a + b, ids, listed) == listed_sum(a, ids, listed) + listed_sum(b, ids, listed),
    decreases b.len(),
{
    if b.len() == 0 {
        assert(a + b =~= a);
    } else {
        assert((a + b).drop_last() =~= a + b.drop_last());
        lemma_listed_sum_concat(a, b.drop_last(), ids, listed);
    }
}

proof fn lemma_first_name_concat(a: Seq<PartView>, b: Seq<PartView>, id: i32)
    ensures
        part_has(a, id) ==> first_part_name(a + b, id) == first_part_name(a, id),
        !part_has(a, id) ==> first_part_name(a + b, id) == first_part_name(b, id),
    decreases a.len(),
{
    if a.len() == 0 {
        assert(a + b =~= b);
    } else {
        assert((a + b).drop_first() =~= a.drop_first() + b);
        lemma_first_name_concat(a.drop_first(), b, id);
        if a[0].attr_id != id {
            if part_has(a, id) {
                let j = choose|j: int| 0 <= j < a.len() && (#[trigger] a[j]).attr_id == id;
                assert(a.drop_first()[j - 1].attr_id == id);
            }
            if part_has(a.drop_first(), id) {
                let j = choose|j: int|
                    0 <= j < a.drop_first().len() && (#[trigger] a.drop_first()[j]).attr_id == id;
                assert(a[j + 1].attr_id == id);
            }
        }
    }
}

/// What the parts of all modules say is what the modules say.
proof fn lemma_flat(mods: Seq<ModuleView>, id: i32, ids: Seq<i32>)
    ensures
        part_sum(flat(mods), id) == attr_total(mods, id),
        part_has(flat(mods), id) == has_attr(mods, id),
        listed_sum(flat(mods), ids, false) == listed_total(mods, ids, false),
        listed_sum(flat(mods), ids, true) == listed_total(mods, ids, true),
    decreases mods.len(),
{
    if mods.len() > 0 {
        let m = mods.drop_last();
        lemma_flat(m, id, ids);
        let a = flat(m);
        let b = mods.last().parts;
        lemma_part_sum_concat(a, b, id);
        lemma_listed_sum_concat(a, b, ids, false);
        lemma_listed_sum_concat(a, b, ids, true);
        if part_has(flat(mods), id) {
            let j = choose|j: int|
                0 <= j < flat(mods).len() && (#[trigger] flat(mods)[j]).attr_id == id;
            if j < a.len() {
                assert(a[j].attr_id == id);
                let (x, y) = choose|x: int, y: int|
                    0 <= x < m.len() && 0 <= y < m[x].parts.len() && (#[trigger] m[x].parts[y]).attr_id
                        == id;
                assert(mods[x].parts[y].attr_id == id);
            } else {
                assert(mods[mods.len() - 1].parts[j - a.len()].attr_id == id);
            }
        }
        if has_attr(mods, id) {
            let (x, y) = choose|x: int, y: int|
                0 <= x < mods.len() && 0 <= y < mods[x].parts.len() && (
                #[trigger] mods[x].parts[y]).attr_id == id;
            if x < m.len() {
                assert(m[x].parts[y].attr_id == id);
                assert(part_has(a, id));
                let j = choose|j: int| 0 <= j < a.len() && (#[trigger] a[j]).attr_id == id;
                assert(flat(mods)[j].attr_id == id);
            } else {
                assert(flat(mods)[a.len() + y].attr_id == id);
            }
        }
    }
}

proof fn lemma_flat_front(mods: Seq<ModuleView>)
    requires
        mods.len() > 0,
    ensures
        flat(mods) == mods[0].parts + flat(mods.drop_first()),
    decreases mods.len(),
{
    if mods.len() == 1 {
        assert(mods.drop_last() =~= Seq::<ModuleView>::empty());
        assert(mods.drop_first() =~= Seq::<ModuleView>::empty());
        assert(flat(mods) =~= mods[0].parts + flat(mods.drop_first()));
    } else {
        lemma_flat_front(mods.drop_last());
        assert(mods.drop_last().drop_first() =~= mods.drop_first().drop_last());
        assert(flat(mods) =~= mods[0].parts + flat(mods.drop_first()));
    }
}

proof fn lemma_flat_name(mods: Seq<ModuleView>, id: i32)
    ensures
        first_part_name(flat(mods), id) == first_name(mods, id),
    decreases mods.len(),
{
    if mods.len() > 0 {
        lemma_flat_front(mods);
        lemma_first_name_concat(mods[0].parts, flat(mods.drop_first()), id);
        lemma_flat_name(mods.drop_first(), id);
    }
}

proof fn lemma_part_sum_bound(parts: Seq<PartView>, id: i32, j: int)
    requires
        0 <= j <= parts.len(),
        forall|x: int| 0 <= x < parts.len() ==> (#[trigger] parts[x]).value >= 0,
    ensures
        0 <= part_sum(parts.take(j), id) <= listed_sum(parts, Seq::empty(), false),
    decreases parts.len(),
{
    if parts.len() > 0 {
        let p = parts.drop_last();
        assert forall|x: int| 0 <= x < p.len() implies (#[trigger] p[x]).value >= 0 by {
            assert(p[x] == parts[x]);
        }
        assert(parts[parts.len() - 1].value >= 0);
        assert(!Seq::<i32>::empty().contains(parts.last().attr_id));
        if j < parts.len() {
            lemma_part_sum_bound(p, id, j);
            assert(p.take(j) =~= parts.take(j));
        } else {
            lemma_part_sum_bound(p, id, j - 1);
            assert(p.take(j - 1) =~= p);
            assert(parts.take(j) =~= parts);
        }
    } else {
        assert(parts.take(j) =~= parts);
    }
}

/// Adds one part to the tallies.
fn tally_part(list: &mut Vec<Tally>, part: &crate::optimizer::model::Part, seen: Ghost<Seq<PartView>>)
    requires
        tallied(old(list)@, seen@),
    ensures
        tallied(final(list)@, seen@.push(part@)),
{
    let ghost parts = seen@;
    let ghost more = parts.push(part@);
    let ghost before = list@;
    let ghost one = seq![part@];
    proof {
        assert(more =~= parts + one);
        assert(more.drop_last() =~= parts);
        assert(more[parts.len() as int] == part@);
        assert forall|id: i32| part_has(parts, id) implies #[trigger] part_has(more, id) by {
            let j = choose|j: int| 0 <= j < parts.len() && (#[trigger] parts[j]).attr_id == id;
            assert(more[j].attr_id == id);
        }
        assert(part_has(more, part.attr_id));
        assert forall|id: i32| part_has(parts, id) implies #[trigger] first_part_name(more, id)
            == first_part_name(parts, id) by {
            lemma_first_name_concat(parts, one, id);
        }
    }
    let mut i: usize = 0;
    while i < list.len() && list[i].attr_id != part.attr_id
        invariant
            i <= list@.len(),
            list@ == before,
            forall|x: int| 0 <= x < i ==> (#[trigger] list@[x]).attr_id != part.attr_id,
        decreases list@.len() - i,
    {
        i += 1;
    }
    if i < list.len() {
        let ghost id = part.attr_id;
        proof {
            assert(before[i as int].value == wrapped(part_sum(parts, id)));
            assert(part_sum(more, id) == part_sum(parts, id) + part.value);
        }
        let value: i32 = add_wrapped(list[i].value, part.value, Ghost(part_sum(parts, id)));
        let attr_name: String = list[i].attr_name.clone();
        let attr_id: i32 = list[i].attr_id;
        list.set(i, Tally { attr_id, attr_name, value });
        proof {
            assert forall|x: int| 0 <= x < list@.len() implies (#[trigger] list@[x]).value
                == wrapped(part_sum(more, list@[x].attr_id)) && list@[x].attr_name@ == first_part_name(
                more,
                list@[x].attr_id,
            ) && part_has(more, list@[x].attr_id) by {
                assert(part_has(parts, before[x].attr_id));
                assert(list@[x].attr_id == before[x].attr_id);
                if x != i {
                    assert(before[x].attr_id != before[i as int].attr_id);
                }
            }
            assert forall|j: int| 0 <= j < more.len() implies exists|x: int|
                0 <= x < list@.len() && (#[trigger] list@[x]).attr_id == (
                #[trigger] more[j]).attr_id by {
                if j < parts.len() {
                    assert(parts[j] == more[j]);
                    let x = choose|x: int|
                        0 <= x < before.len() && (#[trigger] before[x]).attr_id
                            == parts[j].attr_id;
                    assert(list@[x].attr_id == more[j].attr_id);
                } else {
                    assert(list@[i as int].attr_id == more[j].attr_id);
                }
            }
        }
    } else {
        proof {
            assert(!part_has(parts, part.attr_id)) by {
                if part_has(parts, part.attr_id) {
                    let j = choose|j: int|
                        0 <= j < parts.len() && (#[trigger] parts[j]).attr_id == part.attr_id;
                    let x = choose|x: int|
                        0 <= x < before.len() && (#[trigger] before[x]).attr_id
                            == parts[j].attr_id;
                    assert(before[x].attr_id != part.attr_id);
                }
            }
            lemma_no_part_no_sum(parts, part.attr_id);
            lemma_wrapped_fits(part.value as int);
            assert(part_sum(more, part.attr_id) == part.value);
            lemma_first_name_concat(parts, one, part.attr_id);
            assert(one[0] == part@);
        }
        list.push(
            Tally { attr_id: part.attr_id, attr_name: part.attr_name.clone(), value: part.value },
        );
        proof {
            assert forall|x: int| 0 <= x < list@.len() implies (#[trigger] list@[x]).value
                == wrapped(part_sum(more, list@[x].attr_id)) && list@[x].attr_name@ == first_part_name(
                more,
                list@[x].attr_id,
            ) && part_has(more, list@[x].attr_id) by {
                if x < before.len() {
                    assert(list@[x] == before[x]);
                    assert(part_has(parts, before[x].attr_id));
                }
            }
            assert forall|j: int| 0 <= j < more.len() implies exists|x: int|
                0 <= x < list@.len() && (#[trigger] list@[x]).attr_id == (
                #[trigger] more[j]).attr_id by {
                if j < parts.len() {
                    assert(parts[j] == more[j]);
                    let x = choose|x: int|
                        0 <= x < before.len() && (#[trigger] before[x]).attr_id
                            == parts[j].attr_id;
                    assert(list@[x].attr_id == more[j].attr_id);
                } else {
                    assert(list@[before.len() as int].attr_id == more[j].attr_id);
                }
            }
        }
    }
}

proof fn lemma_no_part_no_sum(parts: Seq<PartView>, id: i32)
    requires
        !part_has(parts, id),
    ensures
        part_sum(parts, id) == 0,
    decreases parts.len(),
{
    if parts.len() > 0 {
        let p = parts.drop_last();
        if part_has(p, id) {
            let j = choose|j: int| 0 <= j < p.len() && (#[trigger] p[j]).attr_id == id;
            assert(parts[j].attr_id == id);
        }
        lemma_no_part_no_sum(p, id);
        assert(parts[parts.len() - 1].attr_id != id);
    }
}

/// The total of an attribute that no module has is zero.
pub proof fn lemma_absent_total(mods: Seq<ModuleView>, id: i32)
    requires
        !has_attr(mods, id),
    ensures
        attr_total(mods, id) == 0,
{
    lemma_flat(mods, id, Seq::empty());
    lemma_no_part_no_sum(flat(mods), id);
}

/// The parts of the first modules are the beginning of the parts of all.
proof fn lemma_flat_take(mods: Seq<ModuleView>, i: int, j: int)
    requires
        0 <= i < mods.len(),
        0 <= j <= mods[i].parts.len(),
    ensures
        flat(mods.take(i)).len() + j <= flat(mods).len(),
        flat(mods).take(flat(mods.take(i)).len() + j) == flat(mods.take(i)) + mods[i].parts.take(j),
    decreases mods.len(),
{
    let m = mods.drop_last();
    if i == mods.len() - 1 {
        assert(mods.take(i) =~= m);
        assert(mods.last() == mods[i]);
        assert(flat(mods) == flat(m) + mods[i].parts);
        assert(flat(mods).take(flat(m).len() + j) =~= flat(m) + mods[i].parts.take(j));
    } else {
        lemma_flat_take(m, i, j);
        assert(m.take(i) =~= mods.take(i));
        assert(m[i] == mods[i]);
        let l = flat(mods.take(i)).len() + j;
        assert(flat(mods).take(l) =~= flat(m).take(l));
    }
}

/// The tallies of all parts of `mods`.
fn tally_modules(mods: &Vec<Module>) -> (list: Vec<Tally>)
    ensures
        tallied(list@, flat(module_views(mods@))),
{
    let ghost views = module_views(mods@);
    let ghost all = flat(views);
    let mut list: Vec<Tally> = Vec::new();
    let mut i: usize = 0;
    assert(views.take(0) =~= Seq::<ModuleView>::empty());
    while i < mods.len()
        invariant
            i <= mods@.len(),
            views == module_views(mods@),
            all == flat(views),
            tallied(list@, flat(views.take(i as int))),
        decreases mods@.len() - i,
    {
        let m: &Module = &mods[i];
        let ghost start = flat(views.take(i as int));
        let ghost parts = views[i as int].parts;
        let mut j: usize = 0;
        assert(start + parts.take(0) =~= start);
        while j < m.parts.len()
            invariant
                i < mods@.len(),
                j <= m.parts@.len(),
                views == module_views(mods@),
                all == flat(views),
                parts == m@.parts,
                parts == views[i as int].parts,
                start == flat(views.take(i as int)),
                tallied(list@, start + parts.take(j as int)),
            decreases m.parts@.len() - j,
        {
            let ghost seen = start + parts.take(j as int);
            proof {
                lemma_flat_take(views, i as int, j as int);
                lemma_flat_take(views, i as int, j + 1);
                assert(start + parts.take(j + 1) =~= seen.push(m.parts@[j as int]@));
            }
            tally_part(&mut list, &m.parts[j], Ghost(seen));
            j += 1;
        }
        proof {
            assert(parts.take(j as int) =~= parts);
            assert(views.take(i + 1).drop_last() =~= views.take(i as int));
            assert(views.take(i + 1).last() == views[i as int]);
        }
        i += 1;
    }
    assert(views.take(i as int) =~= views);
    list
}

/// Whether row `a` must stand before row `b`.
fn row_precedes(a: &AttrBreakdown, b: &AttrBreakdown) -> (first: bool)
    ensures
        first == !row_first(b@, a@),
{
    if a.level != b.level {
        a.level > b.level
    } else if a.value != b.value {
        a.value > b.value
    } else {
        a.selected && !b.selected
    }
}

/// Puts a row into its place.
fn insert_row(rows: &mut Vec<AttrBreakdown>, row: AttrBreakdown)
    requires
        forall|i: int, j: int|
            0 <= i < j < old(rows)@.len() ==> row_first(old(rows)@[i]@, old(rows)@[j]@),
    ensures
        forall|i: int, j: int|
            0 <= i < j < final(rows)@.len() ==> row_first(final(rows)@[i]@, final(rows)@[j]@),
        exists|pos: int|
            0 <= pos <= old(rows)@.len() && final(rows)@ == old(rows)@.insert(pos, row),
{
    let ghost before = rows@;
    let mut pos: usize = rows.len();
    while pos > 0 && row_precedes(&row, &rows[pos - 1])
        invariant
            pos <= rows@.len(),
            rows@ == before,
            forall|i: int, j: int| 0 <= i < j < before.len() ==> row_first(before[i]@, before[j]@),
            forall|i: int| pos <= i < before.len() ==> row_first(row@, (#[trigger] before[i])@),
        decreases pos,
    {
        pos -= 1;
    }
    rows.insert(pos, row);
    proof {
        assert(rows@ == before.insert(pos as int, row));
        assert forall|i: int, j: int| 0 <= i < j < rows@.len() implies row_first(
            rows@[i]@,
            rows@[j]@,
        ) by {
            let oi = if i < pos {
                i
            } else {
                i - 1
            };
            let oj = if j < pos {
                j
            } else {
                j - 1
            };
            if i == pos {
                assert(row_first(row@, before[oj]@));
            } else if j == pos {
                assert(row_first(before[pos - 1]@, row@));
                if oi < pos - 1 {
                    assert(row_first(before[oi]@, before[pos - 1]@));
                }
            } else {
                assert(row_first(before[oi]@, before[oj]@));
            }
        }
    }
}

/// Whether one of the first `n` tallies is of attribute `id`.
spec fn tally_has(list: Seq<Tally>, n: int, id: i32) -> bool {
    exists|y: int| 0 <= y < n && (#[trigger] list[y]).attr_id == id
}

/// Whether a row is of attribute `id`.
pub open spec fn row_has(rows: Seq<AttrBreakdown>, id: i32) -> bool {
    exists|x: int| 0 <= x < rows.len() && (#[trigger] rows[x]).attr_id == id
}

/// Distinct rows that each show their attribute.
spec fn rows_ok(
    rows: Seq<AttrBreakdown>,
    views: Seq<ModuleView>,
    sel: Seq<i32>,
    soft: Seq<i32>,
) -> bool {
    &&& forall|x: int|
        0 <= x < rows.len() ==> (#[trigger] rows[x])@ == row_of(views, sel, soft, rows[x].attr_id)
    &&& forall|x: int, y: int| 0 <= x < y < rows.len() ==> rows[x].attr_id != rows[y].attr_id
}

proof fn lemma_rows_insert(
    before: Seq<AttrBreakdown>,
    pos: int,
    row: AttrBreakdown,
    views: Seq<ModuleView>,
    sel: Seq<i32>,
    soft: Seq<i32>,
)
    requires
        rows_ok(before, views, sel, soft),
        0 <= pos <= before.len(),
        row@ == row_of(views, sel, soft, row.attr_id),
        !row_has(before, row.attr_id),
    ensures
        rows_ok(before.insert(pos, row), views, sel, soft),
        forall|id: i32| #[trigger]
            row_has(before.insert(pos, row), id) <==> row_has(before, id) || id == row.attr_id,
{
    let rows = before.insert(pos, row);
    let old_of = |x: int|
        if x < pos {
            x
        } else {
            x - 1
        };
    assert forall|x: int| 0 <= x < rows.len() implies (#[trigger] rows[x])@ == row_of(
        views,
        sel,
        soft,
        rows[x].attr_id,
    ) by {
        if x != pos {
            assert(rows[x] == before[old_of(x)]);
        }
    }
    assert forall|x: int, y: int| 0 <= x < y < rows.len() implies rows[x].attr_id
        != rows[y].attr_id by {
        if x == pos {
            assert(rows[y] == before[old_of(y)]);
        } else if y == pos {
            assert(rows[x] == before[old_of(x)]);
        } else {
            assert(before[old_of(x)].attr_id != before[old_of(y)].attr_id);
        }
    }
    assert forall|id: i32| #[trigger] row_has(rows, id) <==> row_has(before, id) || id
        == row.attr_id by {
        if row_has(rows, id) {
            let x = choose|x: int| 0 <= x < rows.len() && (#[trigger] rows[x]).attr_id == id;
            if x != pos {
                assert(rows[x] == before[old_of(x)]);
            }
        }
        if row_has(before, id) {
            let x = choose|x: int| 0 <= x < before.len() && (#[trigger] before[x]).attr_id == id;
            let nx = if x < pos {
                x
            } else {
                x + 1
            };
            assert(rows[nx] == before[x]);
        }
        if id == row.attr_id {
            assert(rows[pos].attr_id == id);
        }
    }
}

/// The breakdown of `mods`.
fn breakdown_of(mods: &Vec<Module>, selected_ids: &[i32], soft_exclude_ids: &[i32]) -> (rows: Vec<
    AttrBreakdown,
>)
    requires
        sums_fit(module_views(mods@), soft_exclude_ids@),
    ensures
        is_breakdown(rows@, module_views(mods@), selected_ids@, soft_exclude_ids@),
{
    let ghost views = module_views(mods@);
    let ghost all = flat(views);
    let ghost sel = selected_ids@;
    let ghost soft = soft_exclude_ids@;
    let list: Vec<Tally> = tally_modules(mods);
    let mut rows: Vec<AttrBreakdown> = Vec::new();
    let mut i: usize = 0;
    while i < list.len()
        invariant
            i <= list@.len(),
            views == module_views(mods@),
            all == flat(views),
            sel == selected_ids@,
            soft == soft_exclude_ids@,
            sums_fit(views, soft),
            tallied(list@, all),
            rows_ok(rows@, views, sel, soft),
            forall|x: int, y: int| 0 <= x < y < rows@.len() ==> row_first(rows@[x]@, rows@[y]@),
            forall|id: i32| #[trigger] row_has(rows@, id) <==> tally_has(list@, i as int, id),
        decreases list@.len() - i,
    {
        let tally: &Tally = &list[i];
        let row = AttrBreakdown {
            attr_id: tally.attr_id,
            attr_name: tally.attr_name.clone(),
            value: tally.value,
            level: level_of(tally.value),
            selected: contains_id(selected_ids, tally.attr_id),
            soft_excluded: contains_id(soft_exclude_ids, tally.attr_id),
        };
        let ghost before = rows@;
        proof {
            lemma_flat(views, tally.attr_id, soft);
            lemma_flat_name(views, tally.attr_id);
            assert(list@[i as int].value == wrapped(part_sum(all, tally.attr_id)));
            assert(i32::MIN <= attr_total(views, tally.attr_id) <= i32::MAX);
            lemma_wrapped_fits(attr_total(views, tally.attr_id));
            assert(row@ == row_of(views, sel, soft, row.attr_id));
            if row_has(before, row.attr_id) {
                assert(tally_has(list@, i as int, row.attr_id));
                let y = choose|y: int| 0 <= y < i && (#[trigger] list@[y]).attr_id == row.attr_id;
                assert(list@[y].attr_id != list@[i as int].attr_id);
            }
        }
        insert_row(&mut rows, row);
        proof {
            let pos = choose|pos: int|
                0 <= pos <= before.len() && rows@ == before.insert(pos, row);
            lemma_rows_insert(before, pos, row, views, sel, soft);
            assert forall|id: i32| #[trigger] row_has(rows@, id) <==> tally_has(
                list@,
                i + 1,
                id,
            ) by {
                assert(row_has(before, id) <==> tally_has(list@, i as int, id));
                if tally_has(list@, i + 1, id) {
                    let y = choose|y: int| 0 <= y < i + 1 && (#[trigger] list@[y]).attr_id == id;
                    if y < i {
                        assert(tally_has(list@, i as int, id));
                    }
                }
                if tally_has(list@, i as int, id) {
                    let y = choose|y: int| 0 <= y < i && (#[trigger] list@[y]).attr_id == id;
                    assert(y < i + 1);
                }
                if id == row.attr_id {
                    assert(list@[i as int].attr_id == id);
                }
            }
        }
        i += 1;
    }
    proof {
        assert forall|id: i32|
            has_attr(views, id) <==> exists|x: int|
                0 <= x < rows@.len() && (#[trigger] rows@[x]).attr_id == id by {
            lemma_flat(views, id, soft);
            assert(row_has(rows@, id) <==> tally_has(list@, i as int, id));
            if has_attr(views, id) {
                let j = choose|j: int| 0 <= j < all.len() && (#[trigger] all[j]).attr_id == id;
                let y = choose|y: int|
                    0 <= y < list@.len() && (#[trigger] list@[y]).attr_id == all[j].attr_id;
                assert(list@[y].attr_id == id);
            }
            if row_has(rows@, id) {
                let y = choose|y: int|
                    0 <= y < list@.len() && (#[trigger] list@[y]).attr_id == id;
                assert(part_has(all, list@[y].attr_id));
            }
        }
    }
    rows
}

/// Whether the sums that are shown of `mods` fit 32 bits: of each attribute, of all values, and of
/// those that count.
pub open spec fn sums_fit(mods: Seq<ModuleView>, soft: Seq<i32>) -> bool {
    &&& forall|id: i32| i32::MIN <= #[trigger] attr_total(mods, id) <= i32::MAX
    &&& i32::MIN <= value_sum(mods) <= i32::MAX
    &&& i32::MIN <= listed_total(mods, soft, false) <= i32::MAX
}

/// Of values that are not negative, all sums fit where the largest does.
pub proof fn lemma_sums_fit(mods: Seq<ModuleView>, soft: Seq<i32>)
    requires
        no_negative(mods),
        value_sum(mods) <= i32::MAX,
    ensures
        sums_fit(mods, soft),
{
    let all = flat(mods);
    lemma_flat_values(mods);
    lemma_flat(mods, 0, Seq::empty());
    lemma_flat(mods, 0, soft);
    assert(all.take(all.len() as int) =~= all);
    lemma_listed_sum_take(all, soft, all.len() as int);
    assert forall|id: i32| i32::MIN <= #[trigger] attr_total(mods, id) <= i32::MAX by {
        lemma_flat(mods, id, soft);
        lemma_part_sum_bound(all, id, all.len() as int);
    }
}

/// Whether no value of `mods` is negative.
pub open spec fn no_negative(mods: Seq<ModuleView>) -> bool {
    forall|i: int, j: int|
        0 <= i < mods.len() && 0 <= j < mods[i].parts.len() ==> (
        #[trigger] mods[i].parts[j]).value >= 0
}

proof fn lemma_flat_values(mods: Seq<ModuleView>)
    requires
        no_negative(mods),
    ensures
        forall|x: int| 0 <= x < flat(mods).len() ==> (#[trigger] flat(mods)[x]).value >= 0,
    decreases mods.len(),
{
    if mods.len() > 0 {
        let m = mods.drop_last();
        assert(no_negative(m)) by {
            assert forall|i: int, j: int| 0 <= i < m.len() && 0 <= j < m[i].parts.len() implies (
            #[trigger] m[i].parts[j]).value >= 0 by {
                assert(mods[i].parts[j].value >= 0);
            }
        }
        lemma_flat_values(m);
        assert forall|x: int| 0 <= x < flat(mods).len() implies (#[trigger] flat(mods)[x]).value
            >= 0 by {
            if x < flat(m).len() {
                assert(flat(mods)[x] == flat(m)[x]);
            } else {
                assert(flat(mods)[x] == mods[mods.len() - 1].parts[x - flat(m).len()]);
            }
        }
    }
}

proof fn lemma_listed_sum_take(parts: Seq<PartView>, ids: Seq<i32>, j: int)
    requires
        0 <= j <= parts.len(),
        forall|x: int| 0 <= x < parts.len() ==> (#[trigger] parts[x]).value >= 0,
    ensures
        0 <= listed_sum(parts.take(j), ids, false) <= listed_sum(parts, Seq::empty(), false),
    decreases parts.len(),
{
    if parts.len() > 0 {
        let p = parts.drop_last();
        assert forall|x: int| 0 <= x < p.len() implies (#[trigger] p[x]).value >= 0 by {
            assert(p[x] == parts[x]);
        }
        assert(parts[parts.len() - 1].value >= 0);
        assert(!Seq::<i32>::empty().contains(parts.last().attr_id));
        if j < parts.len() {
            lemma_listed_sum_take(p, ids, j);
            assert(p.take(j) =~= parts.take(j));
        } else {
            lemma_listed_sum_take(p, ids, j - 1);
            assert(p.take(j - 1) =~= p);
            assert(parts.take(j) =~= parts);
        }
    } else {
        assert(parts.take(j) =~= parts);
    }
}

/// The sum of the values whose attribute is not among `skip`.
fn sum_values(mods: &Vec<Module>, skip: &[i32]) -> (sum: i32)
    requires
        i32::MIN <= listed_total(module_views(mods@), skip@, false) <= i32::MAX,
    ensures
        sum == listed_total(module_views(mods@), skip@, false),
{
    let ghost views = module_views(mods@);
    let ghost all = flat(views);
    let ghost ids = skip@;
    proof {
        lemma_flat(views, 0, ids);
        lemma_wrapped_fits(0);
    }
    let mut sum: i32 = 0;
    let mut i: usize = 0;
    assert(views.take(0) =~= Seq::<ModuleView>::empty());
    while i < mods.len()
        invariant
            i <= mods@.len(),
            views == module_views(mods@),
            all == flat(views),
            ids == skip@,
            sum == wrapped(listed_sum(flat(views.take(i as int)), ids, false)),
        decreases mods@.len() - i,
    {
        let m: &Module = &mods[i];
        let ghost start = flat(views.take(i as int));
        let ghost parts = views[i as int].parts;
        let mut j: usize = 0;
        assert(start + parts.take(0) =~= start);
        while j < m.parts.len()
            invariant
                i < mods@.len(),
                j <= m.parts@.len(),
                views == module_views(mods@),
                all == flat(views),
                ids == skip@,
                parts == m@.parts,
                parts == views[i as int].parts,
                start == flat(views.take(i as int)),
                sum == wrapped(listed_sum(start + parts.take(j as int), ids, false)),
            decreases m.parts@.len() - j,
        {
            let ghost more = start + parts.take(j + 1);
            proof {
                lemma_flat_take(views, i as int, j as int);
                lemma_flat_take(views, i as int, j + 1);
                assert(more.drop_last() =~= start + parts.take(j as int));
                assert(more.last() == m.parts@[j as int]@);
            }
            if !contains_id(skip, m.parts[j].attr_id) {
                sum = add_wrapped(
                    sum,
                    m.parts[j].value,
                    Ghost(listed_sum(start + parts.take(j as int), ids, false)),
                );
            }
            j += 1;
        }
        proof {
            assert(parts.take(j as int) =~= parts);
            assert(views.take(i + 1).drop_last() =~= views.take(i as int));
            assert(views.take(i + 1).last() == views[i as int]);
        }
        i += 1;
    }
    proof {
        assert(views.take(i as int) =~= views);
        lemma_wrapped_fits(listed_total(views, ids, false));
    }
    sum
}

/// Whether a row counts: it is not left out, is a target where that is asked, and its level lies
/// in `lo..=hi`.
pub open spec fn row_counts(row: RowView, only_selected: bool, lo: int, hi: int) -> bool {
    !row.soft_excluded && (only_selected ==> row.selected) && lo <= row.level <= hi
}

/// Counts rows.
fn count_rows(rows: &Vec<AttrBreakdown>, only_selected: bool, lo: usize, hi: usize) -> (count:
    usize)
    ensures
        count == count_where(
            rows@.len(),
            |i: int| row_counts(rows@[i]@, only_selected, lo as int, hi as int),
        ),
        count <= rows@.len(),
{
    let ghost f = |i: int| row_counts(rows@[i]@, only_selected, lo as int, hi as int);
    let mut count: usize = 0;
    let mut i: usize = 0;
    while i < rows.len()
        invariant
            i <= rows@.len(),
            f == (|i: int| row_counts(rows@[i]@, only_selected, lo as int, hi as int)),
            count <= i,
            count == count_where(i as nat, f),
        decreases rows@.len() - i,
    {
        let row: &AttrBreakdown = &rows[i];
        assert(count_where((i + 1) as nat, f) == count + (if f(i as int) {
            1nat
        } else {
            0nat
        }));
        if !row.soft_excluded && (!only_selected || row.selected) && lo <= row.level && row.level
            <= hi {
            count += 1;
        }
        i += 1;
    }
    count
}

/// The number of rows that count is the number of attributes that do.
pub proof fn lemma_rows_count(
    rows: Seq<AttrBreakdown>,
    mods: Seq<ModuleView>,
    selected: Seq<i32>,
    soft: Seq<i32>,
    only_selected: bool,
    lo: int,
    hi: int,
    f: spec_fn(i32, int) -> bool,
)
    requires
        is_breakdown(rows, mods, selected, soft),
        lo >= 1,
        forall|id: i32, lv: int| #[trigger]
            f(id, lv) == ((only_selected ==> selected.contains(id)) && lo <= lv <= hi),
    ensures
        attrs_at(mods, soft, f).len() == count_where(
            rows.len(),
            |i: int| row_counts(rows[i]@, only_selected, lo, hi),
        ),
{
    let ids = Seq::new(rows.len(), |i: int| rows[i].attr_id);
    let set = attrs_at(mods, soft, f);
    assert(ids.no_duplicates()) by {
        assert forall|i: int, j: int| 0 <= i < ids.len() && 0 <= j < ids.len() && i
            != j implies ids[i] != ids[j] by {
            if i < j {
                assert(rows[i].attr_id != rows[j].attr_id);
            } else {
                assert(rows[j].attr_id != rows[i].attr_id);
            }
        }
    }
    assert(ids.take(ids.len() as int) =~= ids);
    assert forall|id: i32| #[trigger] set.contains(id) implies ids.contains(id) by {
        lemma_flat(mods, id, soft);
        if !has_attr(mods, id) {
            lemma_no_part_no_sum(flat(mods), id);
            assert(f(id, level(attr_total(mods, id))));
        } else {
            let i = choose|i: int| 0 <= i < rows.len() && (#[trigger] rows[i]).attr_id == id;
            assert(ids[i] == id);
        }
    }
    lemma_set_count(ids, set, ids.len());
    assert forall|i: int| 0 <= i < rows.len() implies set.contains(#[trigger] ids[i]) == row_counts(
        rows[i]@,
        only_selected,
        lo,
        hi,
    ) by {
        assert(rows[i]@ == row_of(mods, selected, soft, rows[i].attr_id));
        assert(f(ids[i], level(attr_total(mods, ids[i]))) == ((only_selected ==> selected.contains(
            ids[i],
        )) && lo <= level(attr_total(mods, ids[i])) <= hi));
    }
    lemma_count_same(
        rows.len(),
        |a: int| set.contains(ids[a]),
        |i: int| row_counts(rows[i]@, only_selected, lo, hi),
    );
}

/// No count exceeds the number of rows.
pub open spec fn counts_rows(s: Solution) -> bool {
    &&& s.lv6_count <= s.breakdown@.len()
    &&& s.lv5_count <= s.breakdown@.len()
    &&& s.selected_lv6 <= s.breakdown@.len()
    &&& s.selected_present <= s.breakdown@.len()
}

/// Shows a combination of modules.
pub fn build_solution(mods: Vec<Module>, selected_ids: &[i32], soft_exclude_ids: &[i32]) -> (s:
    Solution)
    requires
        sums_fit(module_views(mods@), soft_exclude_ids@),
    ensures
        is_solution(s, module_views(mods@), selected_ids@, soft_exclude_ids@),
        counts_rows(s),
{
    let ghost views = module_views(mods@);
    let ghost sel = selected_ids@;
    let ghost soft = soft_exclude_ids@;
    let breakdown: Vec<AttrBreakdown> = breakdown_of(&mods, selected_ids, soft_exclude_ids);
    let lv6_count: usize = count_rows(&breakdown, false, 6, 6);
    let lv5_count: usize = count_rows(&breakdown, false, 5, 5);
    let selected_lv6: usize = count_rows(&breakdown, true, 6, 6);
    let selected_present: usize = count_rows(&breakdown, true, 1, 6);
    let eval_link: i32 = sum_values(&mods, soft_exclude_ids);
    let none: Vec<i32> = Vec::new();
    assert(none@ =~= Seq::<i32>::empty());
    let link_effect: i32 = sum_values(&mods, none.as_slice());
    proof {
        let rows = breakdown@;
        let f1 = |id: i32, lv: int| sel.contains(id) && lv >= 1;
        let g1 = |id: i32, lv: int| sel.contains(id) && 1 <= lv <= 6;
        assert(attrs_at(views, soft, f1) =~= attrs_at(views, soft, g1));
        lemma_rows_count(rows, views, sel, soft, true, 1, 6, g1);
        lemma_rows_count(rows, views, sel, soft, true, 6, 6, |id: i32, lv: int| sel.contains(id) && lv == 6);
        lemma_rows_count(rows, views, sel, soft, false, 6, 6, |id: i32, lv: int| lv == 6);
        lemma_rows_count(rows, views, sel, soft, false, 5, 5, |id: i32, lv: int| lv == 5);
    }
    Solution {
        modules: mods,
        link_effect,
        eval_link,
        lv6_count,
        lv5_count,
        selected_lv6,
        selected_present,
        breakdown,
    }
}

} // verus!
