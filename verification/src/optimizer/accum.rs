//! Incremental ranking totals of a growing and shrinking choice of modules.

use crate::optimizer::levels::{level, level_of};
use crate::optimizer::sums::{count_where, lemma_count_change, lemma_count_le, lemma_count_same};
use vstd::prelude::*;

verus! {

/// How solutions with the same number of level 6 attributes are ranked.
#[derive(Debug, Clone, Copy, PartialEq, Eq, Structural)]
pub enum RankMode {
    /// The counted value sum comes before the number of level 5 attributes.
    Link,
    /// The number of level 5 attributes comes before the counted value sum.
    Lv5,
}

impl Default for RankMode {
    fn default() -> (mode: RankMode)
        ensures
            mode == RankMode::Link,
    {
        RankMode::Link
    }
}

impl RankMode {
    /// The name of the mode in requests.
    pub open spec fn name(self) -> Seq<char> {
        match self {
            RankMode::Link => "link"@,
            RankMode::Lv5 => "lv5"@,
        }
    }

    /// The name of the mode in requests.
    pub fn as_str(&self) -> (text: &'static str)
        ensures
            text@ == self.name(),
    {
        match self {
            RankMode::Link => "link",
            RankMode::Lv5 => "lv5",
        }
    }

    /// The mode with this name.
    pub fn from_name(text: &str) -> (mode: Option<RankMode>)
        ensures
            mode is None <==> text@ != RankMode::Link.name() && text@ != RankMode::Lv5.name(),
            mode matches Some(m) ==> text@ == m.name(),
    {
        let text: String = text.to_owned();
        if text == "link".to_owned() {
            Some(RankMode::Link)
        } else if text == "lv5".to_owned() {
            Some(RankMode::Lv5)
        } else {
            None
        }
    }
}

/// What a choice of modules achieves.
pub struct Score {
    /// Target attributes that are present (level 1 or more).
    pub present: int,
    /// Target attributes at level 6.
    pub sel6: int,
    /// Counted attributes at level 6.
    pub lv6: int,
    /// Counted attributes at level 5.
    pub lv5: int,
    /// The sum of the counted values.
    pub link: int,
    /// The sum of the values that are left out of the ranking.
    pub excl: int,
}

/// The ranking key: larger is better, the first difference decides.
pub open spec fn key_of(s: Score, mode: RankMode) -> Seq<int> {
    match mode {
        RankMode::Link => seq![s.present, s.sel6, s.lv6, s.link, s.lv5, -s.excl],
        RankMode::Lv5 => seq![s.present, s.sel6, s.lv6, s.lv5, s.link, -s.excl],
    }
}

/// The executable ranking key.
pub type Key = [i64; 6];

/// A key as integers.
pub open spec fn key_view(key: Key) -> Seq<int> {
    Seq::new(6, |i: int| key[i] as int)
}

/// What one candidate adds: pairs of a dense attribute index and a value.
pub struct Cand {
    pub parts: Vec<(u32, i32)>,
}

impl Cand {
    /// A copy with the same parts.
    pub fn duplicate(&self) -> (copy: Cand)
        ensures
            copy.parts@ == self.parts@,
    {
        let mut parts: Vec<(u32, i32)> = Vec::new();
        let mut i: usize = 0;
        while i < self.parts.len()
            invariant
                i <= self.parts.len(),
                parts@ == self.parts@.take(i as int),
            decreases self.parts.len() - i,
        {
            parts.push(self.parts[i]);
            i += 1;
            assert(parts@ =~= self.parts@.take(i as int));
        }
        assert(self.parts@.take(i as int) =~= self.parts@);
        Cand { parts }
    }
}

/// The sum of the values that `parts` hold for attribute `a`.
pub open spec fn attr_sum(parts: Seq<(u32, i32)>, a: int) -> int
    decreases parts.len(),
{
    if parts.len() == 0 {
        0
    } else {
        attr_sum(parts.drop_last(), a) + if parts.last().0 == a {
            parts.last().1 as int
        } else {
            0
        }
    }
}

/// The sum of the values whose attribute has the mark `flag` in `soft`.
pub open spec fn marked_sum(parts: Seq<(u32, i32)>, soft: Seq<bool>, flag: bool) -> int
    decreases parts.len(),
{
    if parts.len() == 0 {
        0
    } else {
        marked_sum(parts.drop_last(), soft, flag) + if soft[parts.last().0 as int] == flag {
            parts.last().1 as int
        } else {
            0
        }
    }
}

/// The counted total of attribute `a`: attributes that are left out of the ranking stay at 0.
pub open spec fn counted(parts: Seq<(u32, i32)>, soft: Seq<bool>, a: int) -> int {
    if soft[a] {
        0
    } else {
        attr_sum(parts, a)
    }
}

/// Parts with indices below `n_attr` and values that are not negative.
pub open spec fn parts_ok(parts: Seq<(u32, i32)>, n_attr: int) -> bool {
    forall|j: int| 0 <= j < parts.len() ==> (#[trigger] parts[j]).0 < n_attr && parts[j].1 >= 0
}

pub proof fn lemma_attr_sum_bounds(parts: Seq<(u32, i32)>, soft: Seq<bool>, n_attr: int)
    requires
        parts_ok(parts, n_attr),
    ensures
        forall|a: int| #![trigger attr_sum(parts, a)] 0 <= attr_sum(parts, a),
        forall|a: int|
            #![trigger attr_sum(parts, a)]
            attr_sum(parts, a) <= marked_sum(parts, soft, soft[a]),
        0 <= marked_sum(parts, soft, true),
        0 <= marked_sum(parts, soft, false),
    decreases parts.len(),
{
    if parts.len() > 0 {
        let q = parts.drop_last();
        assert forall|j: int| 0 <= j < q.len() implies (#[trigger] q[j]).0 < n_attr && q[j].1
            >= 0 by {
            assert(q[j] == parts[j]);
        }
        assert(parts[parts.len() - 1].1 >= 0);
        lemma_attr_sum_bounds(q, soft, n_attr);
        assert forall|a: int| #![trigger attr_sum(parts, a)] 0 <= attr_sum(parts, a) by {
            assert(0 <= attr_sum(q, a));
        }
        assert forall|a: int| #![trigger attr_sum(parts, a)]
            attr_sum(parts, a) <= marked_sum(parts, soft, soft[a]) by {
            assert(attr_sum(q, a) <= marked_sum(q, soft, soft[a]));
            assert(0 <= marked_sum(q, soft, soft[a]));
        }
    }
}

/// The sums of the first parts never exceed the sums of all.
pub proof fn lemma_attr_sum_prefix(parts: Seq<(u32, i32)>, soft: Seq<bool>, n_attr: int, j: int)
    requires
        parts_ok(parts, n_attr),
        0 <= j <= parts.len(),
    ensures
        forall|a: int|
            #![trigger attr_sum(parts.take(j), a)]
            attr_sum(parts.take(j), a) <= attr_sum(parts, a),
        marked_sum(parts.take(j), soft, true) <= marked_sum(parts, soft, true),
        marked_sum(parts.take(j), soft, false) <= marked_sum(parts, soft, false),
    decreases parts.len(),
{
    if j == parts.len() {
        assert(parts.take(j) =~= parts);
    } else {
        let q = parts.drop_last();
        assert forall|i: int| 0 <= i < q.len() implies (#[trigger] q[i]).0 < n_attr && q[i].1
            >= 0 by {
            assert(q[i] == parts[i]);
        }
        assert(q.take(j) =~= parts.take(j));
        lemma_attr_sum_prefix(q, soft, n_attr, j);
        assert(parts[parts.len() - 1].1 >= 0);
        assert forall|a: int| #![trigger attr_sum(parts.take(j), a)]
            attr_sum(parts.take(j), a) <= attr_sum(parts, a) by {
            assert(attr_sum(q.take(j), a) <= attr_sum(q, a));
        }
    }
}

/// The sum of the values of a candidate whose attribute has the mark `flag`.
pub fn sum_marked(cand: &Cand, soft_excl_mask: &Vec<bool>, n_attr: usize, flag: bool) -> (sum: i32)
    requires
        parts_ok(cand.parts@, n_attr as int),
        soft_excl_mask@.len() == n_attr,
        marked_sum(cand.parts@, soft_excl_mask@, flag) <= i32::MAX,
    ensures
        sum == marked_sum(cand.parts@, soft_excl_mask@, flag),
{
    let ghost parts = cand.parts@;
    let ghost soft = soft_excl_mask@;
    let mut sum: i32 = 0;
    let mut j: usize = 0;
    assert(parts.take(0) =~= Seq::<(u32, i32)>::empty());
    while j < cand.parts.len()
        invariant
            j <= parts.len(),
            parts == cand.parts@,
            soft == soft_excl_mask@,
            soft.len() == n_attr,
            parts_ok(parts, n_attr as int),
            marked_sum(parts, soft, flag) <= i32::MAX,
            sum >= 0,
            sum == marked_sum(parts.take(j as int), soft, flag),
        decreases parts.len() - j,
    {
        proof {
            lemma_attr_sum_prefix(parts, soft, n_attr as int, j + 1);
            assert(parts.take(j + 1).drop_last() =~= parts.take(j as int));
            assert(parts.take(j + 1).last() == parts[j as int]);
            assert(parts[j as int].1 >= 0);
        }
        let part: (u32, i32) = cand.parts[j];
        if soft_excl_mask[part.0 as usize] == flag {
            sum += part.1;
        }
        j += 1;
    }
    assert(parts.take(j as int) =~= parts);
    sum
}

/// The score of the counted totals `totals`.
pub open spec fn score_of(totals: Seq<int>, sel: Seq<bool>, link: int, excl: int) -> Score {
    Score {
        present: count_where(totals.len(), |a: int| sel[a] && level(totals[a]) >= 1) as int,
        sel6: count_where(totals.len(), |a: int| sel[a] && level(totals[a]) == 6) as int,
        lv6: count_where(totals.len(), |a: int| level(totals[a]) == 6) as int,
        lv5: count_where(totals.len(), |a: int| level(totals[a]) == 5) as int,
        link,
        excl,
    }
}

/// Ranking totals that follow a choice of candidates as they are added and removed.
pub struct Accum {
    /// The counted total of each attribute.
    pub totals: Vec<i32>,
    pub lv6: usize,
    pub lv5: usize,
    pub sel_lv6: usize,
    pub sel_present: usize,
    pub eval_link: i32,
    pub excl: i32,
}

impl Accum {
    /// The totals as integers.
    pub open spec fn total_ints(self) -> Seq<int> {
        Seq::new(self.totals@.len(), |a: int| self.totals@[a] as int)
    }

    /// The score that the tallies stand for.
    pub open spec fn score(self) -> Score {
        Score {
            present: self.sel_present as int,
            sel6: self.sel_lv6 as int,
            lv6: self.lv6 as int,
            lv5: self.lv5 as int,
            link: self.eval_link as int,
            excl: self.excl as int,
        }
    }

    /// The tallies are those of the totals, and nothing is negative.
    pub open spec fn wf(self, sel: Seq<bool>, soft: Seq<bool>) -> bool {
        &&& sel.len() == self.totals@.len()
        &&& soft.len() == self.totals@.len()
        &&& forall|a: int|
            0 <= a < self.totals@.len() ==> 0 <= #[trigger] self.totals@[a]
        &&& self.eval_link >= 0
        &&& self.excl >= 0
        &&& self.score() == score_of(
            self.total_ints(),
            sel,
            self.eval_link as int,
            self.excl as int,
        )
    }

    /// Whether adding `parts` keeps every total within 32 bits.
    pub open spec fn can_add(self, parts: Seq<(u32, i32)>, soft: Seq<bool>) -> bool {
        &&& self.eval_link + marked_sum(parts, soft, false) <= i32::MAX
        &&& self.excl + marked_sum(parts, soft, true) <= i32::MAX
        &&& forall|a: int|
            0 <= a < self.totals@.len() ==> #[trigger] self.totals@[a] + counted(parts, soft, a)
                <= i32::MAX
    }

    /// Whether the totals hold at least what `parts` add.
    pub open spec fn can_remove(self, parts: Seq<(u32, i32)>, soft: Seq<bool>) -> bool {
        &&& self.eval_link >= marked_sum(parts, soft, false)
        &&& self.excl >= marked_sum(parts, soft, true)
        &&& forall|a: int|
            0 <= a < self.totals@.len() ==> #[trigger] self.totals@[a] >= counted(parts, soft, a)
    }

    /// `self` is `before` with the sums of `parts` taken `sign` times.
    pub open spec fn moved(
        self,
        before: Accum,
        parts: Seq<(u32, i32)>,
        soft: Seq<bool>,
        sign: int,
    ) -> bool {
        &&& self.totals@.len() == before.totals@.len()
        &&& forall|a: int|
            0 <= a < self.totals@.len() ==> #[trigger] self.totals@[a] == before.totals@[a] + sign
                * counted(parts, soft, a)
        &&& self.eval_link == before.eval_link + sign * marked_sum(parts, soft, false)
        &&& self.excl == before.excl + sign * marked_sum(parts, soft, true)
    }

    /// Totals of the empty choice over `n_attr` attributes.
    pub fn new(n_attr: usize) -> (acc: Accum)
        ensures
            acc.totals@ == Seq::new(n_attr as nat, |a: int| 0i32),
            acc.eval_link == 0,
            acc.excl == 0,
            forall|sel: Seq<bool>, soft: Seq<bool>|
                sel.len() == n_attr && soft.len() == n_attr ==> #[trigger] acc.wf(sel, soft),
    {
        let totals: Vec<i32> = vec![0i32; n_attr];
        let acc = Accum {
            totals,
            lv6: 0,
            lv5: 0,
            sel_lv6: 0,
            sel_present: 0,
            eval_link: 0,
            excl: 0,
        };
        proof {
            assert forall|sel: Seq<bool>, soft: Seq<bool>|
                sel.len() == n_attr && soft.len() == n_attr implies #[trigger] acc.wf(
                sel,
                soft,
            ) by {
                let t = acc.total_ints();
                let n = n_attr as nat;
                let none = |a: int| false;
                lemma_count_none(n);
                lemma_count_same(n, |a: int| sel[a] && level(t[a]) >= 1, none);
                lemma_count_same(n, |a: int| sel[a] && level(t[a]) == 6, none);
                lemma_count_same(n, |a: int| level(t[a]) == 6, none);
                lemma_count_same(n, |a: int| level(t[a]) == 5, none);
            }
        }
        acc
    }

    /// Puts the new total `new` of attribute `idx` in place and moves the tallies along.
    fn set_total(&mut self, idx: usize, new: i32, selected_mask: &[bool], soft: Ghost<Seq<bool>>)
        requires
            old(self).wf(selected_mask@, soft@),
            idx < old(self).totals@.len(),
            new >= 0,
        ensures
            final(self).wf(selected_mask@, soft@),
            final(self).totals@ == old(self).totals@.update(idx as int, new),
            final(self).eval_link == old(self).eval_link,
            final(self).excl == old(self).excl,
    {
        let cur: i32 = self.totals[idx];
        let cur_lv: usize = level_of(cur);
        let new_lv: usize = level_of(new);
        let ghost sel = selected_mask@;
        let n_attr: usize = self.totals.len();
        let ghost n = n_attr as nat;
        let ghost t0 = self.total_ints();
        let ghost t1 = t0.update(idx as int, new as int);
        proof {
            let i = idx as int;
            lemma_count_change(
                n,
                |a: int| sel[a] && level(t0[a]) >= 1,
                |a: int| sel[a] && level(t1[a]) >= 1,
                i,
            );
            lemma_count_change(
                n,
                |a: int| sel[a] && level(t0[a]) == 6,
                |a: int| sel[a] && level(t1[a]) == 6,
                i,
            );
            lemma_count_change(n, |a: int| level(t0[a]) == 6, |a: int| level(t1[a]) == 6, i);
            lemma_count_change(n, |a: int| level(t0[a]) == 5, |a: int| level(t1[a]) == 5, i);
            lemma_count_le(n, |a: int| sel[a] && level(t1[a]) >= 1);
            lemma_count_le(n, |a: int| sel[a] && level(t1[a]) == 6);
            lemma_count_le(n, |a: int| level(t1[a]) == 6);
            lemma_count_le(n, |a: int| level(t1[a]) == 5);
        }
        if new_lv != cur_lv {
            if cur_lv == 6 {
                self.lv6 -= 1;
            } else if cur_lv == 5 {
                self.lv5 -= 1;
            }
            if new_lv == 6 {
                self.lv6 += 1;
            } else if new_lv == 5 {
                self.lv5 += 1;
            }
            if selected_mask[idx] {
                if cur_lv == 6 {
                    self.sel_lv6 -= 1;
                }
                if new_lv == 6 {
                    self.sel_lv6 += 1;
                }
                if cur_lv == 0 {
                    self.sel_present += 1;
                }
                if new_lv == 0 {
                    self.sel_present -= 1;
                }
            }
        }
        self.totals.set(idx, new);
        assert(self.total_ints() =~= t1);
    }

    /// Adds a candidate. Attributes in `soft_excl_mask` only move the left-out sum.
    pub fn add(&mut self, cand: &Cand, selected_mask: &[bool], soft_excl_mask: &[bool])
        requires
            old(self).wf(selected_mask@, soft_excl_mask@),
            parts_ok(cand.parts@, old(self).totals@.len() as int),
            old(self).can_add(cand.parts@, soft_excl_mask@),
        ensures
            final(self).wf(selected_mask@, soft_excl_mask@),
            final(self).moved(*old(self), cand.parts@, soft_excl_mask@, 1),
    {
        let ghost parts = cand.parts@;
        let ghost soft = soft_excl_mask@;
        let ghost n = self.totals@.len() as int;
        let ghost before = *self;
        let mut j: usize = 0;
        assert(parts.take(0) =~= Seq::<(u32, i32)>::empty());
        while j < cand.parts.len()
            invariant
                j <= parts.len(),
                parts == cand.parts@,
                soft == soft_excl_mask@,
                n == before.totals@.len(),
                before == *old(self),
                parts_ok(parts, n),
                before.can_add(parts, soft),
                self.wf(selected_mask@, soft),
                self.moved(before, parts.take(j as int), soft, 1),
            decreases parts.len() - j,
        {
            let part: (u32, i32) = cand.parts[j];
            let idx: usize = part.0 as usize;
            let val: i32 = part.1;
            let ghost done = parts.take(j as int);
            let ghost more = parts.take(j + 1);
            let ghost prev = *self;
            proof {
                assert(parts[j as int].1 >= 0);
                assert(more.drop_last() =~= done);
                assert(more.last() == part);
                lemma_attr_sum_prefix(parts, soft, n, j + 1);
                assert(attr_sum(more, idx as int) <= attr_sum(parts, idx as int));
                assert(before.totals@[idx as int] + counted(parts, soft, idx as int) <= i32::MAX);
            }
            if soft_excl_mask[idx] {
                self.excl += val;
                assert(self.total_ints() =~= prev.total_ints());
            } else {
                let old_total: i32 = self.totals[idx];
                self.set_total(idx, old_total + val, selected_mask, Ghost(soft));
                let ghost mid = *self;
                self.eval_link += val;
                assert(self.total_ints() =~= mid.total_ints());
            }
            j += 1;
        }
        assert(parts.take(j as int) =~= parts);
    }

    /// Takes a candidate out again.
    pub fn remove(&mut self, cand: &Cand, selected_mask: &[bool], soft_excl_mask: &[bool])
        requires
            old(self).wf(selected_mask@, soft_excl_mask@),
            parts_ok(cand.parts@, old(self).totals@.len() as int),
            old(self).can_remove(cand.parts@, soft_excl_mask@),
        ensures
            final(self).wf(selected_mask@, soft_excl_mask@),
            final(self).moved(*old(self), cand.parts@, soft_excl_mask@, -1),
    {
        let ghost parts = cand.parts@;
        let ghost soft = soft_excl_mask@;
        let ghost n = self.totals@.len() as int;
        let ghost before = *self;
        let mut j: usize = 0;
        assert(parts.take(0) =~= Seq::<(u32, i32)>::empty());
        while j < cand.parts.len()
            invariant
                j <= parts.len(),
                parts == cand.parts@,
                soft == soft_excl_mask@,
                n == before.totals@.len(),
                before == *old(self),
                parts_ok(parts, n),
                before.can_remove(parts, soft),
                self.wf(selected_mask@, soft),
                self.moved(before, parts.take(j as int), soft, -1),
            decreases parts.len() - j,
        {
            let part: (u32, i32) = cand.parts[j];
            let idx: usize = part.0 as usize;
            let val: i32 = part.1;
            let ghost done = parts.take(j as int);
            let ghost more = parts.take(j + 1);
            let ghost prev = *self;
            proof {
                assert(parts[j as int].1 >= 0);
                assert(more.drop_last() =~= done);
                assert(more.last() == part);
                lemma_attr_sum_prefix(parts, soft, n, j + 1);
                assert(attr_sum(more, idx as int) <= attr_sum(parts, idx as int));
                assert(before.totals@[idx as int] >= counted(parts, soft, idx as int));
            }
            if soft_excl_mask[idx] {
                self.excl -= val;
                assert(self.total_ints() =~= prev.total_ints());
            } else {
                let cur: i32 = self.totals[idx];
                self.set_total(idx, cur - val, selected_mask, Ghost(soft));
                let ghost mid = *self;
                self.eval_link -= val;
                assert(self.total_ints() =~= mid.total_ints());
            }
            j += 1;
        }
        assert(parts.take(j as int) =~= parts);
    }

    /// The ranking key of the current choice.
    pub fn key(&self, mode: RankMode) -> (key: Key)
        requires
            self.totals@.len() <= i64::MAX,
            self.lv6 <= self.totals@.len(),
            self.lv5 <= self.totals@.len(),
            self.sel_lv6 <= self.totals@.len(),
            self.sel_present <= self.totals@.len(),
        ensures
            key_view(key) == key_of(self.score(), mode),
    {
        let sel_present: i64 = self.sel_present as i64;
        let sel_lv6: i64 = self.sel_lv6 as i64;
        let lv6: i64 = self.lv6 as i64;
        let lv5: i64 = self.lv5 as i64;
        let eval_link: i64 = self.eval_link as i64;
        let neg_excl: i64 = -(self.excl as i64);
        let key: Key = match mode {
            RankMode::Link => [sel_present, sel_lv6, lv6, eval_link, lv5, neg_excl],
            RankMode::Lv5 => [sel_present, sel_lv6, lv6, lv5, eval_link, neg_excl],
        };
        assert(key_view(key) =~= key_of(self.score(), mode));
        key
    }
}

pub proof fn lemma_count_none(n: nat)
    ensures
        count_where(n, |a: int| false) == 0,
    decreases n,
{
    if n > 0 {
        lemma_count_none((n - 1) as nat);
    }
}

/// Each mode has a name of its own.
pub proof fn law_mode_names(a: RankMode, b: RankMode)
    ensures
        a.name() == b.name() <==> a == b,
        a.name() == (if a is Link {
            seq!['l', 'i', 'n', 'k']
        } else {
            seq!['l', 'v', '5']
        }),
{
    reveal_strlit("link");
    reveal_strlit("lv5");
    assert("link"@ =~= seq!['l', 'i', 'n', 'k']);
    assert("lv5"@ =~= seq!['l', 'v', '5']);
}

} // verus!
