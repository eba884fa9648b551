//! The part of the space that is searched first, for a threshold.

use crate::optimizer::accum::{attr_sum, Cand, RankMode};
use crate::optimizer::bounds::{attr_vals, marked_vals};
use crate::optimizer::bridge::{lemma_member_moves, lemma_sort_increasing};
use crate::optimizer::ranking::Entry;
use crate::optimizer::space::{
    goes_on, images, is_choice, lemma_increasing_same, SearchSpace,
};
use crate::optimizer::sums::{
    count_where, increasing, lemma_pick_sum_map, lemma_pick_sum_permute, pick_sum, within,
};
use vstd::prelude::*;

verus! {

/// How many of the first candidates in search order belong to the seed.
pub const SEED_TOP_BY_WEIGHT: usize = 60;

/// How many candidates with the largest total of a required attribute belong to the seed.
pub const SEED_TOP_PER_REQUIRED_ATTR: usize = 10;

/// Whether candidate `q` comes before candidate `p` by the total of attribute `a`: the larger
/// total first, then the earlier position.
pub open spec fn ahead_by_attr(cands: Seq<Cand>, a: int, q: int, p: int) -> bool {
    let vq = attr_sum(cands[q].parts@, a);
    let vp = attr_sum(cands[p].parts@, a);
    vq > vp || (vq == vp && q < p)
}

/// Whether fewer than ten candidates come before `p` by the total of attribute `a`.
pub open spec fn leads_attr(cands: Seq<Cand>, a: int, p: int) -> bool {
    count_where(cands.len(), |q: int| ahead_by_attr(cands, a, q, p)) < SEED_TOP_PER_REQUIRED_ATTR
}

/// Whether position `p` belongs to the seed.
pub open spec fn is_seed(space: SearchSpace, p: int) -> bool {
    p < SEED_TOP_BY_WEIGHT || exists|j: int|
        0 <= j < space.required_idxs@.len() && leads_attr(
            space.cands@,
            (#[trigger] space.required_idxs@[j]).0 as int,
            p,
        )
}

/// The total of attribute `a` in a candidate.
fn total_of_attr(cand: &Cand, a: usize) -> (v: i128)
    ensures
        v == attr_sum(cand.parts@, a as int),
{
    let ghost parts = cand.parts@;
    let n: usize = cand.parts.len();
    let mut sum: i128 = 0;
    assert(parts.take(0) =~= Seq::<(u32, i32)>::empty());
    for j in 0..n
        invariant
            n == parts.len(),
            parts == cand.parts@,
            sum == attr_sum(parts.take(j as int), a as int),
            -(j as int) * 0x8000_0000 <= sum <= (j as int) * 0x8000_0000,
    {
        assert(parts.take(j + 1).drop_last() =~= parts.take(j as int));
        let part: (u32, i32) = cand.parts[j];
        if part.0 as usize == a {
            sum = sum + part.1 as i128;
        }
    }
    assert(parts.take(n as int) =~= parts);
    sum
}

/// Whether fewer than ten candidates come before position `p`.
fn leads(values: &Vec<i128>, p: usize, Ghost(cands): Ghost<Seq<Cand>>, Ghost(a): Ghost<int>) -> (b: bool)
    requires
        p < values@.len(),
        values@.len() == cands.len(),
        forall|q: int|
            0 <= q < values@.len() ==> #[trigger] values@[q] == attr_sum(cands[q].parts@, a),
    ensures
        b == leads_attr(cands, a, p as int),
{
    let ghost f = |q: int| ahead_by_attr(cands, a, q, p as int);
    let mut count: usize = 0;
    let mut q: usize = 0;
    while q < values.len()
        invariant
            q <= values@.len(),
            p < values@.len(),
            values@.len() == cands.len(),
            forall|q: int|
                0 <= q < values@.len() ==> #[trigger] values@[q] == attr_sum(
                    cands[q].parts@,
                    a,
                ),
            f == (|q: int| ahead_by_attr(cands, a, q, p as int)),
            count <= q,
            count == count_where(q as nat, f),
        decreases values@.len() - q,
    {
        assert(count_where((q + 1) as nat, f) == count + (if f(q as int) {
            1nat
        } else {
            0nat
        }));
        assert(values@[p as int] == attr_sum(cands[p as int].parts@, a));
        if values[q] > values[p] || (values[q] == values[p] && q < p) {
            count += 1;
        }
        q += 1;
    }
    count < SEED_TOP_PER_REQUIRED_ATTR
}

/// The positions of the seed in increasing order: the first 60 in search order, and for each
/// required attribute the ten with its largest totals.
pub fn build_seed_positions(space: &SearchSpace) -> (positions: Vec<usize>)
    ensures
        forall|i: int, j: int| 0 <= i < j < positions@.len() ==> positions@[i] < positions@[j],
        forall|p: usize| #[trigger]
            positions@.contains(p) <==> p < space.cands@.len() && is_seed(*space, p as int),
        positions@.len() >= if space.cands@.len() < 60 {
            space.cands@.len()
        } else {
            60
        },
{
    let n: usize = space.cands.len();
    let mut marks: Vec<bool> = Vec::new();
    let mut p: usize = 0;
    while p < n
        invariant
            p <= n,
            marks@.len() == p,
            forall|x: int| 0 <= x < p ==> #[trigger] marks@[x] == (x < SEED_TOP_BY_WEIGHT),
        decreases n - p,
    {
        marks.push(p < SEED_TOP_BY_WEIGHT);
        p += 1;
    }
    let mut j: usize = 0;
    while j < space.required_idxs.len()
        invariant
            n == space.cands@.len(),
            marks@.len() == n,
            j <= space.required_idxs@.len(),
            forall|x: int|
                0 <= x < n ==> #[trigger] marks@[x] == (x < SEED_TOP_BY_WEIGHT || exists|y: int|
                    0 <= y < j && leads_attr(
                        space.cands@,
                        (#[trigger] space.required_idxs@[y]).0 as int,
                        x,
                    )),
        decreases space.required_idxs@.len() - j,
    {
        let a: usize = space.required_idxs[j].0;
        let mut values: Vec<i128> = Vec::new();
        let mut q: usize = 0;
        while q < n
            invariant
                n == space.cands@.len(),
                q <= n,
                values@.len() == q,
                forall|x: int|
                    0 <= x < q ==> #[trigger] values@[x] == attr_sum(
                        space.cands@[x].parts@,
                        a as int,
                    ),
            decreases n - q,
        {
            values.push(total_of_attr(&space.cands[q], a));
            q += 1;
        }
        let ghost before = marks@;
        let mut p: usize = 0;
        while p < n
            invariant
                n == space.cands@.len(),
                p <= n,
                values@.len() == n,
                forall|x: int|
                    0 <= x < n ==> #[trigger] values@[x] == attr_sum(
                        space.cands@[x].parts@,
                        a as int,
                    ),
                before.len() == n,
                marks@.len() == n,
                forall|x: int|
                    0 <= x < p ==> #[trigger] marks@[x] == (before[x] || leads_attr(
                        space.cands@,
                        a as int,
                        x,
                    )),
                forall|x: int| p <= x < n ==> #[trigger] marks@[x] == before[x],
            decreases n - p,
        {
            if leads(&values, p, Ghost(space.cands@), Ghost(a as int)) {
                marks.set(p, true);
            }
            p += 1;
        }
        proof {
            assert forall|x: int| 0 <= x < n implies #[trigger] marks@[x] == (x
                < SEED_TOP_BY_WEIGHT || exists|y: int|
                0 <= y < j + 1 && leads_attr(
                    space.cands@,
                    (#[trigger] space.required_idxs@[y]).0 as int,
                    x,
                )) by {
                assert(marks@[x] == (before[x] || leads_attr(space.cands@, a as int, x)));
                if leads_attr(space.cands@, a as int, x) {
                    assert(space.required_idxs@[j as int].0 == a);
                }
            }
        }
        j += 1;
    }
    let mut positions: Vec<usize> = Vec::new();
    let mut p: usize = 0;
    while p < n
        invariant
            n == space.cands@.len(),
            p <= n,
            marks@.len() == n,
            forall|x: int| 0 <= x < n ==> #[trigger] marks@[x] == is_seed(*space, x),
            forall|x: int, y: int| 0 <= x < y < positions@.len() ==> positions@[x] < positions@[y],
            forall|x: int| 0 <= x < positions@.len() ==> #[trigger] positions@[x] < p,
            forall|x: usize| #[trigger]
                positions@.contains(x) <==> x < p && is_seed(*space, x as int),
            positions@.len() >= if p < 60 {
                p as int
            } else {
                60
            },
        decreases n - p,
    {
        let ghost before = positions@;
        if marks[p] {
            positions.push(p);
            proof {
                assert forall|x: usize| #[trigger] positions@.contains(x) <==> x < p + 1 && is_seed(
                    *space,
                    x as int,
                ) by {
                    if positions@.contains(x) {
                        let i = choose|i: int| 0 <= i < positions@.len() && positions@[i] == x;
                        if i < before.len() {
                            assert(before[i] == x);
                            assert(before.contains(x));
                        }
                    }
                    if before.contains(x) {
                        let i = choose|i: int| 0 <= i < before.len() && before[i] == x;
                        assert(positions@[i] == x);
                    }
                    if x == p {
                        assert(positions@[before.len() as int] == p);
                    }
                }
            }
        } else {
            assert(!is_seed(*space, p as int));
        }
        p += 1;
    }
    positions
}

/// The positions as integers.
pub open spec fn position_ints(positions: Seq<usize>) -> Seq<int> {
    Seq::new(positions.len(), |i: int| positions[i] as int)
}

impl SearchSpace {
    /// `sub` holds the candidates of `self` at `positions`.
    pub open spec fn has_part(self, sub: SearchSpace, positions: Seq<usize>) -> bool {
        &&& sub.cands@.len() == positions.len()
        &&& sub.order@.len() == positions.len()
        &&& forall|i: int| 0 <= i < positions.len() ==> #[trigger] positions[i] < self.cands@.len()
        &&& forall|i: int|
            0 <= i < positions.len() ==> (#[trigger] sub.cands@[i]).parts@
                == self.cands@[positions[i] as int].parts@
        &&& forall|i: int|
            0 <= i < positions.len() ==> #[trigger] sub.order@[i]
                == self.order@[positions[i] as int]
        &&& forall|i: int, j: int| 0 <= i < j < positions.len() ==> positions[i] != positions[j]
        &&& sub.n_attr == self.n_attr
        &&& sub.selected_mask@ == self.selected_mask@
        &&& sub.soft_excl_mask@ == self.soft_excl_mask@
        &&& sub.required_idxs@ == self.required_idxs@
    }

    /// A choice of a part is a choice of the whole, with the same sums.
    proof fn lemma_part_choice(self, sub: SearchSpace, positions: Seq<usize>, q: Seq<int>) -> (p: Seq<
        int,
    >)
        requires
            self.has_part(sub, positions),
            increasing(q),
            within(q, 0, positions.len() as int),
        ensures
            increasing(p),
            within(p, 0, self.cands@.len() as int),
            p.len() == q.len(),
            sub.totals(q) == self.totals(p),
            sub.link(q) == self.link(p),
            sub.left_out(q) == self.left_out(p),
            p.to_multiset() =~= images(positions, q).to_multiset(),
    {
        let im = images(positions, q);
        assert(im.no_duplicates()) by {
            assert forall|i: int, j: int| 0 <= i < im.len() && 0 <= j < im.len() && i
                != j implies im[i] != im[j] by {
                if i < j {
                    assert(q[i] < q[j]);
                    assert(positions[q[i]] != positions[q[j]]);
                } else {
                    assert(q[j] < q[i]);
                    assert(positions[q[j]] != positions[q[i]]);
                }
            }
        }
        lemma_sort_increasing(im);
        let p = im.sort();
        assert forall|i: int| 0 <= i < p.len() implies 0 <= #[trigger] p[i] < self.cands@.len() by {
            lemma_member_moves(p, im, i);
            let j = choose|j: int| 0 <= j < im.len() && im[j] == p[i];
            assert(0 <= q[j] < positions.len());
            assert(sub.cands@[q[j]].parts@ == self.cands@[positions[q[j]] as int].parts@);
        }
        let soft = self.soft_excl_mask@;
        self.lemma_part_sum(sub, positions, q, im, p, false);
        self.lemma_part_sum(sub, positions, q, im, p, true);
        assert forall|a: int| 0 <= a < self.n_attr implies sub.totals(q)[a] == self.totals(p)[a] by {
            let sv = attr_vals(sub.cands@, a);
            let fv = attr_vals(self.cands@, a);
            assert forall|i: int| 0 <= i < q.len() implies sv[#[trigger] q[i]] == fv[im[i]] by {
                assert(0 <= q[i] < positions.len());
                assert(sub.cands@[q[i]].parts@ == self.cands@[positions[q[i]] as int].parts@);
            }
            lemma_pick_sum_map(sv, fv, q, im);
            lemma_pick_sum_permute(fv, im, p);
        }
        assert(sub.totals(q) =~= self.totals(p));
        p
    }

    proof fn lemma_part_sum(
        self,
        sub: SearchSpace,
        positions: Seq<usize>,
        q: Seq<int>,
        im: Seq<int>,
        p: Seq<int>,
        flag: bool,
    )
        requires
            self.has_part(sub, positions),
            within(q, 0, positions.len() as int),
            im == images(positions, q),
            p.to_multiset() =~= im.to_multiset(),
        ensures
            pick_sum(marked_vals(sub.cands@, sub.soft_excl_mask@, flag), q) == pick_sum(
                marked_vals(self.cands@, self.soft_excl_mask@, flag),
                p,
            ),
    {
        let sv = marked_vals(sub.cands@, sub.soft_excl_mask@, flag);
        let fv = marked_vals(self.cands@, self.soft_excl_mask@, flag);
        assert forall|i: int| 0 <= i < q.len() implies sv[#[trigger] q[i]] == fv[im[i]] by {
            assert(0 <= q[i] < positions.len());
            assert(sub.cands@[q[i]].parts@ == self.cands@[positions[q[i]] as int].parts@);
        }
        lemma_pick_sum_map(sv, fv, q, im);
        lemma_pick_sum_permute(fv, im, p);
    }

    /// What a part of the space ranks, the whole ranks too.
    pub proof fn law_part_entries(
        self,
        sub: SearchSpace,
        positions: Seq<usize>,
        k: int,
        mode: RankMode,
    )
        requires
            self.wf(k),
            self.has_part(sub, positions),
        ensures
            sub.wf(k),
            sub.all_entries(k, mode).subset_of(self.all_entries(k, mode)),
    {
        let none = Seq::<int>::empty();
        let n = self.cands@.len() as int;
        assert forall|i: int, j: int| 0 <= i < j < sub.order@.len() implies sub.order@[i]
            != sub.order@[j] by {
            let a = positions[i];
            let b = positions[j];
            assert(a != b);
            assert(sub.order@[i] == self.order@[a as int]);
            assert(sub.order@[j] == self.order@[b as int]);
            assert(sub.cands@[i].parts@ == self.cands@[a as int].parts@);
            assert(sub.cands@[j].parts@ == self.cands@[b as int].parts@);
            if a < b {
                assert(self.order@[a as int] != self.order@[b as int]);
            } else {
                assert(self.order@[b as int] != self.order@[a as int]);
            }
        }
        assert forall|p: Seq<int>|
            increasing(p) && within(p, 0, sub.cands@.len() as int) && p.len()
                <= k implies #[trigger] sub.value_total(p) <= i32::MAX by {
            let full = self.lemma_part_choice(sub, positions, p);
            assert(self.value_total(full) <= i32::MAX);
        }
        lemma_distinct_below(positions, n);
        assert(sub.wf(k));
        assert forall|e: Entry| sub.all_entries(k, mode).contains(e) implies self.all_entries(
            k,
            mode,
        ).contains(e) by {
            let q = choose|q: Seq<int>|
                is_choice(q, sub.cands@.len() as int, k) && #[trigger] goes_on(q, none, 0)
                    && sub.meets(q) && e == sub.entry(q, mode);
            let p = self.lemma_part_choice(sub, positions, q);
            let im = images(positions, q);
            let a = images(sub.order@, q);
            let b = images(self.order@, p);
            sub.lemma_images_distinct(q);
            self.lemma_images_distinct(p);
            lemma_sort_increasing(a);
            lemma_sort_increasing(b);
            let sa = a.sort();
            let sb = b.sort();
            assert forall|j: int| 0 <= j < sa.len() implies sb.contains(#[trigger] sa[j]) by {
                lemma_member_moves(sa, a, j);
                let x = choose|x: int| 0 <= x < a.len() && a[x] == sa[j];
                assert(0 <= q[x] < positions.len());
                lemma_member_moves(im, p, x);
                let y = choose|y: int| 0 <= y < p.len() && p[y] == im[x];
                assert(b[y] == sa[j]);
                lemma_member_moves(b, sb, y);
            }
            assert forall|j: int| 0 <= j < sb.len() implies sa.contains(#[trigger] sb[j]) by {
                lemma_member_moves(sb, b, j);
                let y = choose|y: int| 0 <= y < b.len() && b[y] == sb[j];
                lemma_member_moves(p, im, y);
                let x = choose|x: int| 0 <= x < im.len() && im[x] == p[y];
                assert(0 <= q[x] < positions.len());
                assert(a[x] == sb[j]);
                lemma_member_moves(a, sa, x);
            }
            lemma_increasing_same(sa, sb);
            assert(p.take(0) =~= none);
            assert(goes_on(p, none, 0));
            assert(self.meets(p)) by {
                assert forall|j: int| 0 <= j < self.required_idxs@.len() implies crate::optimizer::levels::level(
                    self.totals(p)[(#[trigger] self.required_idxs@[j]).0 as int],
                ) >= self.required_idxs@[j].1 by {
                    assert(sub.required_idxs@[j] == self.required_idxs@[j]);
                }
            }
            assert(e == self.entry(p, mode));
        }
    }

    /// The candidates at the given distinct positions.
    pub fn subset(&self, positions: &Vec<usize>) -> (sub: SearchSpace)
        requires
            self.cands@.len() == self.order@.len(),
            forall|i: int| 0 <= i < positions@.len() ==> #[trigger] positions@[i] < self.cands@.len(),
            forall|i: int, j: int|
                0 <= i < j < positions@.len() ==> positions@[i] != positions@[j],
        ensures
            self.has_part(sub, positions@),
    {
        let mut cands: Vec<Cand> = Vec::new();
        let mut order: Vec<usize> = Vec::new();
        let mut i: usize = 0;
        while i < positions.len()
            invariant
                i <= positions@.len(),
                self.cands@.len() == self.order@.len(),
                forall|i: int|
                    0 <= i < positions@.len() ==> #[trigger] positions@[i] < self.cands@.len(),
                cands@.len() == i,
                order@.len() == i,
                forall|x: int|
                    0 <= x < i ==> (#[trigger] cands@[x]).parts@
                        == self.cands@[positions@[x] as int].parts@,
                forall|x: int|
                    0 <= x < i ==> #[trigger] order@[x] == self.order@[positions@[x] as int],
            decreases positions@.len() - i,
        {
            let p: usize = positions[i];
            cands.push(self.cands[p].duplicate());
            order.push(self.order[p]);
            i += 1;
        }
        SearchSpace {
            cands,
            order,
            n_attr: self.n_attr,
            selected_mask: copy_flags(&self.selected_mask),
            soft_excl_mask: copy_flags(&self.soft_excl_mask),
            required_idxs: copy_pairs(&self.required_idxs),
        }
    }
}

/// Distinct positions below `n` are at most `n`.
proof fn lemma_distinct_below(positions: Seq<usize>, n: int)
    requires
        n >= 0,
        forall|i: int| 0 <= i < positions.len() ==> positions[i] < n,
        forall|i: int, j: int| 0 <= i < j < positions.len() ==> positions[i] != positions[j],
    ensures
        positions.len() <= n,
{
    let s = position_ints(positions);
    assert(s.no_duplicates()) by {
        assert forall|i: int, j: int| 0 <= i < s.len() && 0 <= j < s.len() && i != j implies s[i]
            != s[j] by {
            if i < j {
                assert(positions[i] != positions[j]);
            } else {
                assert(positions[j] != positions[i]);
            }
        }
    }
    s.unique_seq_to_set();
    vstd::set_lib::lemma_int_range(0, n);
    assert(s.to_set().subset_of(vstd::set_lib::set_int_range(0, n)));
    vstd::set_lib::lemma_len_subset(s.to_set(), vstd::set_lib::set_int_range(0, n));
}

fn copy_flags(flags: &Vec<bool>) -> (copy: Vec<bool>)
    ensures
        copy@ == flags@,
{
    let mut copy: Vec<bool> = Vec::new();
    let mut i: usize = 0;
    while i < flags.len()
        invariant
            i <= flags@.len(),
            copy@ == flags@.take(i as int),
        decreases flags@.len() - i,
    {
        copy.push(flags[i]);
        i += 1;
        assert(copy@ =~= flags@.take(i as int));
    }
    assert(flags@.take(i as int) =~= flags@);
    copy
}

fn copy_pairs(pairs: &Vec<(usize, usize)>) -> (copy: Vec<(usize, usize)>)
    ensures
        copy@ == pairs@,
{
    let mut copy: Vec<(usize, usize)> = Vec::new();
    let mut i: usize = 0;
    while i < pairs.len()
        invariant
            i <= pairs@.len(),
            copy@ == pairs@.take(i as int),
        decreases pairs@.len() - i,
    {
        copy.push(pairs[i]);
        i += 1;
        assert(copy@ =~= pairs@.take(i as int));
    }
    assert(pairs@.take(i as int) =~= pairs@);
    copy
}

} // verus!
