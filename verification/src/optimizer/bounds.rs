//! Upper bounds on what the rest of a search can still add.

use crate::optimizer::accum::{attr_sum, lemma_attr_sum_prefix, marked_sum, parts_ok, Cand};
use crate::optimizer::sums::best_sum;
use crate::parallel::par_map;
use vstd::prelude::*;

verus! {

/// Values as integers.
pub open spec fn ints(values: Seq<i32>) -> Seq<int> {
    Seq::new(values.len(), |i: int| values[i] as int)
}

/// What each candidate holds of attribute `a`.
pub open spec fn attr_vals(cands: Seq<Cand>, a: int) -> Seq<int> {
    Seq::new(cands.len(), |i: int| attr_sum(cands[i].parts@, a))
}

/// The values of each candidate whose attribute has the mark `flag` in `soft`.
pub open spec fn marked_vals(cands: Seq<Cand>, soft: Seq<bool>, flag: bool) -> Seq<int> {
    Seq::new(cands.len(), |i: int| marked_sum(cands[i].parts@, soft, flag))
}

/// `table[s][r]` is the largest sum of `r` of the values at `s` and later.
pub open spec fn table_ok(table: Seq<Vec<i32>>, vals: Seq<int>, k: int) -> bool {
    &&& table.len() == vals.len() + 1
    &&& forall|s: int| 0 <= s <= vals.len() ==> row_ok((#[trigger] table[s])@, vals, s, k)
}

/// One row of such a table.
pub open spec fn row_ok(row: Seq<i32>, vals: Seq<int>, s: int, k: int) -> bool {
    &&& row.len() == k + 1
    &&& forall|r: int| 0 <= r <= k ==> #[trigger] row[r] == best_sum(vals, s, r as nat)
}

/// Whether every entry of such a table fits 32 bits.
pub open spec fn best_sums_fit(vals: Seq<int>, k: int) -> bool {
    forall|s: int, r: nat|
        0 <= s <= vals.len() && r <= k ==> i32::MIN <= #[trigger] best_sum(vals, s, r) <= i32::MAX
}

/// The sum of the first `r` values of `list` (of all where it is shorter).
spec fn take_sum(list: Seq<i32>, r: nat) -> int
    decreases r,
{
    if r == 0 {
        0
    } else {
        take_sum(list, (r - 1) as nat) + if r - 1 < list.len() {
            list[r - 1] as int
        } else {
            0
        }
    }
}

spec fn descending(list: Seq<i32>) -> bool {
    forall|i: int, j: int| 0 <= i < j < list.len() ==> list[i] >= list[j]
}

proof fn lemma_take_sum_insert(list: Seq<i32>, pos: int, v: i32, r: nat)
    requires
        0 <= pos <= list.len(),
    ensures
        r <= pos ==> take_sum(list.insert(pos, v), r) == take_sum(list, r),
        r > pos ==> take_sum(list.insert(pos, v), r) == v + take_sum(list, (r - 1) as nat),
    decreases r,
{
    if r > 0 {
        lemma_take_sum_insert(list, pos, v, (r - 1) as nat);
    }
}

proof fn lemma_take_sum_cut(list: Seq<i32>, k: int, r: nat)
    requires
        0 <= k <= list.len(),
        r <= k,
    ensures
        take_sum(list.take(k), r) == take_sum(list, r),
    decreases r,
{
    if r > 0 {
        lemma_take_sum_cut(list, k, (r - 1) as nat);
    }
}

/// The best list of a suffix gives the best list of the suffix one longer.
proof fn lemma_take_sum_best(vals: Seq<int>, s: int, list: Seq<i32>, pos: int, v: i32, k: int, r: nat)
    requires
        0 <= s < vals.len(),
        v == vals[s],
        1 <= r <= k,
        list.len() == if vals.len() - s - 1 < k {
            vals.len() - s - 1
        } else {
            k
        },
        0 <= pos <= list.len(),
        forall|i: int| 0 <= i < pos ==> #[trigger] list[i] > v,
        forall|i: int| pos <= i < list.len() ==> #[trigger] list[i] <= v,
        take_sum(list, r) == best_sum(vals, s + 1, r),
        take_sum(list, (r - 1) as nat) == best_sum(vals, s + 1, (r - 1) as nat),
    ensures
        take_sum(list.insert(pos, v), r) == best_sum(vals, s, r),
{
    lemma_take_sum_insert(list, pos, v, r);
    if vals.len() - s > r {
        assert(list.len() >= r);
        if r <= pos {
            assert(list[r - 1] > v);
        } else {
            assert(list[r - 1] <= v);
        }
    }
}

/// `top` holds the `k` largest values at `s` and later, the largest first.
spec fn top_of(top: Seq<i32>, vals: Seq<int>, s: int, k: int) -> bool {
    &&& descending(top)
    &&& top.len() == if vals.len() - s < k {
        vals.len() - s
    } else {
        k
    }
    &&& forall|r: nat| r <= k ==> #[trigger] take_sum(top, r) == best_sum(vals, s, r)
}

/// Takes the value at `s` in where it is among the `k` largest.
fn keep_top(top: &mut Vec<i32>, v: i32, k: usize, Ghost(vals): Ghost<Seq<int>>, Ghost(s): Ghost<int>)
    requires
        0 <= s < vals.len(),
        v == vals[s],
        top_of(old(top)@, vals, s + 1, k as int),
    ensures
        top_of(final(top)@, vals, s, k as int),
{
    let ghost prev = top@;
    let mut pos: usize = 0;
    while pos < top.len() && top[pos] > v
        invariant
            pos <= top@.len(),
            forall|i: int| 0 <= i < pos ==> #[trigger] top@[i] > v,
        decreases top@.len() - pos,
    {
        pos += 1;
    }
    proof {
        assert forall|i: int| pos <= i < prev.len() implies #[trigger] prev[i] <= v by {
            assert(prev[pos as int] <= v);
        }
    }
    top.insert(pos, v);
    let ghost grown = top@;
    proof {
        assert forall|r: nat| r <= k implies #[trigger] take_sum(grown, r) == best_sum(
            vals,
            s,
            r,
        ) by {
            if r > 0 {
                assert(take_sum(prev, r) == best_sum(vals, s + 1, r));
                assert(take_sum(prev, (r - 1) as nat) == best_sum(vals, s + 1, (r - 1) as nat));
                lemma_take_sum_best(vals, s, prev, pos as int, v, k as int, r);
            }
        }
        assert forall|i: int, j: int| 0 <= i < j < grown.len() implies grown[i] >= grown[j] by {
            let oi = if i < pos {
                i
            } else {
                i - 1
            };
            let oj = if j < pos {
                j
            } else {
                j - 1
            };
            if i == pos {
                assert(prev[oj] <= v);
            } else if j == pos {
                assert(prev[oi] > v);
            } else {
                assert(prev[oi] >= prev[oj]);
            }
        }
    }
    top.truncate(k);
    proof {
        if grown.len() > k {
            assert(top@ =~= grown.take(k as int));
            assert forall|r: nat| r <= k implies #[trigger] take_sum(top@, r) == best_sum(
                vals,
                s,
                r,
            ) by {
                lemma_take_sum_cut(grown, k as int, r);
                assert(take_sum(grown, r) == best_sum(vals, s, r));
            }
        } else {
            assert(top@ =~= grown);
        }
    }
}

/// The sum of the `k` largest values.
pub fn top_sum(values: &[i32], k: usize) -> (sum: i64)
    requires
        values@.len() < 0x1_0000_0000,
    ensures
        sum == best_sum(ints(values@), 0, k as nat),
{
    let ghost vals = ints(values@);
    let n: usize = values.len();
    let mut top: Vec<i32> = Vec::new();
    let mut s: usize = n;
    proof {
        assert forall|r: nat| take_sum(top@, r) == 0 by {
            lemma_take_sum_empty(top@, r);
        }
    }
    while s > 0
        invariant
            s <= n,
            n == values@.len(),
            vals == ints(values@),
            top_of(top@, vals, s as int, k as int),
        decreases s,
    {
        s -= 1;
        keep_top(&mut top, values[s], k, Ghost(vals), Ghost(s as int));
    }
    let mut sum: i64 = 0;
    let mut r: usize = 0;
    while r < top.len()
        invariant
            r <= top@.len(),
            top@.len() <= k,
            top@.len() < 0x1_0000_0000,
            -0x8000_0000 * r <= sum <= 0x8000_0000 * r,
            sum == take_sum(top@, r as nat),
        decreases top@.len() - r,
    {
        sum += top[r] as i64;
        r += 1;
    }
    proof {
        lemma_take_sum_all(top@, r as nat, k as nat);
        assert(take_sum(top@, k as nat) == best_sum(vals, 0, k as nat));
    }
    sum
}

proof fn lemma_take_sum_all(list: Seq<i32>, r: nat, k: nat)
    requires
        list.len() <= r <= k,
    ensures
        take_sum(list, r) == take_sum(list, k),
    decreases k,
{
    if r < k {
        lemma_take_sum_all(list, r, (k - 1) as nat);
    }
}

/// Builds the table of the largest sums of up to `slot_count` values for every suffix of `values`.
pub fn build_suffix_topr_table(values: &[i32], slot_count: usize) -> (table: Vec<Vec<i32>>)
    requires
        slot_count < usize::MAX,
        values@.len() < usize::MAX,
        best_sums_fit(ints(values@), slot_count as int),
    ensures
        table_ok(table@, ints(values@), slot_count as int),
{
    let n: usize = values.len();
    let ghost vals = ints(values@);
    let ghost k = slot_count as int;
    let mut table: Vec<Vec<i32>> = Vec::new();
    let mut t: usize = 0;
    while t <= n
        invariant
            t <= n + 1,
            n < usize::MAX,
            slot_count < usize::MAX,
            table@.len() == t,
            forall|i: int|
                0 <= i < t ==> (#[trigger] table@[i])@ == Seq::new(
                    (slot_count + 1) as nat,
                    |r: int| 0i32,
                ),
        decreases n + 1 - t,
    {
        let row: Vec<i32> = vec![0i32; slot_count + 1];
        assert(row@ =~= Seq::new((slot_count + 1) as nat, |r: int| 0i32));
        table.push(row);
        t += 1;
    }
    let mut top: Vec<i32> = Vec::new();
    let mut s: usize = n;
    proof {
        assert forall|r: nat| take_sum(top@, r) == 0 by {
            lemma_take_sum_empty(top@, r);
        }
        assert forall|r: int| 0 <= r <= k implies #[trigger] table@[n as int]@[r] == best_sum(
            vals,
            n as int,
            r as nat,
        ) by {}
    }
    while s > 0
        invariant
            s <= n,
            n == values@.len(),
            vals == ints(values@),
            k == slot_count,
            slot_count < usize::MAX,
            best_sums_fit(vals, k),
            table@.len() == n + 1,
            forall|i: int| 0 <= i <= n ==> (#[trigger] table@[i])@.len() == k + 1,
            forall|i: int| s <= i <= n ==> row_ok((#[trigger] table@[i])@, vals, i, k),
            top_of(top@, vals, s as int, k),
        decreases s,
    {
        s -= 1;
        keep_top(&mut top, values[s], slot_count, Ghost(vals), Ghost(s as int));
        let mut row: Vec<i32> = Vec::new();
        row.push(0);
        let mut running: i32 = 0;
        let mut r: usize = 1;
        while r <= slot_count
            invariant
                1 <= r <= slot_count + 1,
                k == slot_count,
                slot_count < usize::MAX,
                s <= vals.len(),
                best_sums_fit(vals, k),
                row@.len() == r,
                running == take_sum(top@, (r - 1) as nat),
                top_of(top@, vals, s as int, k),
                forall|q: int|
                    0 <= q < r ==> #[trigger] row@[q] == best_sum(vals, s as int, q as nat),
            decreases slot_count + 1 - r,
        {
            proof {
                assert(take_sum(top@, r as nat) == best_sum(vals, s as int, r as nat));
            }
            if r <= top.len() {
                running += top[r - 1];
            }
            row.push(running);
            r += 1;
        }
        let ghost before = table@;
        table.set(s, row);
        assert forall|i: int| s <= i <= n implies row_ok((#[trigger] table@[i])@, vals, i, k) by {
            if i > s {
                assert(table@[i] == before[i]);
            }
        }
        assert forall|i: int| 0 <= i <= n implies (#[trigger] table@[i])@.len() == k + 1 by {
            if i != s {
                assert(table@[i] == before[i]);
            }
        }
    }
    table
}

proof fn lemma_take_sum_empty(list: Seq<i32>, r: nat)
    requires
        list.len() == 0,
    ensures
        take_sum(list, r) == 0,
    decreases r,
{
    if r > 0 {
        lemma_take_sum_empty(list, (r - 1) as nat);
    }
}

/// The largest sums of one value per candidate.
pub struct SuffixSum {
    pub table: Vec<Vec<i32>>,
}

impl SuffixSum {
    pub open spec fn bounds(self, vals: Seq<int>, k: int) -> bool {
        table_ok(self.table@, vals, k)
    }

    /// Builds the table for `values`.
    pub fn build(values: &[i32], slot_count: usize) -> (b: SuffixSum)
        requires
            slot_count < usize::MAX,
            values@.len() < usize::MAX,
            best_sums_fit(ints(values@), slot_count as int),
        ensures
            b.bounds(ints(values@), slot_count as int),
    {
        SuffixSum { table: build_suffix_topr_table(values, slot_count) }
    }

    /// The largest sum of `r` values at `start` and later.
    pub fn topr(&self, start: usize, r: usize, Ghost(vals): Ghost<Seq<int>>, Ghost(k): Ghost<int>) -> (sum: i32)
        requires
            self.bounds(vals, k),
            start <= vals.len(),
            r <= k,
        ensures
            sum == best_sum(vals, start as int, r as nat),
    {
        assert(row_ok(self.table@[start as int]@, vals, start as int, k));
        self.table[start][r]
    }
}

/// The values of attribute `a` in one candidate, summed.
pub fn sum_of_attr(cand: &Cand, a: usize, n_attr: usize) -> (sum: i32)
    requires
        parts_ok(cand.parts@, n_attr as int),
        attr_sum(cand.parts@, a as int) <= i32::MAX,
    ensures
        sum == attr_sum(cand.parts@, a as int),
{
    let ghost parts = cand.parts@;
    let mut sum: i32 = 0;
    let mut j: usize = 0;
    assert(parts.take(0) =~= Seq::<(u32, i32)>::empty());
    while j < cand.parts.len()
        invariant
            j <= parts.len(),
            parts == cand.parts@,
            parts_ok(parts, n_attr as int),
            attr_sum(parts, a as int) <= i32::MAX,
            sum >= 0,
            sum == attr_sum(parts.take(j as int), a as int),
        decreases parts.len() - j,
    {
        proof {
            lemma_attr_sum_prefix(parts, Seq::new(n_attr as nat, |i: int| true), n_attr as int, j + 1);
            assert(attr_sum(parts.take(j + 1), a as int) <= attr_sum(parts, a as int));
            assert(parts.take(j + 1).drop_last() =~= parts.take(j as int));
            assert(parts.take(j + 1).last() == parts[j as int]);
            assert(parts[j as int].1 >= 0);
        }
        let part: (u32, i32) = cand.parts[j];
        if part.0 as usize == a {
            sum += part.1;
        }
        j += 1;
    }
    assert(parts.take(j as int) =~= parts);
    sum
}

/// The largest sums of every counted attribute.
pub struct AttrBounds {
    pub table: Vec<Vec<Vec<i32>>>,
}

impl AttrBounds {
    pub open spec fn bounds(self, cands: Seq<Cand>, soft: Seq<bool>, k: int) -> bool {
        &&& self.table@.len() == soft.len()
        &&& forall|a: int|
            0 <= a < soft.len() && !soft[a] ==> table_ok(
                (#[trigger] self.table@[a])@,
                attr_vals(cands, a),
                k,
            )
    }

    /// Builds the tables, one attribute per task. Attributes that are left out get none.
    pub fn build(
        cands: &Vec<Cand>,
        n_attr: usize,
        soft_excl_mask: &Vec<bool>,
        slot_count: usize,
    ) -> (b: AttrBounds)
        requires
            slot_count < usize::MAX,
            cands@.len() < usize::MAX,
            soft_excl_mask@.len() == n_attr,
            forall|i: int|
                0 <= i < cands@.len() ==> parts_ok((#[trigger] cands@[i]).parts@, n_attr as int),
            forall|a: int|
                0 <= a < n_attr && !soft_excl_mask@[a] ==> best_sums_fit(
                    #[trigger] attr_vals(cands@, a),
                    slot_count as int,
                ),
            forall|a: int, i: int|
                0 <= a < n_attr && !soft_excl_mask@[a] && 0 <= i < cands@.len()
                    ==> #[trigger] attr_sum(cands@[i].parts@, a) <= i32::MAX,
        ensures
            b.bounds(cands@, soft_excl_mask@, slot_count as int),
    {
        let table_of = |a: usize| -> (t: Vec<Vec<i32>>)
            requires
                a < n_attr,
            ensures
                !soft_excl_mask@[a as int] ==> table_ok(
                    t@,
                    attr_vals(cands@, a as int),
                    slot_count as int,
                ),
        {
            attr_table(cands, a, n_attr, soft_excl_mask, slot_count)
        };
        let table: Vec<Vec<Vec<i32>>> = par_map(n_attr, table_of);
        proof {
            assert forall|a: int| 0 <= a < n_attr && !soft_excl_mask@[a] implies table_ok(
                (#[trigger] table@[a])@,
                attr_vals(cands@, a),
                slot_count as int,
            ) by {
                let u = a as usize;
                assert(table@[u as int] == table@[a]);
            }
        }
        AttrBounds { table }
    }

    /// The largest sum of attribute `attr_idx` over `r` candidates at `start` and later.
    pub fn topr(
        &self,
        attr_idx: usize,
        start: usize,
        r: usize,
        Ghost(cands): Ghost<Seq<Cand>>,
        Ghost(soft): Ghost<Seq<bool>>,
        Ghost(k): Ghost<int>,
    ) -> (sum: i32)
        requires
            self.bounds(cands, soft, k),
            attr_idx < soft.len(),
            !soft[attr_idx as int],
            start <= cands.len(),
            r <= k,
        ensures
            sum == best_sum(attr_vals(cands, attr_idx as int), start as int, r as nat),
    {
        assert(table_ok(self.table@[attr_idx as int]@, attr_vals(cands, attr_idx as int), k));
        assert(row_ok(
            self.table@[attr_idx as int]@[start as int]@,
            attr_vals(cands, attr_idx as int),
            start as int,
            k,
        ));
        self.table[attr_idx][start][r]
    }
}

/// The table of one attribute.
fn attr_table(
    cands: &Vec<Cand>,
    a: usize,
    n_attr: usize,
    soft_excl_mask: &Vec<bool>,
    slot_count: usize,
) -> (table: Vec<Vec<i32>>)
    requires
        a < n_attr,
        slot_count < usize::MAX,
        cands@.len() < usize::MAX,
        soft_excl_mask@.len() == n_attr,
        forall|i: int|
            0 <= i < cands@.len() ==> parts_ok((#[trigger] cands@[i]).parts@, n_attr as int),
        !soft_excl_mask@[a as int] ==> best_sums_fit(
            attr_vals(cands@, a as int),
            slot_count as int,
        ),
        !soft_excl_mask@[a as int] ==> forall|i: int|
            0 <= i < cands@.len() ==> #[trigger] attr_sum(cands@[i].parts@, a as int) <= i32::MAX,
    ensures
        !soft_excl_mask@[a as int] ==> table_ok(
            table@,
            attr_vals(cands@, a as int),
            slot_count as int,
        ),
        soft_excl_mask@[a as int] ==> table@.len() == 0,
{
    if soft_excl_mask[a] {
        return Vec::new();
    }
    let mut values: Vec<i32> = Vec::new();
    let mut i: usize = 0;
    while i < cands.len()
        invariant
            i <= cands@.len(),
            values@.len() == i,
            a < n_attr,
            forall|j: int|
                0 <= j < cands@.len() ==> parts_ok((#[trigger] cands@[j]).parts@, n_attr as int),
            forall|j: int|
                0 <= j < cands@.len() ==> #[trigger] attr_sum(cands@[j].parts@, a as int)
                    <= i32::MAX,
            forall|j: int| 0 <= j < i ==> values@[j] == attr_sum(cands@[j].parts@, a as int),
        decreases cands@.len() - i,
    {
        assert(parts_ok(cands@[i as int].parts@, n_attr as int));
        assert(attr_sum(cands@[i as int].parts@, a as int) <= i32::MAX);
        values.push(sum_of_attr(&cands[i], a, n_attr));
        i += 1;
    }
    assert(ints(values@) =~= attr_vals(cands@, a as int));
    build_suffix_topr_table(values.as_slice(), slot_count)
}

} // verus!
