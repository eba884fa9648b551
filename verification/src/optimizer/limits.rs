//! Whether a search stays within the limits of the machine.

use crate::optimizer::levels::{choose_count, choose_fits, lemma_choose_step};
use crate::optimizer::model::{
    listed_sum, mods_at, usable_modules, value_sum, Module, ModuleView, PartView,
};
use crate::optimizer::prepare::{category_view, ref_views, select_candidates, slice_views};
use crate::optimizer::request::{searchable, values_fit};
use crate::optimizer::sums::{
    best_sum, increasing, lemma_best_sum_bound, lemma_increasing_len, lemma_pick_sum_concat,
    pick_sum, within,
};
use vstd::arithmetic::div_mod::lemma_div_by_multiple;
use vstd::prelude::*;

verus! {

/// Whether the products that lead up to `C(n, k)` stay within 128 bits.
pub fn choose_fits_machine(n: usize, k: usize) -> (b: bool)
    requires
        k <= n,
    ensures
        b == choose_fits(n as nat, k as nat),
{
    let m: usize = if n - k < k {
        n - k
    } else {
        k
    };
    let mut res: u128 = 1;
    let mut i: usize = 0;
    while i < m
        invariant
            k <= n,
            m == if n - k < k {
                n - k
            } else {
                k as int
            },
            i <= m,
            res == choose_count(n as nat, i as nat),
            forall|j: nat| j < i ==> #[trigger] choose_count(n as nat, j) * (n - j) <= u128::MAX,
        decreases m - i,
    {
        let ghost next = choose_count(n as nat, (i + 1) as nat) as int;
        proof {
            lemma_choose_step(n as nat, i as nat);
            lemma_div_by_multiple(next, (i + 1) as int);
        }
        let factor: u128 = n as u128 - i as u128;
        match res.checked_mul(factor) {
            None => {
                assert(choose_count(n as nat, i as nat) * (n - i) > u128::MAX);
                return false;
            },
            Some(product) => {
                assert(product == next * (i + 1));
                res = product / (i as u128 + 1);
            },
        }
        i += 1;
    }
    true
}

/// The sum of the values of a module.
pub open spec fn module_sum(m: ModuleView) -> int {
    listed_sum(m.parts, Seq::empty(), false)
}

/// The sums of modules.
pub open spec fn module_sums(mods: Seq<ModuleView>) -> Seq<int> {
    mods.map_values(|m: ModuleView| module_sum(m))
}

/// The sum of chosen modules is the sum of their sums.
proof fn lemma_value_sum(mods: Seq<ModuleView>, c: Seq<int>)
    requires
        within(c, 0, mods.len() as int),
    ensures
        value_sum(mods_at(mods, c)) == pick_sum(module_sums(mods), c),
    decreases c.len(),
{
    if c.len() > 0 {
        let d = c.drop_last();
        assert(within(d, 0, mods.len() as int)) by {
            assert forall|i: int| 0 <= i < d.len() implies 0 <= #[trigger] d[i] < mods.len() by {
                assert(d[i] == c[i]);
            }
        }
        lemma_value_sum(mods, d);
        assert(mods_at(mods, c).drop_last() =~= mods_at(mods, d));
        assert(0 <= c[c.len() - 1] < mods.len());
    }
}

/// Positions whose values sum up to `best_sum`.
spec fn best_pick(vals: Seq<int>, s: int, r: nat) -> Seq<int>
    decreases vals.len() - s,
{
    if r == 0 || s >= vals.len() {
        seq![]
    } else {
        let with = vals[s] + best_sum(vals, s + 1, (r - 1) as nat);
        let without = best_sum(vals, s + 1, r);
        if vals.len() - s <= r || with >= without {
            seq![s] + best_pick(vals, s + 1, (r - 1) as nat)
        } else {
            best_pick(vals, s + 1, r)
        }
    }
}

/// The best sum is reached.
proof fn lemma_best_sum_is_reached(vals: Seq<int>, s: int, r: nat)
    requires
        0 <= s <= vals.len(),
        r <= vals.len() - s,
    ensures
        increasing(best_pick(vals, s, r)),
        within(best_pick(vals, s, r), s, vals.len() as int),
        best_pick(vals, s, r).len() == r,
        pick_sum(vals, best_pick(vals, s, r)) == best_sum(vals, s, r),
    decreases vals.len() - s,
{
    if r > 0 && s < vals.len() {
        let with = vals[s] + best_sum(vals, s + 1, (r - 1) as nat);
        let without = best_sum(vals, s + 1, r);
        if vals.len() - s <= r || with >= without {
            let p = best_pick(vals, s + 1, (r - 1) as nat);
            lemma_best_sum_is_reached(vals, s + 1, (r - 1) as nat);
            lemma_pick_sum_concat(vals, seq![s], p);
            let one = seq![s];
            assert(one.drop_last() =~= Seq::<int>::empty());
            assert(pick_sum(vals, one.drop_last()) == 0);
            assert(pick_sum(vals, one) == vals[s]);
            let all = one + p;
            assert forall|i: int, j: int| 0 <= i < j < all.len() implies all[i] < all[j] by {
                assert(all[j] == p[j - 1]);
                if i > 0 {
                    assert(all[i] == p[i - 1]);
                }
            }
            assert forall|i: int| 0 <= i < all.len() implies s <= #[trigger] all[i] < vals.len() by {
                if i > 0 {
                    assert(all[i] == p[i - 1]);
                }
            }
        } else {
            lemma_best_sum_is_reached(vals, s + 1, r);
            let p = best_pick(vals, s + 1, r);
            assert forall|i: int| 0 <= i < p.len() implies s <= #[trigger] p[i] < vals.len() by {
                assert(s + 1 <= p[i] < vals.len());
            }
        }
    }
}

/// The best sums of values.
fn best_sums(vals: &Vec<i32>, k: usize) -> (row: Vec<i64>)
    requires
        k <= vals@.len() < u32::MAX,
        forall|i: int| 0 <= i < vals@.len() ==> #[trigger] vals@[i] >= 0,
    ensures
        row@.len() == k + 1,
        forall|r: int|
            0 <= r <= k ==> #[trigger] row@[r] == best_sum(
                vals@.map_values(|v: i32| v as int),
                0,
                r as nat,
            ),
{
    let ghost ints = vals@.map_values(|v: i32| v as int);
    let n: usize = vals.len();
    let mut row: Vec<i64> = Vec::new();
    for r in 0..k + 1
        invariant
            row@.len() == r,
            forall|j: int| 0 <= j < r ==> #[trigger] row@[j] == 0,
    {
        row.push(0);
    }
    let mut s: usize = n;
    while s > 0
        invariant
            s <= n,
            n == vals@.len(),
            k <= n < u32::MAX,
            ints == vals@.map_values(|v: i32| v as int),
            forall|i: int| 0 <= i < vals@.len() ==> #[trigger] vals@[i] >= 0,
            row@.len() == k + 1,
            forall|r: int|
                0 <= r <= k ==> #[trigger] row@[r] == best_sum(ints, s as int, r as nat) && 0
                    <= row@[r] <= r * i32::MAX,
        decreases s,
    {
        s -= 1;
        let ghost old_row = row@;
        let v: i32 = vals[s];
        let mut r: usize = k;
        while r > 0
            invariant
                s < n,
                n == vals@.len(),
                k <= n < u32::MAX,
                r <= k,
                ints == vals@.map_values(|v: i32| v as int),
                v == vals@[s as int],
                v >= 0,
                row@.len() == k + 1,
                old_row.len() == k + 1,
                forall|j: int|
                    0 <= j <= k ==> #[trigger] old_row[j] == best_sum(
                        ints,
                        s + 1,
                        j as nat,
                    ) && 0 <= old_row[j] <= j * i32::MAX,
                forall|j: int| 0 <= j <= r ==> #[trigger] row@[j] == old_row[j],
                forall|j: int|
                    r < j <= k ==> #[trigger] row@[j] == best_sum(ints, s as int, j as nat) && 0
                        <= row@[j] <= j * i32::MAX,
            decreases r,
        {
            proof {
                assert(row@[r as int] == old_row[r as int]);
                assert(row@[r - 1] == old_row[r - 1]);
                assert(old_row[r - 1] <= (r - 1) * i32::MAX);
                assert(old_row[r as int] <= r * i32::MAX);
                assert((r - 1) * i32::MAX + i32::MAX == r * i32::MAX) by (nonlinear_arith);
                assert(r * i32::MAX < 0x7FFF_FFFF_FFFF_FFFF) by (nonlinear_arith)
                    requires
                        r < 0x1_0000_0000,
                ;
            }
            let with: i64 = v as i64 + row[r - 1];
            let without: i64 = row[r];
            let best: i64 = if n - s <= r || with >= without {
                with
            } else {
                without
            };
            assert(best == best_sum(ints, s as int, r as nat));
            row.set(r, best);
            r -= 1;
        }
        proof {
            assert(best_sum(ints, s as int, 0) == 0);
            assert(row@[0] == old_row[0]);
            assert(best_sum(ints, s + 1, 0) == 0);
        }
    }
    row
}

/// The sum of the values of a module, where none is negative and the sum fits.
fn module_sum_of(m: &Module) -> (sum: Result<i32, bool>)
    ensures
        match sum {
            Ok(x) => x == module_sum(m@) && x >= 0 && forall|j: int|
                0 <= j < m@.parts.len() ==> (#[trigger] m@.parts[j]).value >= 0,
            Err(negative) => if negative {
                exists|j: int| 0 <= j < m@.parts.len() && (#[trigger] m@.parts[j]).value < 0
            } else {
                module_sum(m@) > i32::MAX && forall|j: int|
                    0 <= j < m@.parts.len() ==> (#[trigger] m@.parts[j]).value >= 0
            },
        },
{
    let n: usize = m.parts.len();
    for j in 0..n
        invariant
            n == m.parts@.len(),
            forall|x: int| 0 <= x < j ==> (#[trigger] m@.parts[x]).value >= 0,
    {
        assert(m@.parts[j as int] == m.parts@[j as int]@);
        if m.parts[j].value < 0 {
            return Err(true);
        }
    }
    let mut sum: i32 = 0;
    let ghost none = Seq::<i32>::empty();
    assert(m@.parts.take(0) =~= Seq::<PartView>::empty());
    for j in 0..n
        invariant
            n == m.parts@.len(),
            n == m@.parts.len(),
            none == Seq::<i32>::empty(),
            forall|x: int| 0 <= x < n ==> (#[trigger] m@.parts[x]).value >= 0,
            sum == listed_sum(m@.parts.take(j as int), none, false),
            sum >= 0,
    {
        proof {
            assert(m@.parts.take(j + 1).drop_last() =~= m@.parts.take(j as int));
            assert(m@.parts[j as int] == m.parts@[j as int]@);
            assert(!none.contains(m@.parts[j as int].attr_id));
            lemma_listed_grows(m@.parts, (j + 1) as int);
        }
        let value: i32 = m.parts[j].value;
        if value > i32::MAX - sum {
            return Err(false);
        }
        sum = sum + value;
    }
    assert(m@.parts.take(n as int) =~= m@.parts);
    Ok(sum)
}

/// A part of the values does not sum up to more than all of them.
proof fn lemma_listed_grows(parts: Seq<PartView>, n: int)
    requires
        0 <= n <= parts.len(),
        forall|x: int| 0 <= x < parts.len() ==> (#[trigger] parts[x]).value >= 0,
    ensures
        0 <= listed_sum(parts.take(n), Seq::empty(), false) <= listed_sum(
            parts,
            Seq::empty(),
            false,
        ),
    decreases parts.len(),
{
    let none = Seq::<i32>::empty();
    if parts.len() == 0 {
        assert(parts.take(n) =~= parts);
    } else {
        let r = parts.drop_last();
        assert forall|x: int| 0 <= x < r.len() implies (#[trigger] r[x]).value >= 0 by {
            assert(r[x] == parts[x]);
        }
        assert(!none.contains(parts.last().attr_id));
        assert(parts[parts.len() - 1].value >= 0);
        if n == parts.len() {
            assert(parts.take(n) =~= parts);
            lemma_listed_grows(r, n - 1);
            assert(r.take(n - 1) =~= r);
        } else {
            lemma_listed_grows(r, n);
            assert(r.take(n) =~= parts.take(n));
        }
    }
}

/// The sums of modules that fit are those whose best sums fit.
proof fn lemma_sums_fit(mods: Seq<ModuleView>, k: int)
    requires
        0 <= k,
        forall|i: int, j: int|
            0 <= i < mods.len() && 0 <= j < mods[i].parts.len()
                ==> (#[trigger] mods[i].parts[j]).value >= 0,
    ensures
        values_fit(mods, k) == (forall|r: nat|
            r <= k && r <= mods.len() ==> #[trigger] best_sum(module_sums(mods), 0, r) <= i32::MAX),
{
    let vals = module_sums(mods);
    let n = mods.len() as int;
    if values_fit(mods, k) {
        assert forall|r: nat| r <= k && r <= n implies #[trigger] best_sum(vals, 0, r)
            <= i32::MAX by {
            lemma_best_sum_is_reached(vals, 0, r);
            let c = best_pick(vals, 0, r);
            lemma_value_sum(mods, c);
            assert(value_sum(mods_at(mods, c)) <= i32::MAX);
        }
    }
    if forall|r: nat| r <= k && r <= n ==> #[trigger] best_sum(vals, 0, r) <= i32::MAX {
        assert forall|c: Seq<int>|
            increasing(c) && within(c, 0, n) && c.len() <= k implies #[trigger] value_sum(
            mods_at(mods, c),
        ) <= i32::MAX by {
            lemma_increasing_len(c, 0, n);
            lemma_value_sum(mods, c);
            lemma_best_sum_bound(vals, 0, c);
            assert(best_sum(vals, 0, c.len()) <= i32::MAX);
        }
    }
}

/// One module that is too large alone.
proof fn lemma_one_too_large(mods: Seq<ModuleView>, k: int, i: int)
    requires
        k >= 1,
        0 <= i < mods.len(),
        module_sum(mods[i]) > i32::MAX,
    ensures
        !values_fit(mods, k),
{
    let c = seq![i];
    lemma_value_sum(mods, c);
    assert(c.drop_last() =~= Seq::<int>::empty());
    assert(pick_sum(module_sums(mods), c.drop_last()) == 0);
    assert(pick_sum(module_sums(mods), c) == module_sum(mods[i]));
    assert(increasing(c) && within(c, 0, mods.len() as int));
    assert(value_sum(mods_at(mods, c)) > i32::MAX);
}

/// Whether a search over the usable modules stays within the limits of the machine.
pub fn is_searchable(
    modules: &[Module],
    category: Option<&str>,
    hard_exclude_ids: &[i32],
    slot_count: usize,
) -> (b: bool)
    ensures
        b == searchable(
            usable_modules(
                slice_views(modules@),
                category_view(category),
                hard_exclude_ids@,
            ),
            slot_count as int,
        ),
{
    let candidates: Vec<&Module> = select_candidates(modules, category, hard_exclude_ids);
    let ghost views = ref_views(candidates@);
    proof {
        assert(slice_views(modules@) =~= Seq::new(modules@.len(), |i: int| modules@[i]@));
        assert(views == usable_modules(
            slice_views(modules@),
            category_view(category),
            hard_exclude_ids@,
        ));
    }
    let n: usize = candidates.len();
    if n as u64 >= u32::MAX as u64 {
        return false;
    }
    let mut sums: Vec<i32> = Vec::new();
    for i in 0..n
        invariant
            n == candidates@.len(),
            views == ref_views(candidates@),
            views == usable_modules(
                slice_views(modules@),
                category_view(category),
                hard_exclude_ids@,
            ),
            sums@.len() == i,
            forall|x: int|
                0 <= x < i ==> slot_count == 0 || #[trigger] sums@[x] == module_sum(views[x]),
            forall|x: int| 0 <= x < i ==> #[trigger] sums@[x] >= 0,
            forall|x: int, j: int|
                0 <= x < i && 0 <= j < views[x].parts.len() ==> (
                #[trigger] views[x].parts[j]).value >= 0,
    {
        assert(views[i as int] == candidates@[i as int]@);
        match module_sum_of(candidates[i]) {
            Ok(x) => {
                sums.push(x);
            },
            Err(negative) => {
                if negative {
                    proof {
                        let m = views[i as int];
                        let j = choose|j: int|
                            0 <= j < m.parts.len() && (#[trigger] m.parts[j]).value < 0;
                        assert(views[i as int].parts[j].value < 0);
                    }
                    return false;
                }
                if slot_count >= 1 {
                    proof {
                        lemma_one_too_large(views, slot_count as int, i as int);
                    }
                    return false;
                }
                sums.push(0);
            },
        }
    }
    proof {
        lemma_sums_fit(views, slot_count as int);
        if slot_count == 0 {
            assert(best_sum(module_sums(views), 0, 0) == 0);
        }
    }
    if slot_count > 0 {
        let k: usize = if slot_count < n {
            slot_count
        } else {
            n
        };
        let row: Vec<i64> = best_sums(&sums, k);
        assert(sums@.map_values(|v: i32| v as int) =~= module_sums(views));
        for r in 0..k + 1
            invariant
                row@.len() == k + 1,
                k <= slot_count,
                k <= n,
                n == views.len(),
                views == usable_modules(
                    slice_views(modules@),
                    category_view(category),
                    hard_exclude_ids@,
                ),
                forall|x: int|
                    0 <= x <= k ==> #[trigger] row@[x] == best_sum(
                        module_sums(views),
                        0,
                        x as nat,
                    ),
                values_fit(views, slot_count as int) == (forall|x: nat|
                    x <= slot_count && x <= views.len() ==> #[trigger] best_sum(
                        module_sums(views),
                        0,
                        x,
                    ) <= i32::MAX),
                forall|x: int| 0 <= x < r ==> #[trigger] row@[x] <= i32::MAX,
        {
            if row[r] > i32::MAX as i64 {
                assert(best_sum(module_sums(views), 0, r as nat) > i32::MAX);
                return false;
            }
        }
        assert forall|x: nat| x <= slot_count && x <= views.len() implies #[trigger] best_sum(
            module_sums(views),
            0,
            x,
        ) <= i32::MAX by {
            assert(row@[x as int] <= i32::MAX);
        }
    }
    assert(values_fit(views, slot_count as int));
    slot_count > n || choose_fits_machine(n, slot_count)
}

} // verus!
