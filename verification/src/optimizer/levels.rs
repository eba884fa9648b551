//! Attribute levels and combination counts.

use vstd::arithmetic::div_mod::lemma_div_by_multiple;
use vstd::prelude::*;

verus! {

/// The level (0 to 6) that an attribute reaches with the summed value `v`: the number of
/// thresholds 1, 4, 8, 12, 16, 20 that `v` meets.
pub open spec fn level(v: int) -> int {
    if v >= 20 {
        6
    } else if v >= 16 {
        5
    } else if v >= 12 {
        4
    } else if v >= 8 {
        3
    } else if v >= 4 {
        2
    } else if v >= 1 {
        1
    } else {
        0
    }
}

/// Summed values at which an attribute reaches its next level.
pub const ATTR_THRESHOLDS: [i32; 6] = [1, 4, 8, 12, 16, 20];

/// The level reached with the summed value `v`.
pub fn level_of(v: i32) -> (lv: usize)
    ensures
        lv == level(v as int),
        lv <= 6,
        forall|i: int| 0 <= i < 6 ==> (lv > i <==> v >= #[trigger] ATTR_THRESHOLDS@[i]),
{
    let mut lv: usize = 0;
    while lv < 6 && v >= ATTR_THRESHOLDS[lv]
        invariant
            lv <= 6,
            forall|i: int| 0 <= i < lv ==> v >= ATTR_THRESHOLDS[i],
        decreases 6 - lv,
    {
        lv += 1;
    }
    proof {
        if lv < 6 {
            assert(v < ATTR_THRESHOLDS[lv as int]);
        }
        if lv > 0 {
            assert(v >= ATTR_THRESHOLDS[lv - 1]);
        }
    }
    lv
}

/// A level is the number of thresholds that a value meets, and these are 1, 4, 8, 12, 16 and 20: a
/// value is above level `i` exactly where it meets the threshold after it.
pub proof fn law_level_counts_thresholds(v: int, i: int)
    requires
        0 <= i < 6,
    ensures
        0 <= level(v) <= 6,
        level(v) > i <==> v >= ATTR_THRESHOLDS@[i],
        ATTR_THRESHOLDS@ == seq![1i32, 4, 8, 12, 16, 20],
        level(v) >= 1 <==> v >= 1,
        level(v) >= 2 <==> v >= 4,
        level(v) >= 3 <==> v >= 8,
        level(v) >= 4 <==> v >= 12,
        level(v) >= 5 <==> v >= 16,
        level(v) == 6 <==> v >= 20,
{
    assert(ATTR_THRESHOLDS@ =~= seq![1i32, 4, 8, 12, 16, 20]);
}

/// From level 1 on, four more reach the next level, until there is none; a larger value is never at
/// a lower level.
pub proof fn law_level_steps(v: int, w: int)
    requires
        v <= w,
    ensures
        level(v) <= level(w),
        1 <= v < 20 ==> level(v + 4) == level(v) + 1,
        v >= 20 ==> level(w) == level(v),
        w <= 0 ==> level(v) == 0,
{
}

/// The number of ways to choose `k` of `n` things (Pascal's rule).
pub open spec fn choose_count(n: nat, k: nat) -> nat
    decreases n,
{
    if k == 0 {
        1
    } else if n == 0 {
        0
    } else {
        choose_count((n - 1) as nat, k) + choose_count((n - 1) as nat, (k - 1) as nat)
    }
}

/// `C(n, i + 1) * (i + 1) == C(n, i) * (n - i)`.
pub proof fn lemma_choose_step(n: nat, i: nat)
    ensures
        choose_count(n, i + 1) * (i + 1) == choose_count(n, i) * (n - i),
    decreases n,
{
    if n == 0 {
        if i > 0 {
            assert(choose_count(n, i) == 0);
        } else {
            assert(choose_count(0, 1) == 0);
        }
        assert(choose_count(n, i + 1) == 0);
        assert(choose_count(n, i) * (n - i) == 0) by (nonlinear_arith)
            requires
                n == 0,
                i > 0 ==> choose_count(n, i) == 0,
        ;
    } else {
        let m = (n - 1) as nat;
        lemma_choose_step(m, i);
        let a = choose_count(m, i + 1);
        let b = choose_count(m, i);
        assert(choose_count(n, i + 1) == a + b);
        if i == 0 {
            assert(choose_count(n, i) == 1);
            assert(b == 1);
            assert(a * 1 == b * (m - 0));
            assert((a + b) * 1 == 1 * (n - 0)) by (nonlinear_arith)
                requires
                    a * 1 == b * m,
                    b == 1,
                    n == m + 1,
            ;
        } else {
            let c = choose_count(m, (i - 1) as nat);
            lemma_choose_step(m, (i - 1) as nat);
            assert(choose_count(n, i) == b + c);
            assert((a + b) * (i + 1) == (b + c) * (n - i)) by (nonlinear_arith)
                requires
                    a * (i + 1) == b * (m - i),
                    b * i == c * (m - i + 1),
                    n == m + 1,
            ;
        }
    }
}

/// Nothing can be chosen when more things are asked for than there are.
pub proof fn lemma_choose_zero(n: nat, k: nat)
    requires
        k > n,
    ensures
        choose_count(n, k) == 0,
    decreases n,
{
    if n > 0 {
        lemma_choose_zero((n - 1) as nat, k);
        lemma_choose_zero((n - 1) as nat, (k - 1) as nat);
    }
}

/// All things can be chosen in exactly one way.
pub proof fn lemma_choose_all(n: nat)
    ensures
        choose_count(n, n) == 1,
    decreases n,
{
    if n > 0 {
        lemma_choose_all((n - 1) as nat);
        lemma_choose_zero((n - 1) as nat, n);
    }
}

/// Choosing `k` things is choosing the `n - k` that stay behind.
pub proof fn lemma_choose_symmetric(n: nat, k: nat)
    requires
        k <= n,
    ensures
        choose_count(n, k) == choose_count(n, (n - k) as nat),
    decreases n,
{
    if k == 0 || k == n {
        lemma_choose_all(n);
    } else {
        lemma_choose_symmetric((n - 1) as nat, k);
        lemma_choose_symmetric((n - 1) as nat, (k - 1) as nat);
    }
}

/// Whether the products that lead up to `C(n, k)` stay within 128 bits.
pub open spec fn choose_fits(n: nat, k: nat) -> bool {
    let m = if n - k < k {
        n - k
    } else {
        k as int
    };
    forall|i: nat| i < m ==> #[trigger] choose_count(n, i) * (n - i) <= u128::MAX
}

/// The number of ways to choose `k` of `n` things, cut to its low 64 bits.
pub fn n_choose_k(n: usize, k: usize) -> (count: u64)
    requires
        choose_fits(n as nat, k as nat),
    ensures
        count == choose_count(n as nat, k as nat) % 0x1_0000_0000_0000_0000,
{
    if k > n {
        proof {
            lemma_choose_zero(n as nat, k as nat);
        }
        return 0;
    }
    let m: usize = if n - k < k {
        n - k
    } else {
        k
    };
    let mut res: u128 = 1;
    let mut i: usize = 0;
    while i < m
        invariant
            k <= n,
            m == if n - k < k { n - k } else { k as int },
            i <= m,
            res == choose_count(n as nat, i as nat),
            choose_fits(n as nat, k as nat),
        decreases m - i,
    {
        let ghost next = choose_count(n as nat, (i + 1) as nat) as int;
        proof {
            lemma_choose_step(n as nat, i as nat);
            assert(choose_count(n as nat, i as nat) * (n - i) <= u128::MAX);
            lemma_div_by_multiple(next, (i + 1) as int);
            assert(res * (n - i) >= 0) by (nonlinear_arith)
                requires
                    res >= 0,
                    n >= i,
            ;
        }
        let product: u128 = res * (n as u128 - i as u128);
        assert(product == next * (i + 1));
        res = product / (i as u128 + 1);
        i += 1;
    }
    proof {
        lemma_choose_symmetric(n as nat, k as nat);
    }
    assert(res as u64 == res % 0x1_0000_0000_0000_0000u128) by (bit_vector);
    #[verifier::truncate]
    let low: u64 = res as u64;
    low
}

} // verus!
