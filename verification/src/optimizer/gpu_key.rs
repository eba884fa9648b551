//! Ranking keys packed into two machine words, as the kernels compare them.

use crate::optimizer::accum::{key_view, Key, RankMode};
use crate::optimizer::ranking::{lemma_lex_at, lex_lt};
use vstd::prelude::*;

verus! {

/// The largest counted value sum that a packed key holds in the mode `Link` (14 bits).
pub const EVAL_LINK_KEY_MAX_LINK: i64 = 0x3FFF;

/// The largest counted value sum that a packed key holds in the mode `Lv5` (16 bits).
pub const EVAL_LINK_KEY_MAX_LV5: i64 = 0xFFFF;

/// The largest left-out sum that a packed key holds (16 bits).
pub const EXCL_KEY_MAX: i64 = 0xFFFF;

/// The largest counted value sum that a packed key holds.
pub open spec fn link_limit(mode: RankMode) -> int {
    match mode {
        RankMode::Link => 0x3FFF,
        RankMode::Lv5 => 0xFFFF,
    }
}

/// The largest counted value sum that a packed key holds.
pub fn eval_link_key_max(mode: RankMode) -> (max: i64)
    ensures
        max == link_limit(mode),
{
    match mode {
        RankMode::Link => EVAL_LINK_KEY_MAX_LINK,
        RankMode::Lv5 => EVAL_LINK_KEY_MAX_LV5,
    }
}

/// Whether every number of a key fits the bits that it is packed into.
pub open spec fn packable(key: Seq<int>, mode: RankMode) -> bool {
    &&& key.len() == 6
    &&& 0 <= key[0] < 64
    &&& 0 <= key[1] < 64
    &&& 0 <= key[2] < 64
    &&& match mode {
        RankMode::Link => 0 <= key[3] <= 0x3FFF && 0 <= key[4] < 0x1_0000,
        RankMode::Lv5 => 0 <= key[3] < 64 && 0 <= key[4] <= 0xFFFF,
    }
    &&& -0xFFFF <= key[5] <= 0
}

/// The first word of a packed key.
pub open spec fn packed_hi(key: Seq<int>, mode: RankMode) -> int {
    key[0] * 0x400_0000 + key[1] * 0x10_0000 + key[2] * 0x4000 + match mode {
        RankMode::Link => key[3],
        RankMode::Lv5 => key[3] * 0x100,
    }
}

/// The second word of a packed key.
pub open spec fn packed_lo(key: Seq<int>, mode: RankMode) -> int {
    key[4] * 0x1_0000 + 0xFFFF + key[5]
}

/// Whether one packed key comes before (ranks below) another.
pub open spec fn packed_lt(a: (int, int), b: (int, int)) -> bool {
    a.0 < b.0 || (a.0 == b.0 && a.1 < b.1)
}

/// Both words of a packed key.
pub open spec fn packed(key: Seq<int>, mode: RankMode) -> (int, int) {
    (packed_hi(key, mode), packed_lo(key, mode))
}

/// Packs a key into two words.
pub fn pack_key(key: &Key, mode: RankMode) -> (words: (u32, u32))
    requires
        packable(key_view(*key), mode),
    ensures
        (words.0 as int, words.1 as int) == packed(key_view(*key), mode),
{
    let ghost k = key_view(*key);
    assert(k[0] == key[0] && k[1] == key[1] && k[2] == key[2] && k[3] == key[3] && k[4] == key[4]
        && k[5] == key[5]);
    let sel_present: u32 = key[0] as u32;
    let sel_lv6: u32 = key[1] as u32;
    let lv6: u32 = key[2] as u32;
    let excl: u32 = (-key[5]) as u32;
    match mode {
        RankMode::Link => {
            let eval_link: u32 = key[3] as u32;
            let lv5: u32 = key[4] as u32;
            let hi: u32 = (sel_present << 26) | (sel_lv6 << 20) | (lv6 << 14) | eval_link;
            let lo: u32 = (lv5 << 16) | (0xFFFFu32 - excl);
            assert(hi == sel_present * 0x400_0000 + sel_lv6 * 0x10_0000 + lv6 * 0x4000
                + eval_link) by (bit_vector)
                requires
                    hi == (sel_present << 26) | (sel_lv6 << 20) | (lv6 << 14) | eval_link,
                    sel_present < 64,
                    sel_lv6 < 64,
                    lv6 < 64,
                    eval_link <= 0x3FFF,
            ;
            let rest: u32 = 0xFFFFu32 - excl;
            assert(lo == lv5 * 0x1_0000 + rest) by (bit_vector)
                requires
                    lo == (lv5 << 16) | rest,
                    lv5 < 0x1_0000,
                    rest <= 0xFFFF,
            ;
            (hi, lo)
        },
        RankMode::Lv5 => {
            let lv5: u32 = key[3] as u32;
            let eval_link: u32 = key[4] as u32;
            let hi: u32 = (sel_present << 26) | (sel_lv6 << 20) | (lv6 << 14) | (lv5 << 8);
            let lo: u32 = (eval_link << 16) | (0xFFFFu32 - excl);
            assert(hi == sel_present * 0x400_0000 + sel_lv6 * 0x10_0000 + lv6 * 0x4000 + lv5
                * 0x100) by (bit_vector)
                requires
                    hi == (sel_present << 26) | (sel_lv6 << 20) | (lv6 << 14) | (lv5 << 8),
                    sel_present < 64,
                    sel_lv6 < 64,
                    lv6 < 64,
                    lv5 < 64,
            ;
            let rest: u32 = 0xFFFFu32 - excl;
            assert(lo == eval_link * 0x1_0000 + rest) by (bit_vector)
                requires
                    lo == (eval_link << 16) | rest,
                    eval_link < 0x1_0000,
                    rest <= 0xFFFF,
            ;
            (hi, lo)
        },
    }
}

/// Packed keys compare as the keys do: comparing the two words, the first one first, is comparing
/// the keys number by number.
pub proof fn law_packed_keys_keep_order(a: Seq<int>, b: Seq<int>, mode: RankMode)
    requires
        packable(a, mode),
        packable(b, mode),
    ensures
        packed_lt(packed(a, mode), packed(b, mode)) == lex_lt(a, b),
        packed(a, mode) == packed(b, mode) <==> a == b,
{
    lemma_lex_at(a, b, 0);
    if a[0] == b[0] {
        lemma_lex_at(a, b, 1);
        if a[1] == b[1] {
            lemma_lex_at(a, b, 2);
            if a[2] == b[2] {
                lemma_lex_at(a, b, 3);
                if a[3] == b[3] {
                    lemma_lex_at(a, b, 4);
                    if a[4] == b[4] {
                        lemma_lex_at(a, b, 5);
                        if a[5] == b[5] {
                            lemma_lex_at(a, b, 6);
                            assert(a =~= b);
                        }
                    }
                }
            }
        }
    }
}

} // verus!
