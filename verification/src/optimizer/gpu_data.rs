//! The buffers that the kernels read.

use crate::optimizer::accum::{
    attr_sum, lemma_attr_sum_bounds, marked_sum, parts_ok, sum_marked, Cand, RankMode,
};
use crate::optimizer::bounds::{attr_vals, ints, marked_vals, sum_of_attr, top_sum};
use crate::optimizer::levels::{choose_count, choose_fits, n_choose_k};
use crate::optimizer::space::SearchSpace;
use crate::optimizer::sums::best_sum;
use crate::text::{append_digits, digits};
use vstd::prelude::*;
use vstd::string::*;

verus! {

/// The number of parts per candidate that the kernels read.
pub const MAX_PARTS: usize = 3;

/// The four bytes of a word, the lowest first.
pub open spec fn word_bytes(w: u32) -> Seq<u8> {
    seq![
        (w % 256) as u8,
        ((w / 256) % 256) as u8,
        ((w / 65536) % 256) as u8,
        (w / 16777216) as u8,
    ]
}

/// The bytes of several words.
pub open spec fn words_bytes(words: Seq<u32>) -> Seq<u8>
    decreases words.len(),
{
    if words.len() == 0 {
        Seq::empty()
    } else {
        words_bytes(words.drop_last()) + word_bytes(words.last())
    }
}

/// A signed number as a word (two's complement).
pub open spec fn signed_word(v: i32) -> u32 {
    if v >= 0 {
        v as u32
    } else {
        (v + 0x1_0000_0000) as u32
    }
}

proof fn lemma_words_push(words: Seq<u32>, w: u32)
    ensures
        words_bytes(words.push(w)) == words_bytes(words) + word_bytes(w),
{
    assert(words.push(w).drop_last() =~= words);
}

/// Words take four bytes each.
pub proof fn lemma_words_len(words: Seq<u32>)
    ensures
        words_bytes(words).len() == 4 * words.len(),
    decreases words.len(),
{
    if words.len() > 0 {
        lemma_words_len(words.drop_last());
    }
}

/// Appends a word.
pub fn push_u32(buf: &mut Vec<u8>, v: u32)
    ensures
        final(buf)@ == old(buf)@ + word_bytes(v),
{
    let ghost before = buf@;
    buf.push((v % 256) as u8);
    buf.push(((v / 256) % 256) as u8);
    buf.push(((v / 65536) % 256) as u8);
    buf.push((v / 16777216) as u8);
    assert(buf@ =~= before + word_bytes(v));
}

/// Appends a signed number.
pub fn push_i32(buf: &mut Vec<u8>, v: i32)
    ensures
        final(buf)@ == old(buf)@ + word_bytes(signed_word(v)),
{
    let w: u32 = if v >= 0 {
        v as u32
    } else {
        (v as i64 + 0x1_0000_0000) as u32
    };
    push_u32(buf, w);
}

/// Appends a word to a buffer of words.
fn push_word(buf: &mut Vec<u8>, v: u32, Ghost(words): Ghost<Seq<u32>>)
    requires
        old(buf)@ == words_bytes(words),
    ensures
        final(buf)@ == words_bytes(words.push(v)),
{
    proof {
        lemma_words_push(words, v);
    }
    push_u32(buf, v);
}

/// The code of a ranking mode in the kernels.
pub fn rank_mode_u32(mode: RankMode) -> (code: u32)
    ensures
        code == (match mode {
            RankMode::Link => 0u32,
            RankMode::Lv5 => 1u32,
        }),
{
    match mode {
        RankMode::Link => 0,
        RankMode::Lv5 => 1,
    }
}

/// Whether bit `i` of `bits` is set.
pub open spec fn bit_set(bits: u32, i: u32) -> bool {
    (bits >> i) & 1 == 1
}

/// A mask as the bits of a word: bit `i` stands for entry `i`.
pub fn mask_bits(mask: &[bool]) -> (bits: u32)
    requires
        mask@.len() <= 32,
    ensures
        forall|i: u32| i < 32 ==> #[trigger] bit_set(bits, i) == (i < mask@.len() && mask@[i as int]),
{
    let mut bits: u32 = 0;
    let mut i: usize = 0;
    assert forall|j: u32| j < 32 implies !#[trigger] bit_set(0, j) by {
        assert((0u32 >> j) & 1 != 1) by (bit_vector);
    }
    while i < mask.len()
        invariant
            i <= mask@.len() <= 32,
            forall|j: u32| j < 32 ==> #[trigger] bit_set(bits, j) == (j < i && mask@[j as int]),
        decreases mask@.len() - i,
    {
        if mask[i] {
            let at: u32 = i as u32;
            let ghost before = bits;
            bits = bits | (1u32 << at);
            assert forall|j: u32| j < 32 implies #[trigger] bit_set(bits, j) == (j < i + 1
                && mask@[j as int]) by {
                assert(bit_set(before, j) == (j < i && mask@[j as int]));
                let after = bits;
                assert(((after >> j) & 1 == 1) == ((before >> j) & 1 == 1 || j == at))
                    by (bit_vector)
                    requires
                        after == before | (1u32 << at),
                        at < 32,
                        j < 32,
                ;
            }
        }
        i += 1;
    }
    bits
}

/// The words of the table of combination counts: row `i`, column `j` holds `C(i, j)`.
pub open spec fn binom_words(n: nat, cols: nat) -> Seq<u32> {
    Seq::new(n * cols, |x: int| choose_count((x / cols as int) as nat, (x % cols as int) as nat) as u32)
}

/// Whether all counts of the table fit a word.
pub open spec fn binom_fits(n: nat, cols: nat) -> bool {
    forall|i: nat, j: nat| i < n && j < cols ==> #[trigger] choose_count(i, j) <= u32::MAX
}

/// Whether the counts of the table can be computed.
pub open spec fn countable(n: nat, cols: nat) -> bool {
    forall|i: nat, j: nat|
        i < n && j < cols ==> #[trigger] choose_fits(i, j) && choose_count(i, j) <= u64::MAX
}

/// The message for the first count of the table that does not fit a word.
pub open spec fn binom_message(i: nat, j: nat) -> Seq<char> {
    "binomテーブルの値がu32を超えます C("@ + digits(i) + ","@ + digits(j) + ")="@ + digits(
        choose_count(i, j),
    )
}

/// The table of the counts `C(i, j)` for `i` below `n` and `j` below `slot_count`.
pub fn build_binom_table(n: usize, slot_count: usize) -> (table: Result<Vec<u8>, String>)
    requires
        countable(n as nat, slot_count as nat),
    ensures
        table is Ok <==> binom_fits(n as nat, slot_count as nat),
        table matches Ok(bytes) ==> bytes@ == words_bytes(
            binom_words(n as nat, slot_count as nat),
        ),
        table matches Err(message) ==> exists|i: nat, j: nat|
            i < n && j < slot_count && choose_count(i, j) > u32::MAX && message@
                == #[trigger] binom_message(i, j) && (forall|x: nat, y: nat|
                (x < i && y < slot_count) || (x == i && y < j) ==> #[trigger] choose_count(x, y)
                    <= u32::MAX),
{
    let ghost cols = slot_count as nat;
    let ghost words = Seq::<u32>::empty();
    let mut bytes: Vec<u8> = Vec::new();
    let mut i: usize = 0;
    while i < n
        invariant
            i <= n,
            cols == slot_count,
            countable(n as nat, slot_count as nat),
            bytes@ == words_bytes(words),
            words.len() == i * cols,
            forall|x: int|
                0 <= x < words.len() ==> #[trigger] words[x] == choose_count(
                    (x / cols as int) as nat,
                    (x % cols as int) as nat,
                ) as u32,
            forall|x: nat, y: nat|
                x < i && y < cols ==> #[trigger] choose_count(x, y) <= u32::MAX,
        decreases n - i,
    {
        let mut j: usize = 0;
        while j < slot_count
            invariant
                i < n,
                j <= slot_count,
                cols == slot_count,
                countable(n as nat, slot_count as nat),
                bytes@ == words_bytes(words),
                words.len() == i * cols + j,
                forall|x: int|
                    0 <= x < words.len() ==> #[trigger] words[x] == choose_count(
                        (x / cols as int) as nat,
                        (x % cols as int) as nat,
                    ) as u32,
                forall|x: nat, y: nat|
                    (x < i && y < cols) || (x == i && y < j) ==> #[trigger] choose_count(x, y)
                        <= u32::MAX,
            decreases slot_count - j,
        {
            assert(choose_fits(i as nat, j as nat));
            let c: u64 = n_choose_k(i, j);
            if c > 0xFFFF_FFFF {
                let mut message: String = String::from_str("binomテーブルの値がu32を超えます C(");
                append_digits(&mut message, i as u64);
                message.append(",");
                append_digits(&mut message, j as u64);
                message.append(")=");
                append_digits(&mut message, c);
                assert(message@ == binom_message(i as nat, j as nat));
                return Err(message);
            }
            push_word(&mut bytes, c as u32, Ghost(words));
            proof {
                let at = words.len() as int;
                words = words.push(c as u32);
                vstd::arithmetic::div_mod::lemma_fundamental_div_mod_converse(
                    at,
                    cols as int,
                    i as int,
                    j as int,
                );
            }
            j += 1;
        }
        proof {
            assert((i + 1) * cols == i * cols + cols) by (nonlinear_arith);
        }
        i += 1;
    }
    assert(words =~= binom_words(n as nat, slot_count as nat));
    Ok(bytes)
}

/// The words of one candidate: index and value of its parts, with absent parts marked.
pub open spec fn cand_words(parts: Seq<(u32, i32)>) -> Seq<u32> {
    Seq::new(
        6,
        |x: int|
            if x / 2 < parts.len() {
                if x % 2 == 0 {
                    parts[x / 2].0
                } else {
                    signed_word(parts[x / 2].1)
                }
            } else if x % 2 == 0 {
                0xFFFF_FFFF
            } else {
                0
            },
    )
}

/// The words of all candidates.
pub open spec fn cands_words(cands: Seq<Cand>) -> Seq<u32>
    decreases cands.len(),
{
    if cands.len() == 0 {
        Seq::empty()
    } else {
        cands_words(cands.drop_last()) + cand_words(cands.last().parts@)
    }
}

/// The candidates, `MAX_PARTS` parts each: later parts are not read, absent ones are marked.
pub fn build_cand_parts(cands: &Vec<Cand>) -> (bytes: Vec<u8>)
    ensures
        bytes@ == words_bytes(cands_words(cands@)),
{
    let mut bytes: Vec<u8> = Vec::new();
    let mut i: usize = 0;
    assert(cands@.take(0) =~= Seq::<Cand>::empty());
    while i < cands.len()
        invariant
            i <= cands@.len(),
            bytes@ == words_bytes(cands_words(cands@.take(i as int))),
        decreases cands@.len() - i,
    {
        let ghost start = cands_words(cands@.take(i as int));
        let ghost one = cand_words(cands@[i as int].parts@);
        let parts: &Vec<(u32, i32)> = &cands[i].parts;
        let mut p: usize = 0;
        assert(start + one.take(0) =~= start);
        while p < MAX_PARTS
            invariant
                p <= 3,
                i < cands@.len(),
                parts@ == cands@[i as int].parts@,
                one == cand_words(parts@),
                bytes@ == words_bytes(start + one.take(2 * p)),
            decreases 3 - p,
        {
            let ghost done = start + one.take(2 * p);
            assert(start + one.take(2 * p + 2) =~= done.push(one[2 * p]).push(one[2 * p + 1]));
            if p < parts.len() {
                let part: (u32, i32) = parts[p];
                push_word(&mut bytes, part.0, Ghost(done));
                proof {
                    lemma_words_push(done.push(part.0), signed_word(part.1));
                }
                push_i32(&mut bytes, part.1);
            } else {
                push_word(&mut bytes, 0xFFFF_FFFF, Ghost(done));
                push_word(&mut bytes, 0, Ghost(done.push(0xFFFF_FFFFu32)));
            }
            p += 1;
        }
        proof {
            assert(one.take(6) =~= one);
            assert(cands@.take(i + 1).drop_last() =~= cands@.take(i as int));
            assert(cands@.take(i + 1).last() == cands@[i as int]);
        }
        i += 1;
    }
    assert(cands@.take(i as int) =~= cands@);
    bytes
}

/// The words of the required levels; one unused pair where there are none.
pub open spec fn req_words(req: Seq<(usize, usize)>) -> Seq<u32> {
    if req.len() == 0 {
        seq![0u32, 0u32]
    } else {
        Seq::new(
            2 * req.len(),
            |x: int|
                if x % 2 == 0 {
                    req[x / 2].0 as u32
                } else {
                    req[x / 2].1 as u32
                },
        )
    }
}

/// The required levels as pairs of attribute index and level. Without any, one unused pair keeps
/// the buffer from being empty.
pub fn build_req_entries(required_idxs: &Vec<(usize, usize)>) -> (bytes: Vec<u8>)
    requires
        forall|j: int|
            0 <= j < required_idxs@.len() ==> (#[trigger] required_idxs@[j]).0 <= u32::MAX
                && required_idxs@[j].1 <= u32::MAX,
    ensures
        bytes@ == words_bytes(req_words(required_idxs@)),
{
    let mut bytes: Vec<u8> = Vec::new();
    if required_idxs.len() == 0 {
        push_word(&mut bytes, 0, Ghost(Seq::empty()));
        push_word(&mut bytes, 0, Ghost(Seq::<u32>::empty().push(0u32)));
        assert(Seq::<u32>::empty().push(0u32).push(0u32) =~= req_words(required_idxs@));
        return bytes;
    }
    let ghost words = req_words(required_idxs@);
    let mut j: usize = 0;
    assert(words.take(0) =~= Seq::<u32>::empty());
    while j < required_idxs.len()
        invariant
            j <= required_idxs@.len(),
            required_idxs@.len() > 0,
            words == req_words(required_idxs@),
            forall|j: int|
                0 <= j < required_idxs@.len() ==> (#[trigger] required_idxs@[j]).0 <= u32::MAX
                    && required_idxs@[j].1 <= u32::MAX,
            bytes@ == words_bytes(words.take(2 * j)),
        decreases required_idxs@.len() - j,
    {
        let r: (usize, usize) = required_idxs[j];
        let ghost done = words.take(2 * j);
        assert(required_idxs@[j as int] == r);
        assert(words[2 * j] == r.0 as u32 && words[2 * j + 1] == r.1 as u32);
        push_word(&mut bytes, r.0 as u32, Ghost(done));
        push_word(&mut bytes, r.1 as u32, Ghost(done.push(r.0 as u32)));
        assert(words.take(2 * j + 2) =~= done.push(r.0 as u32).push(r.1 as u32));
        j += 1;
    }
    assert(words.take(2 * j) =~= words);
    bytes
}

/// The parameters of the kernel that runs in one pass, in their order.
pub fn build_params_bytes(
    n: u32,
    slot_count: u32,
    n_attr: u32,
    prefix_count: u32,
    wg_x: u32,
    table_cols: u32,
    selected_mask: u32,
    soft_excl_mask: u32,
    req_count: u32,
    threshold_hi: u32,
    threshold_lo: u32,
    prune_enabled: u32,
    rank_mode: u32,
) -> (bytes: Vec<u8>)
    ensures
        bytes@ == words_bytes(
            seq![
                n,
                slot_count,
                n_attr,
                prefix_count,
                wg_x,
                table_cols,
                selected_mask,
                soft_excl_mask,
                req_count,
                threshold_hi,
                threshold_lo,
                prune_enabled,
                rank_mode,
            ],
        ),
{
    let words: [u32; 13] = [
        n,
        slot_count,
        n_attr,
        prefix_count,
        wg_x,
        table_cols,
        selected_mask,
        soft_excl_mask,
        req_count,
        threshold_hi,
        threshold_lo,
        prune_enabled,
        rank_mode,
    ];
    let bytes = words_to_bytes(words.as_slice());
    assert(words@ =~= seq![
        n,
        slot_count,
        n_attr,
        prefix_count,
        wg_x,
        table_cols,
        selected_mask,
        soft_excl_mask,
        req_count,
        threshold_hi,
        threshold_lo,
        prune_enabled,
        rank_mode,
    ]);
    bytes
}

/// The parameters of the kernels that run chunk by chunk, in their order.
pub fn build_params_chunked_bytes(
    n: u32,
    slot_count: u32,
    n_attr: u32,
    table_cols: u32,
    selected_mask: u32,
    soft_excl_mask: u32,
    req_count: u32,
    threshold_hi: u32,
    threshold_lo: u32,
    chunk_start: u32,
    chunk_count: u32,
    rank_mode: u32,
) -> (bytes: Vec<u8>)
    ensures
        bytes@ == words_bytes(
            seq![
                n,
                slot_count,
                n_attr,
                table_cols,
                selected_mask,
                soft_excl_mask,
                req_count,
                threshold_hi,
                threshold_lo,
                chunk_start,
                chunk_count,
                rank_mode,
            ],
        ),
{
    let words: [u32; 12] = [
        n,
        slot_count,
        n_attr,
        table_cols,
        selected_mask,
        soft_excl_mask,
        req_count,
        threshold_hi,
        threshold_lo,
        chunk_start,
        chunk_count,
        rank_mode,
    ];
    let bytes = words_to_bytes(words.as_slice());
    assert(words@ =~= seq![
        n,
        slot_count,
        n_attr,
        table_cols,
        selected_mask,
        soft_excl_mask,
        req_count,
        threshold_hi,
        threshold_lo,
        chunk_start,
        chunk_count,
        rank_mode,
    ]);
    bytes
}

/// Words as bytes.
pub fn words_to_bytes(words: &[u32]) -> (bytes: Vec<u8>)
    ensures
        bytes@ == words_bytes(words@),
{
    let mut bytes: Vec<u8> = Vec::new();
    let mut i: usize = 0;
    assert(words@.take(0) =~= Seq::<u32>::empty());
    while i < words.len()
        invariant
            i <= words@.len(),
            bytes@ == words_bytes(words@.take(i as int)),
        decreases words@.len() - i,
    {
        push_word(&mut bytes, words[i], Ghost(words@.take(i as int)));
        assert(words@.take(i + 1) =~= words@.take(i as int).push(words@[i as int]));
        i += 1;
    }
    assert(words@.take(i as int) =~= words@);
    bytes
}

/// The word that four bytes hold, the lowest byte first.
pub open spec fn word_at(bytes: Seq<u8>, at: int) -> int {
    bytes[at] + 256 * bytes[at + 1] + 65536 * bytes[at + 2] + 16777216 * bytes[at + 3]
}

/// Bytes read back as words; bytes that do not fill a word are dropped.
pub fn bytes_to_words(bytes: &[u8]) -> (words: Vec<u32>)
    ensures
        words@.len() == bytes@.len() / 4,
        forall|i: int| 0 <= i < words@.len() ==> #[trigger] words@[i] == word_at(bytes@, 4 * i),
{
    let len: usize = bytes.len();
    let n: usize = len / 4;
    let mut words: Vec<u32> = Vec::new();
    let mut i: usize = 0;
    while i < n
        invariant
            i <= n,
            len == bytes@.len(),
            n == len / 4,
            words@.len() == i,
            forall|j: int| 0 <= j < i ==> #[trigger] words@[j] == word_at(bytes@, 4 * j),
        decreases n - i,
    {
        let at: usize = 4 * i;
        words.push(
            bytes[at] as u32 + 256 * (bytes[at + 1] as u32) + 65536 * (bytes[at + 2] as u32)
                + 16777216 * (bytes[at + 3] as u32),
        );
        i += 1;
    }
    words
}

/// A counter read back from the device.
pub fn read_counter(bytes: &[u8]) -> (counter: Result<u32, String>)
    ensures
        counter is Ok <==> bytes@.len() == 4,
        counter matches Ok(v) ==> v == word_at(bytes@, 0),
        counter matches Err(message) ==> message@ == "counter読込サイズ不正"@,
{
    if bytes.len() != 4 {
        return Err(String::from_str("counter読込サイズ不正"));
    }
    let words: Vec<u32> = bytes_to_words(bytes);
    assert(words@[0] == word_at(bytes@, 4 * 0int));
    Ok(words[0])
}

/// What was written as words is read back as the same words.
pub proof fn law_words_round_trip(words: Seq<u32>, i: int)
    requires
        0 <= i < words.len(),
    ensures
        words_bytes(words).len() == 4 * words.len(),
        word_at(words_bytes(words), 4 * i) == words[i],
    decreases words.len(),
{
    lemma_words_len(words);
    lemma_words_len(words.drop_last());
    let w = words.last();
    if i == words.len() - 1 {
        assert(w % 256 + 256 * ((w / 256) % 256) + 65536 * ((w / 65536) % 256) + 16777216 * (w
            / 16777216) == w) by (bit_vector);
    } else {
        law_words_round_trip(words.drop_last(), i);
    }
}

/// The values of each candidate whose attribute has the mark `flag`, summed.
fn marked_values(space: &SearchSpace, slot_count: usize, flag: bool) -> (values: Vec<i32>)
    requires
        space.wf(slot_count as int),
        slot_count >= 1,
    ensures
        ints(values@) == marked_vals(space.cands@, space.soft_excl_mask@, flag),
{
    let ghost soft = space.soft_excl_mask@;
    proof {
        space.lemma_tables_fit(slot_count as int);
    }
    let mut values: Vec<i32> = Vec::new();
    let mut i: usize = 0;
    while i < space.cands.len()
        invariant
            i <= space.cands@.len(),
            space.wf(slot_count as int),
            soft == space.soft_excl_mask@,
            values@.len() == i,
            forall|j: int|
                0 <= j < space.cands@.len() ==> #[trigger] marked_sum(
                    space.cands@[j].parts@,
                    soft,
                    true,
                ) <= i32::MAX,
            forall|j: int|
                0 <= j < space.cands@.len() ==> #[trigger] marked_sum(
                    space.cands@[j].parts@,
                    soft,
                    false,
                ) <= i32::MAX,
            forall|j: int|
                0 <= j < i ==> values@[j] == marked_sum(space.cands@[j].parts@, soft, flag),
        decreases space.cands@.len() - i,
    {
        assert(marked_sum(space.cands@[i as int].parts@, soft, true) <= i32::MAX);
        assert(marked_sum(space.cands@[i as int].parts@, soft, false) <= i32::MAX);
        values.push(sum_marked(&space.cands[i], &space.soft_excl_mask, space.n_attr, flag));
        i += 1;
    }
    assert(ints(values@) =~= marked_vals(space.cands@, soft, flag));
    values
}

/// The largest counted and left-out sums that `slot_count` candidates can reach, each on its own.
pub fn value_bounds(space: &SearchSpace, slot_count: usize) -> (bounds: (i64, i64))
    requires
        space.wf(slot_count as int),
        slot_count >= 1,
    ensures
        bounds.0 == best_sum(
            marked_vals(space.cands@, space.soft_excl_mask@, false),
            0,
            slot_count as nat,
        ),
        bounds.1 == best_sum(
            marked_vals(space.cands@, space.soft_excl_mask@, true),
            0,
            slot_count as nat,
        ),
{
    let eval_vals: Vec<i32> = marked_values(space, slot_count, false);
    let excl_vals: Vec<i32> = marked_values(space, slot_count, true);
    assert(eval_vals@.len() == ints(eval_vals@).len());
    assert(excl_vals@.len() == ints(excl_vals@).len());
    (top_sum(eval_vals.as_slice(), slot_count), top_sum(excl_vals.as_slice(), slot_count))
}

/// The largest single values: for each position the largest at it or later, 0 past the end.
pub open spec fn suffix_max_words(vals: Seq<int>) -> Seq<u32> {
    Seq::new(vals.len() + 1, |s: int| best_sum(vals, s, 1) as u32)
}

/// The tables of all attributes, one after the other.
pub open spec fn attr_tables(cands: Seq<Cand>, n_attr: nat) -> Seq<u32>
    decreases n_attr,
{
    if n_attr == 0 {
        Seq::empty()
    } else {
        attr_tables(cands, (n_attr - 1) as nat) + suffix_max_words(
            attr_vals(cands, n_attr - 1),
        )
    }
}

proof fn lemma_words_concat(a: Seq<u32>, b: Seq<u32>)
    ensures
        words_bytes(a + b) == words_bytes(a) + words_bytes(b),
    decreases b.len(),
{
    if b.len() == 0 {
        assert(a + b =~= a);
        assert(words_bytes(a) + words_bytes(b) =~= words_bytes(a));
    } else {
        lemma_words_concat(a, b.drop_last());
        assert((a + b).drop_last() =~= a + b.drop_last());
        assert(words_bytes(a + b) =~= words_bytes(a) + words_bytes(b));
    }
}

/// Appends the table of the largest single values.
fn push_suffix_max(bytes: &mut Vec<u8>, values: &Vec<i32>)
    requires
        forall|i: int| 0 <= i < values@.len() ==> #[trigger] values@[i] >= 0,
        values@.len() < usize::MAX,
    ensures
        final(bytes)@ == old(bytes)@ + words_bytes(suffix_max_words(ints(values@))),
{
    let ghost vals = ints(values@);
    let n: usize = values.len();
    let mut table: Vec<u32> = vec![0u32; n + 1];
    let mut s: usize = n;
    let mut largest: i32 = 0;
    while s > 0
        invariant
            s <= n,
            n == values@.len(),
            vals == ints(values@),
            forall|i: int| 0 <= i < values@.len() ==> #[trigger] values@[i] >= 0,
            table@.len() == n + 1,
            largest >= 0,
            largest == best_sum(vals, s as int, 1),
            forall|i: int|
                s <= i <= n ==> #[trigger] table@[i] == best_sum(vals, i, 1) as u32,
        decreases s,
    {
        s -= 1;
        let v: i32 = values[s];
        assert(best_sum(vals, s + 1, 0) == 0);
        assert(v >= 0);
        assert(s + 1 == n ==> largest == 0);
        if v > largest {
            largest = v;
        }
        table.set(s, largest as u32);
    }
    let more: Vec<u8> = words_to_bytes(table.as_slice());
    assert(table@ =~= suffix_max_words(vals));
    let ghost before = bytes@;
    append_bytes(bytes, more.as_slice());
}

/// Appends bytes.
pub fn append_bytes(bytes: &mut Vec<u8>, more: &[u8])
    ensures
        final(bytes)@ == old(bytes)@ + more@,
{
    let ghost before = bytes@;
    let mut i: usize = 0;
    assert(before + more@.take(0) =~= before);
    while i < more.len()
        invariant
            i <= more@.len(),
            bytes@ == before + more@.take(i as int),
        decreases more@.len() - i,
    {
        bytes.push(more[i]);
        i += 1;
        assert(bytes@ =~= before + more@.take(i as int));
    }
    assert(more@.take(i as int) =~= more@);
}

/// The bounds that the kernels prune with: for each attribute, and then for the counted value sum,
/// the largest that one candidate at a position or later holds.
pub fn build_suffix_max_bytes(space: &SearchSpace, slot_count: usize) -> (bytes: Vec<u8>)
    requires
        space.wf(slot_count as int),
        slot_count >= 1,
    ensures
        bytes@ == words_bytes(
            attr_tables(space.cands@, space.n_attr as nat) + suffix_max_words(
                marked_vals(space.cands@, space.soft_excl_mask@, false),
            ),
        ),
{
    let mut bytes: Vec<u8> = Vec::new();
    let mut a: usize = 0;
    proof {
        space.lemma_tables_fit(slot_count as int);
    }
    while a < space.n_attr
        invariant
            a <= space.n_attr,
            space.wf(slot_count as int),
            forall|j: int|
                0 <= j < space.cands@.len() ==> #[trigger] marked_sum(
                    space.cands@[j].parts@,
                    space.soft_excl_mask@,
                    true,
                ) <= i32::MAX,
            forall|j: int|
                0 <= j < space.cands@.len() ==> #[trigger] marked_sum(
                    space.cands@[j].parts@,
                    space.soft_excl_mask@,
                    false,
                ) <= i32::MAX,
            bytes@ == words_bytes(attr_tables(space.cands@, a as nat)),
        decreases space.n_attr - a,
    {
        let values: Vec<i32> = attr_values(space, a, slot_count);
        proof {
            lemma_words_concat(
                attr_tables(space.cands@, a as nat),
                suffix_max_words(attr_vals(space.cands@, a as int)),
            );
            assert(values@.len() == ints(values@).len());
        }
        push_suffix_max(&mut bytes, &values);
        a += 1;
    }
    let values: Vec<i32> = marked_values(space, slot_count, false);
    proof {
        lemma_words_concat(
            attr_tables(space.cands@, space.n_attr as nat),
            suffix_max_words(marked_vals(space.cands@, space.soft_excl_mask@, false)),
        );
        assert(values@.len() == ints(values@).len());
        space.lemma_vals(slot_count as int);
        assert forall|i: int| 0 <= i < values@.len() implies #[trigger] values@[i] >= 0 by {
            assert(ints(values@)[i] == values@[i]);
            assert(0 <= marked_vals(space.cands@, space.soft_excl_mask@, false)[i]);
        }
    }
    push_suffix_max(&mut bytes, &values);
    bytes
}

/// What each candidate holds of attribute `a`.
fn attr_values(space: &SearchSpace, a: usize, slot_count: usize) -> (values: Vec<i32>)
    requires
        space.wf(slot_count as int),
        a < space.n_attr,
        forall|j: int|
            0 <= j < space.cands@.len() ==> #[trigger] marked_sum(
                space.cands@[j].parts@,
                space.soft_excl_mask@,
                true,
            ) <= i32::MAX,
        forall|j: int|
            0 <= j < space.cands@.len() ==> #[trigger] marked_sum(
                space.cands@[j].parts@,
                space.soft_excl_mask@,
                false,
            ) <= i32::MAX,
    ensures
        ints(values@) == attr_vals(space.cands@, a as int),
        forall|i: int| 0 <= i < values@.len() ==> #[trigger] values@[i] >= 0,
{
    let mut values: Vec<i32> = Vec::new();
    let mut i: usize = 0;
    while i < space.cands.len()
        invariant
            i <= space.cands@.len(),
            space.wf(slot_count as int),
            a < space.n_attr,
            values@.len() == i,
            forall|j: int|
                0 <= j < space.cands@.len() ==> #[trigger] marked_sum(
                    space.cands@[j].parts@,
                    space.soft_excl_mask@,
                    true,
                ) <= i32::MAX,
            forall|j: int|
                0 <= j < space.cands@.len() ==> #[trigger] marked_sum(
                    space.cands@[j].parts@,
                    space.soft_excl_mask@,
                    false,
                ) <= i32::MAX,
            forall|j: int|
                0 <= j < i ==> #[trigger] values@[j] == attr_sum(
                    space.cands@[j].parts@,
                    a as int,
                ) && values@[j] >= 0,
        decreases space.cands@.len() - i,
    {
        proof {
            let parts = space.cands@[i as int].parts@;
            let soft = space.soft_excl_mask@;
            assert(parts_ok(parts, space.n_attr as int));
            lemma_attr_sum_bounds(parts, soft, space.n_attr as int);
            assert(attr_sum(parts, a as int) <= marked_sum(parts, soft, soft[a as int]));
            assert(marked_sum(parts, soft, true) <= i32::MAX);
            assert(marked_sum(parts, soft, false) <= i32::MAX);
        }
        values.push(sum_of_attr(&space.cands[i], a, space.n_attr));
        i += 1;
    }
    assert(ints(values@) =~= attr_vals(space.cands@, a as int));
    values
}


} // verus!
