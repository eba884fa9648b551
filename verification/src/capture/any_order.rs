//! Segments of a connection yield the same frames in whatever order they arrive.

use crate::capture::tcp_reassembler::{
    buffered, drain, find_from, frames, is_sound, law_frames_of_parts, lemma_sound_beginning, put,
    receive, seq_after, seq_ahead, Held, StreamView, REASSEMBLY_RESYNC_BYTES, SEQ_FORWARD_WINDOW,
};
use vstd::prelude::*;

verus! {

/// Whether `cuts` parts `len` bytes into segments that are not empty: segment `i` reaches from
/// `cuts[i]` to `cuts[i + 1]`.
pub open spec fn is_partition(cuts: Seq<int>, len: int) -> bool {
    &&& cuts.len() >= 1
    &&& cuts[0] == 0
    &&& cuts[cuts.len() - 1] == len
    &&& forall|i: int, j: int| 0 <= i < j < cuts.len() ==> cuts[i] < cuts[j]
}

/// The sequence number at a cut.
pub open spec fn seq_at(start: u32, cuts: Seq<int>, i: int) -> u32 {
    seq_after(start, cuts[i] as nat)
}

/// A segment of a stream: its sequence number and its bytes.
pub open spec fn segment(stream: Seq<u8>, start: u32, cuts: Seq<int>, i: int) -> (u32, Seq<u8>) {
    (seq_at(start, cuts, i), stream.subrange(cuts[i], cuts[i + 1]))
}

/// The first segment at `from` or later that is not among `done` (the number of segments where all
/// are).
pub open spec fn gap(done: Set<int>, from: int, n: int) -> int
    decreases n - from,
{
    if from >= n || !done.contains(from) {
        from
    } else {
        gap(done, from + 1, n)
    }
}

/// The bytes of the segments at `from` or later that are among `done`.
pub open spec fn beyond(cuts: Seq<int>, done: Set<int>, from: int) -> int
    decreases cuts.len() - from,
{
    if from >= cuts.len() - 1 {
        0
    } else {
        beyond(cuts, done, from + 1) + if done.contains(from) {
            cuts[from + 1] - cuts[from]
        } else {
            0
        }
    }
}

/// The bytes that wait for a missing segment when the segments `done` have arrived.
pub open spec fn waiting(cuts: Seq<int>, done: Set<int>) -> int {
    beyond(cuts, done, gap(done, 0, cuts.len() - 1))
}

/// Whether `order` names each segment once, and so few bytes wait at any time that no missing
/// segment is given up.
pub open spec fn arrives(cuts: Seq<int>, order: Seq<int>) -> bool {
    &&& order.len() == cuts.len() - 1
    &&& order.no_duplicates()
    &&& forall|k: int| 0 <= k < order.len() ==> 0 <= #[trigger] order[k] < cuts.len() - 1
    &&& forall|k: int|
        0 <= k <= order.len() ==> #[trigger] waiting(cuts, order.take(k).to_set())
            < REASSEMBLY_RESYNC_BYTES
}

/// What segments yield, one after the other, and the state then.
pub open spec fn received(s: StreamView, segs: Seq<(u32, Seq<u8>)>, clear: bool) -> (
    Seq<Seq<u8>>,
    StreamView,
)
    decreases segs.len(),
{
    if segs.len() == 0 {
        (Seq::empty(), s)
    } else {
        let before = received(s, segs.drop_last(), clear);
        let next = receive(before.1, segs.last().0, segs.last().1, clear);
        (before.0 + next.0, next.1)
    }
}

/// The segments of a stream in some order.
pub open spec fn in_order(
    stream: Seq<u8>,
    start: u32,
    cuts: Seq<int>,
    order: Seq<int>,
) -> Seq<(u32, Seq<u8>)> {
    Seq::new(order.len(), |k: int| segment(stream, start, cuts, order[k]))
}

/// Whether `x` is one of the segments `waits`.
#[verifier::opaque]
spec fn comes_from(
    x: (u32, Seq<u8>),
    waits: Set<int>,
    stream: Seq<u8>,
    start: u32,
    cuts: Seq<int>,
) -> bool {
    exists|i: int| #[trigger] waits.contains(i) && x == segment(stream, start, cuts, i)
}

/// Whether `x` waits.
#[verifier::opaque]
spec fn is_held(held: Held, x: (u32, Seq<u8>)) -> bool {
    held.contains(x)
}

/// Whether the segments that wait are those of `waits`, each once.
spec fn holds(
    held: Held,
    waits: Set<int>,
    stream: Seq<u8>,
    start: u32,
    cuts: Seq<int>,
) -> bool {
    &&& forall|i: int, j: int| 0 <= i < j < held.len() ==> held[i].0 < held[j].0
    &&& forall|j: int|
        0 <= j < held.len() ==> comes_from(#[trigger] held[j], waits, stream, start, cuts)
    &&& forall|i: int| #[trigger]
        waits.contains(i) ==> is_held(held, segment(stream, start, cuts, i))
}

/// The segment that waits at a place.
proof fn lemma_whose(
    held: Held,
    waits: Set<int>,
    stream: Seq<u8>,
    start: u32,
    cuts: Seq<int>,
    j: int,
) -> (i: int)
    requires
        holds(held, waits, stream, start, cuts),
        0 <= j < held.len(),
    ensures
        waits.contains(i),
        held[j] == segment(stream, start, cuts, i),
{
    assert(comes_from(held[j], waits, stream, start, cuts));
    reveal(comes_from);
    choose|i: int| #[trigger] waits.contains(i) && held[j] == segment(stream, start, cuts, i)
}

/// The place at which a segment waits.
proof fn lemma_where(
    held: Held,
    waits: Set<int>,
    stream: Seq<u8>,
    start: u32,
    cuts: Seq<int>,
    i: int,
) -> (j: int)
    requires
        holds(held, waits, stream, start, cuts),
        waits.contains(i),
    ensures
        0 <= j < held.len(),
        held[j] == segment(stream, start, cuts, i),
{
    let x = segment(stream, start, cuts, i);
    assert(is_held(held, x));
    reveal(is_held);
    choose|j: int| 0 <= j < held.len() && held[j] == x
}

/// Sequence numbers of a short stream tell its cuts apart, and lie ahead of earlier ones.
proof fn lemma_seq_at(start: u32, cuts: Seq<int>, len: int, a: int, b: int)
    requires
        is_partition(cuts, len),
        len < SEQ_FORWARD_WINDOW,
        0 <= a <= b < cuts.len(),
    ensures
        0 <= cuts[a] <= cuts[b] <= len,
        seq_ahead(seq_at(start, cuts, b), seq_at(start, cuts, a)) == cuts[b] - cuts[a],
        a < b ==> seq_at(start, cuts, a) != seq_at(start, cuts, b),
        seq_after(seq_at(start, cuts, a), (cuts[b] - cuts[a]) as nat) == seq_at(start, cuts, b),
{
    let m: int = 0x1_0000_0000;
    assert(a > 0 ==> cuts[0] < cuts[a]);
    assert(a < b ==> cuts[a] < cuts[b]);
    assert(b < cuts.len() - 1 ==> cuts[b] < cuts[cuts.len() - 1]);
    let x = start + cuts[a];
    let y = start + cuts[b];
    let p: int = if x < m {
        0
    } else {
        1
    };
    let q: int = if y < m {
        0
    } else {
        1
    };
    vstd::arithmetic::div_mod::lemma_fundamental_div_mod_converse(x, m, p, x - p * m);
    vstd::arithmetic::div_mod::lemma_fundamental_div_mod_converse(y, m, q, y - q * m);
    let d = cuts[b] - cuts[a];
    vstd::arithmetic::div_mod::lemma_fundamental_div_mod_converse(
        (y - q * m) - (x - p * m),
        m,
        p - q,
        d,
    );
    vstd::arithmetic::div_mod::lemma_fundamental_div_mod_converse(
        (x - p * m) + d,
        m,
        q - p,
        y - q * m,
    );
}

/// Two segments are the same one only where they have the same number.
proof fn lemma_same_seq(start: u32, cuts: Seq<int>, len: int, a: int, b: int)
    requires
        is_partition(cuts, len),
        len < SEQ_FORWARD_WINDOW,
        0 <= a < cuts.len(),
        0 <= b < cuts.len(),
        seq_at(start, cuts, a) == seq_at(start, cuts, b),
    ensures
        a == b,
{
    if a < b {
        lemma_seq_at(start, cuts, len, a, b);
    } else if b < a {
        lemma_seq_at(start, cuts, len, b, a);
    }
}

/// A segment with a new number is put among those that wait.
proof fn lemma_put(held: Held, seq: u32, bytes: Seq<u8>)
    requires
        forall|i: int, j: int| 0 <= i < j < held.len() ==> held[i].0 < held[j].0,
        forall|i: int| 0 <= i < held.len() ==> (#[trigger] held[i]).0 != seq,
    ensures
        ({
            let more = put(held, seq, bytes);
            &&& forall|i: int, j: int| 0 <= i < j < more.len() ==> more[i].0 < more[j].0
            &&& forall|x: (u32, Seq<u8>)| #[trigger]
                more.contains(x) <==> held.contains(x) || x == (seq, bytes)
        }),
    decreases held.len(),
{
    let more = put(held, seq, bytes);
    let x = (seq, bytes);
    if held.len() == 0 {
        assert(more =~= seq![x]);
        assert(more[0] == x);
    } else if seq < held[0].0 {
        assert(more =~= seq![x] + held);
        assert forall|i: int, j: int| 0 <= i < j < more.len() implies more[i].0 < more[j].0 by {
            assert(more[j] == held[j - 1]);
            if i > 0 {
                assert(more[i] == held[i - 1]);
            } else if j > 1 {
                assert(held[0].0 < held[j - 1].0);
            }
        }
        assert forall|y: (u32, Seq<u8>)| #[trigger] more.contains(y) <==> held.contains(y) || y
            == x by {
            assert(more[0] == x);
            if held.contains(y) {
                let i = choose|i: int| 0 <= i < held.len() && held[i] == y;
                assert(more[i + 1] == y);
            }
            if more.contains(y) {
                let i = choose|i: int| 0 <= i < more.len() && more[i] == y;
                if i > 0 {
                    assert(held[i - 1] == y);
                }
            }
        }
    } else {
        let rest = held.drop_first();
        let tail = put(rest, seq, bytes);
        assert(more =~= seq![held[0]] + tail);
        assert forall|i: int| 0 <= i < rest.len() implies (#[trigger] rest[i]).0 != seq by {
            assert(rest[i] == held[i + 1]);
        }
        assert forall|i: int, j: int| 0 <= i < j < rest.len() implies rest[i].0 < rest[j].0 by {
            assert(held[i + 1].0 < held[j + 1].0);
        }
        lemma_put(rest, seq, bytes);
        assert(held[0].0 != seq);
        assert forall|i: int, j: int| 0 <= i < j < more.len() implies more[i].0 < more[j].0 by {
            assert(more[j] == tail[j - 1]);
            assert(tail.contains(tail[j - 1]));
            if i > 0 {
                assert(more[i] == tail[i - 1]);
            } else if tail[j - 1] != x {
                assert(rest.contains(tail[j - 1]));
                let y = choose|y: int| 0 <= y < rest.len() && rest[y] == tail[j - 1];
                assert(held[0].0 < held[y + 1].0);
            }
        }
        assert forall|y: (u32, Seq<u8>)| #[trigger] more.contains(y) <==> held.contains(y) || y
            == x by {
            assert(tail.contains(y) <==> rest.contains(y) || y == x);
            assert(more[0] == held[0]);
            if more.contains(y) {
                let i = choose|i: int| 0 <= i < more.len() && more[i] == y;
                if i > 0 {
                    assert(tail[i - 1] == y);
                    assert(tail.contains(y));
                    if rest.contains(y) {
                        let j = choose|j: int| 0 <= j < rest.len() && rest[j] == y;
                        assert(held[j + 1] == y);
                    }
                }
            }
            if held.contains(y) {
                let i = choose|i: int| 0 <= i < held.len() && held[i] == y;
                if i > 0 {
                    assert(rest[i - 1] == y);
                    assert(rest.contains(y));
                }
            }
            if tail.contains(y) {
                let i = choose|i: int| 0 <= i < tail.len() && tail[i] == y;
                assert(more[i + 1] == y);
            }
        }
    }
}

/// One more segment waits.
proof fn lemma_hold_more(
    held: Held,
    waits: Set<int>,
    stream: Seq<u8>,
    start: u32,
    cuts: Seq<int>,
    i: int,
)
    requires
        is_partition(cuts, stream.len() as int),
        stream.len() < SEQ_FORWARD_WINDOW,
        holds(held, waits, stream, start, cuts),
        forall|x: int| #[trigger] waits.contains(x) ==> 0 <= x < cuts.len() - 1,
        0 <= i < cuts.len() - 1,
        !waits.contains(i),
    ensures
        ({
            let seg = segment(stream, start, cuts, i);
            holds(put(held, seg.0, seg.1), waits.insert(i), stream, start, cuts)
        }),
{
    let seg = segment(stream, start, cuts, i);
    let more = put(held, seg.0, seg.1);
    let after = waits.insert(i);
    assert forall|j: int| 0 <= j < held.len() implies (#[trigger] held[j]).0 != seg.0 by {
        let x = lemma_whose(held, waits, stream, start, cuts, j);
        if held[j].0 == seg.0 {
            lemma_same_seq(start, cuts, stream.len() as int, x, i);
        }
    }
    lemma_put(held, seg.0, seg.1);
    assert forall|j: int| 0 <= j < more.len() implies comes_from(
        #[trigger] more[j],
        after,
        stream,
        start,
        cuts,
    ) by {
        reveal(comes_from);
        assert(more.contains(more[j]));
        if more[j] == seg {
            assert(after.contains(i));
        } else {
            let y = choose|y: int| 0 <= y < held.len() && held[y] == more[j];
            let x = lemma_whose(held, waits, stream, start, cuts, y);
            assert(after.contains(x));
        }
    }
    assert forall|x: int| #[trigger] after.contains(x) implies is_held(
        more,
        segment(stream, start, cuts, x),
    ) by {
        reveal(is_held);
        let want = segment(stream, start, cuts, x);
        if x != i {
            let y = lemma_where(held, waits, stream, start, cuts, x);
            assert(held.contains(want));
        }
        assert(more.contains(want));
    }
}

/// One segment fewer waits.
proof fn lemma_hold_less(
    held: Held,
    waits: Set<int>,
    stream: Seq<u8>,
    start: u32,
    cuts: Seq<int>,
    i: int,
    at: int,
)
    requires
        is_partition(cuts, stream.len() as int),
        stream.len() < SEQ_FORWARD_WINDOW,
        holds(held, waits, stream, start, cuts),
        forall|x: int| #[trigger] waits.contains(x) ==> 0 <= x < cuts.len() - 1,
        0 <= i < cuts.len() - 1,
        0 <= at < held.len(),
        held[at] == segment(stream, start, cuts, i),
    ensures
        holds(held.remove(at), waits.remove(i), stream, start, cuts),
{
    let rest = held.remove(at);
    let after = waits.remove(i);
    assert forall|a: int, b: int| 0 <= a < b < rest.len() implies rest[a].0 < rest[b].0 by {
        let x = if a < at {
            a
        } else {
            a + 1
        };
        let y = if b < at {
            b
        } else {
            b + 1
        };
        assert(held[x].0 < held[y].0);
    }
    assert forall|j: int| 0 <= j < rest.len() implies comes_from(
        #[trigger] rest[j],
        after,
        stream,
        start,
        cuts,
    ) by {
        reveal(comes_from);
        let y = if j < at {
            j
        } else {
            j + 1
        };
        let x = lemma_whose(held, waits, stream, start, cuts, y);
        if y < at {
            assert(held[y].0 < held[at].0);
        } else {
            assert(held[at].0 < held[y].0);
        }
        assert(after.contains(x));
    }
    assert forall|x: int| #[trigger] after.contains(x) implies is_held(
        rest,
        segment(stream, start, cuts, x),
    ) by {
        reveal(is_held);
        let y = lemma_where(held, waits, stream, start, cuts, x);
        if y == at {
            lemma_same_seq(start, cuts, stream.len() as int, x, i);
        }
        let j = if y < at {
            y
        } else {
            y - 1
        };
        assert(rest[j] == segment(stream, start, cuts, x));
    }
}

/// Where a segment is found.
proof fn lemma_find(held: Held, seq: u32, from: int)
    requires
        0 <= from <= held.len(),
    ensures
        match find_from(held, seq, from) {
            Some(i) => from <= i < held.len() && held[i].0 == seq,
            None => forall|i: int| from <= i < held.len() ==> (#[trigger] held[i]).0 != seq,
        },
    decreases held.len() - from,
{
    if from < held.len() && held[from].0 != seq {
        lemma_find(held, seq, from + 1);
    }
}

/// The segments of `waits` at `from` or later.
pub open spec fn later(waits: Set<int>, from: int) -> Set<int> {
    waits.filter(|i: int| i >= from)
}

/// Segments that follow on are moved to the data.
proof fn lemma_drain(
    held: Held,
    waits: Set<int>,
    stream: Seq<u8>,
    start: u32,
    cuts: Seq<int>,
    from: int,
    data: Seq<u8>,
)
    requires
        is_partition(cuts, stream.len() as int),
        stream.len() < SEQ_FORWARD_WINDOW,
        holds(held, waits, stream, start, cuts),
        forall|x: int| #[trigger] waits.contains(x) ==> from <= x < cuts.len() - 1,
        0 <= from < cuts.len(),
    ensures
        ({
            let to = gap(waits, from, cuts.len() - 1);
            let d = drain(seq_at(start, cuts, from), held, data);
            &&& from <= to < cuts.len()
            &&& d.0 == seq_at(start, cuts, to)
            &&& d.2 == data + stream.subrange(cuts[from], cuts[to])
            &&& holds(d.1, later(waits, to), stream, start, cuts)
        }),
    decreases cuts.len() - from,
{
    let n = cuts.len() - 1;
    let next = seq_at(start, cuts, from);
    lemma_find(held, next, 0);
    lemma_seq_at(start, cuts, stream.len() as int, from, from);
    if from < n && waits.contains(from) {
        lemma_seq_at(start, cuts, stream.len() as int, from, from + 1);
        let y = lemma_where(held, waits, stream, start, cuts, from);
        assert(held[y].0 == next);
        let at = find_from(held, next, 0)->0;
        let x = lemma_whose(held, waits, stream, start, cuts, at);
        lemma_same_seq(start, cuts, stream.len() as int, x, from);
        assert(held[at] == segment(stream, start, cuts, from));
        lemma_hold_less(held, waits, stream, start, cuts, from, at);
        let rest = waits.remove(from);
        let bytes = held[at].1;
        assert(bytes.len() == cuts[from + 1] - cuts[from]);
        lemma_drain(held.remove(at), rest, stream, start, cuts, from + 1, data + bytes);
        lemma_gap_same(waits, rest, from + 1, n);
        let to = gap(waits, from, n);
        lemma_seq_at(start, cuts, stream.len() as int, from + 1, to);
        assert(later(rest, to) =~= later(waits, to));
        assert(data + bytes + stream.subrange(cuts[from + 1], cuts[to]) =~= data
            + stream.subrange(cuts[from], cuts[to]));
    } else {
        assert(find_from(held, next, 0) is None) by {
            if find_from(held, next, 0) is Some {
                let at = find_from(held, next, 0)->0;
                let x = lemma_whose(held, waits, stream, start, cuts, at);
                lemma_same_seq(start, cuts, stream.len() as int, x, from);
            }
        }
        assert(later(waits, from) =~= waits);
        assert(data + stream.subrange(cuts[from], cuts[from]) =~= data);
    }
}

/// The gap depends on what comes later only.
proof fn lemma_gap_same(a: Set<int>, b: Set<int>, from: int, n: int)
    requires
        from <= n,
        forall|i: int| from <= i < n ==> (#[trigger] a.contains(i) <==> b.contains(i)),
    ensures
        gap(a, from, n) == gap(b, from, n),
        from <= gap(a, from, n) <= n,
        forall|i: int| from <= i < gap(a, from, n) ==> #[trigger] a.contains(i),
        gap(a, from, n) < n ==> !a.contains(gap(a, from, n)),
    decreases n - from,
{
    if from < n {
        assert(a.contains(from) <==> b.contains(from));
        if a.contains(from) {
            lemma_gap_same(a, b, from + 1, n);
        }
    }
}

/// What is there is passed over.
proof fn lemma_gap_skip(done: Set<int>, from: int, to: int, n: int)
    requires
        from <= to <= n,
        forall|i: int| from <= i < to ==> #[trigger] done.contains(i),
    ensures
        gap(done, from, n) == gap(done, to, n),
    decreases to - from,
{
    if from < to {
        assert(done.contains(from));
        lemma_gap_skip(done, from + 1, to, n);
    }
}

/// The bytes that wait depend on what comes later only.
proof fn lemma_beyond_same(cuts: Seq<int>, a: Set<int>, b: Set<int>, from: int)
    requires
        0 <= from,
        forall|i: int| from <= i < cuts.len() - 1 ==> (#[trigger] a.contains(i) <==> b.contains(i)),
    ensures
        beyond(cuts, a, from) == beyond(cuts, b, from),
    decreases cuts.len() - from,
{
    if from < cuts.len() - 1 {
        assert(a.contains(from) <==> b.contains(from));
        lemma_beyond_same(cuts, a, b, from + 1);
    }
}

/// One segment apart from the others that wait.
proof fn lemma_buffered_remove(held: Held, at: int)
    requires
        0 <= at < held.len(),
    ensures
        buffered(held) == buffered(held.remove(at)) + held[at].1.len(),
    decreases held.len(),
{
    if at == held.len() - 1 {
        assert(held.remove(at) =~= held.drop_last());
    } else {
        lemma_buffered_remove(held.drop_last(), at);
        assert(held.drop_last().remove(at) =~= held.remove(at).drop_last());
        assert(held.remove(at).last() == held.last());
    }
}

/// The bytes that wait.
proof fn lemma_buffered(
    held: Held,
    waits: Set<int>,
    stream: Seq<u8>,
    start: u32,
    cuts: Seq<int>,
    from: int,
)
    requires
        is_partition(cuts, stream.len() as int),
        stream.len() < SEQ_FORWARD_WINDOW,
        holds(held, waits, stream, start, cuts),
        forall|x: int| #[trigger] waits.contains(x) ==> from <= x < cuts.len() - 1,
        0 <= from < cuts.len(),
    ensures
        buffered(held) == beyond(cuts, waits, from),
    decreases cuts.len() - from,
{
    if from == cuts.len() - 1 {
        if held.len() > 0 {
            let x = lemma_whose(held, waits, stream, start, cuts, 0);
        }
    } else if waits.contains(from) {
        let at = lemma_where(held, waits, stream, start, cuts, from);
        lemma_seq_at(start, cuts, stream.len() as int, from, from + 1);
        lemma_seq_at(start, cuts, stream.len() as int, from + 1, from + 1);
        lemma_buffered_remove(held, at);
        lemma_hold_less(held, waits, stream, start, cuts, from, at);
        let rest = waits.remove(from);
        lemma_buffered(held.remove(at), rest, stream, start, cuts, from + 1);
        lemma_beyond_same(cuts, waits, rest, from + 1);
    } else {
        assert forall|x: int| #[trigger] waits.contains(x) implies from + 1 <= x < cuts.len()
            - 1 by {}
        lemma_buffered(held, waits, stream, start, cuts, from + 1);
    }
}

/// The state after the segments `done` of a stream have arrived.
spec fn arrived(
    r: (Seq<Seq<u8>>, StreamView),
    done: Set<int>,
    stream: Seq<u8>,
    start: u32,
    cuts: Seq<int>,
    clear: bool,
) -> bool {
    let to = gap(done, 0, cuts.len() - 1);
    let f = frames(stream.take(cuts[to]), clear);
    &&& r.0 == f.0
    &&& r.1.next == Some(seq_at(start, cuts, to))
    &&& r.1.data == f.1
    &&& holds(r.1.held, later(done, to), stream, start, cuts)
}

/// One more segment arrives.
proof fn lemma_next_arrives(
    r: (Seq<Seq<u8>>, StreamView),
    done: Set<int>,
    stream: Seq<u8>,
    start: u32,
    cuts: Seq<int>,
    clear: bool,
    i: int,
)
    requires
        is_partition(cuts, stream.len() as int),
        stream.len() < SEQ_FORWARD_WINDOW,
        clear ==> is_sound(stream),
        arrived(r, done, stream, start, cuts, clear),
        forall|x: int| #[trigger] done.contains(x) ==> 0 <= x < cuts.len() - 1,
        0 <= i < cuts.len() - 1,
        !done.contains(i),
        waiting(cuts, done.insert(i)) < REASSEMBLY_RESYNC_BYTES,
    ensures
        ({
            let seg = segment(stream, start, cuts, i);
            let x = receive(r.1, seg.0, seg.1, clear);
            arrived((r.0 + x.0, x.1), done.insert(i), stream, start, cuts, clear)
        }),
{
    let n = cuts.len() - 1;
    let len = stream.len() as int;
    let more = done.insert(i);
    let from = gap(done, 0, n);
    let waits = later(done, from);
    let seg = segment(stream, start, cuts, i);
    lemma_gap_same(done, done, 0, n);
    lemma_gap_same(more, more, 0, n);
    assert(i >= from);
    lemma_seq_at(start, cuts, len, from, i);
    lemma_seq_at(start, cuts, len, i, i + 1);
    lemma_hold_more(r.1.held, waits, stream, start, cuts, i);
    let held = put(r.1.held, seg.0, seg.1);
    let all = waits.insert(i);
    assert forall|x: int| #[trigger] all.contains(x) implies from <= x < n by {}
    lemma_drain(held, all, stream, start, cuts, from, r.1.data);
    let to = gap(all, from, n);
    lemma_gap_same(all, more, from, n);
    lemma_gap_skip(more, 0, from, n);
    assert(to == gap(more, 0, n));
    let d = drain(seq_at(start, cuts, from), held, r.1.data);
    assert(later(all, to) =~= later(more, to));
    lemma_buffered(d.1, later(more, to), stream, start, cuts, to);
    lemma_beyond_same(cuts, later(more, to), more, to);
    assert(buffered(d.1) < REASSEMBLY_RESYNC_BYTES);
    lemma_seq_at(start, cuts, len, from, to);
    let a = stream.take(cuts[from]);
    let b = stream.subrange(cuts[from], cuts[to]);
    assert(a + b =~= stream.take(cuts[to]));
    if clear {
        assert(stream =~= stream.take(cuts[to]) + stream.skip(cuts[to]));
        lemma_sound_beginning(stream.take(cuts[to]), stream.skip(cuts[to]));
    }
    law_frames_of_parts(a, b, clear);
    assert(seg.1.len() > 0);
}

/// Whatever the order in which the segments of a stream arrive, each once: the frames are the
/// frames of the stream, in its order, each once; what makes no whole frame yet stays, and nothing
/// waits any more.
pub proof fn law_arrival_order_does_not_matter(
    stream: Seq<u8>,
    start: u32,
    cuts: Seq<int>,
    order: Seq<int>,
    clear: bool,
)
    requires
        stream.len() < SEQ_FORWARD_WINDOW,
        is_partition(cuts, stream.len() as int),
        arrives(cuts, order),
        clear ==> is_sound(stream),
    ensures
        received(
            StreamView { next: Some(start), held: Seq::empty(), data: Seq::empty() },
            in_order(stream, start, cuts, order),
            clear,
        ) == (
            frames(stream, clear).0,
            StreamView {
                next: Some(seq_after(start, stream.len())),
                held: Seq::empty(),
                data: frames(stream, clear).1,
            },
        ),
{
    let n = cuts.len() - 1;
    let fresh = StreamView { next: Some(start), held: Seq::empty(), data: Seq::empty() };
    let segs = in_order(stream, start, cuts, order);
    lemma_arrived_after(stream, start, cuts, order, clear, order.len() as int);
    assert(segs.take(order.len() as int) =~= segs);
    assert(order.take(order.len() as int) =~= order);
    let done = order.to_set();
    lemma_all_done(order, n);
    lemma_gap_skip(done, 0, n, n);
    assert(gap(done, n, n) == n);
    assert(stream.take(cuts[n]) =~= stream);
    let r = received(fresh, segs, clear);
    assert(r.1.held =~= Seq::<(u32, Seq<u8>)>::empty()) by {
        if r.1.held.len() > 0 {
            let x = lemma_whose(r.1.held, later(done, n), stream, start, cuts, 0);
            assert(done.contains(x));
            let k = choose|k: int| 0 <= k < order.len() && order[k] == x;
            assert(order[k] < n);
        }
    }
}

/// Each segment is named.
proof fn lemma_all_done(order: Seq<int>, n: int)
    requires
        order.len() == n,
        order.no_duplicates(),
        forall|k: int| 0 <= k < order.len() ==> 0 <= #[trigger] order[k] < n,
    ensures
        forall|i: int| 0 <= i < n ==> #[trigger] order.to_set().contains(i),
{
    let all = vstd::set_lib::set_int_range(0, n);
    vstd::set_lib::lemma_int_range(0, n);
    order.unique_seq_to_set();
    assert(order.to_set().subset_of(all)) by {
        assert forall|x: int| order.to_set().contains(x) implies all.contains(x) by {
            let k = choose|k: int| 0 <= k < order.len() && order[k] == x;
            assert(0 <= order[k] < n);
        }
    }
    vstd::set_lib::lemma_subset_equality(order.to_set(), all);
}

/// The state after the first segments.
proof fn lemma_arrived_after(
    stream: Seq<u8>,
    start: u32,
    cuts: Seq<int>,
    order: Seq<int>,
    clear: bool,
    k: int,
)
    requires
        stream.len() < SEQ_FORWARD_WINDOW,
        is_partition(cuts, stream.len() as int),
        arrives(cuts, order),
        clear ==> is_sound(stream),
        0 <= k <= order.len(),
    ensures
        arrived(
            received(
                StreamView { next: Some(start), held: Seq::empty(), data: Seq::empty() },
                in_order(stream, start, cuts, order).take(k),
                clear,
            ),
            order.take(k).to_set(),
            stream,
            start,
            cuts,
            clear,
        ),
    decreases k,
{
    let n = cuts.len() - 1;
    let fresh = StreamView { next: Some(start), held: Seq::empty(), data: Seq::empty() };
    let segs = in_order(stream, start, cuts, order);
    if k == 0 {
        let none = order.take(0).to_set();
        assert(segs.take(0) =~= Seq::<(u32, Seq<u8>)>::empty());
        assert(none =~= Set::<int>::empty());
        assert(gap(none, 0, n) == 0);
        assert(stream.take(0) =~= Seq::<u8>::empty());
        lemma_seq_at(start, cuts, stream.len() as int, 0, 0);
        assert(seq_after(start, 0) == start) by {
            vstd::arithmetic::div_mod::lemma_small_mod(start as nat, 0x1_0000_0000);
        }
        assert(later(none, 0) =~= Set::<int>::empty());
    } else {
        lemma_arrived_after(stream, start, cuts, order, clear, k - 1);
        let i = order[k - 1];
        let before = order.take(k - 1);
        let done = before.to_set();
        let r = received(fresh, segs.take(k - 1), clear);
        assert(!done.contains(i)) by {
            if done.contains(i) {
                let j = choose|j: int| 0 <= j < k - 1 && before[j] == i;
                assert(order[j] == order[k - 1]);
            }
        }
        assert forall|x: int| #[trigger] done.contains(x) implies 0 <= x < n by {
            let j = choose|j: int| 0 <= j < k - 1 && before[j] == x;
            assert(0 <= order[j] < n);
        }
        assert(order.take(k).to_set() =~= done.insert(i)) by {
            let part = order.take(k);
            assert(part =~= before.push(i));
            assert forall|x: int| part.to_set().contains(x) <==> done.insert(i).contains(x) by {
                if done.contains(x) {
                    let j = choose|j: int| 0 <= j < k - 1 && before[j] == x;
                    assert(part[j] == x);
                }
                assert(part[k - 1] == i);
                if part.contains(x) {
                    let j = choose|j: int| 0 <= j < k && part[j] == x;
                    if j < k - 1 {
                        assert(before[j] == x);
                    }
                }
            }
        }
        assert(waiting(cuts, order.take(k).to_set()) < REASSEMBLY_RESYNC_BYTES);
        lemma_next_arrives(r, done, stream, start, cuts, clear, i);
        assert(segs.take(k).drop_last() =~= segs.take(k - 1));
        assert(segs.take(k).last() == segment(stream, start, cuts, i));
    }
}

} // verus!
