//! Segments of a connection put together into frames.

use crate::capture::binary_reader::{be32, copy_bytes, copy_range, read_be32};
use vstd::prelude::*;

verus! {

/// A segment this far or further ahead of the next expected one is taken for an old one.
pub const SEQ_FORWARD_WINDOW: u32 = 16 * 1024 * 1024;

/// When this many bytes wait for a missing segment, it is given up.
pub const REASSEMBLY_RESYNC_BYTES: usize = 32 * 1024;

/// The length of the shortest frame.
pub const MIN_PACKET_SIZE: u32 = 6;

/// The length of the longest frame.
pub const MAX_PACKET_SIZE: u32 = 10 * 1024 * 1024;

/// The segments that wait, in increasing order of their sequence numbers.
pub type Held = Seq<(u32, Seq<u8>)>;

/// The sequence number after `len` bytes.
pub open spec fn seq_after(seq: u32, len: nat) -> u32 {
    ((seq + len) % 0x1_0000_0000) as u32
}

/// How far `seq` lies ahead of `next`.
pub open spec fn seq_ahead(seq: u32, next: u32) -> int {
    (seq - next) % 0x1_0000_0000
}

/// The first position at `i` or later that holds the segment `seq`.
pub open spec fn find_from(held: Held, seq: u32, i: int) -> Option<int>
    decreases held.len() - i,
{
    if i < 0 || i >= held.len() {
        None
    } else if held[i].0 == seq {
        Some(i)
    } else {
        find_from(held, seq, i + 1)
    }
}

/// `held` with the segment put in its place; a segment with the same number is replaced.
pub open spec fn put(held: Held, seq: u32, bytes: Seq<u8>) -> Held
    decreases held.len(),
{
    if held.len() == 0 {
        seq![(seq, bytes)]
    } else if held[0].0 == seq {
        seq![(seq, bytes)] + held.drop_first()
    } else if seq < held[0].0 {
        seq![(seq, bytes)] + held
    } else {
        seq![held[0]] + put(held.drop_first(), seq, bytes)
    }
}

/// The number of bytes that wait.
pub open spec fn buffered(held: Held) -> nat
    decreases held.len(),
{
    if held.len() == 0 {
        0
    } else {
        buffered(held.drop_last()) + held.last().1.len()
    }
}

/// The state of a connection.
pub struct StreamView {
    /// The number of the next segment, once known.
    pub next: Option<u32>,
    pub held: Held,
    /// Bytes that do not make a whole frame yet.
    pub data: Seq<u8>,
}

/// Moves the segments that follow on from `next` to the data.
pub open spec fn drain(next: u32, held: Held, data: Seq<u8>) -> (u32, Held, Seq<u8>)
    decreases held.len(),
{
    match find_from(held, next, 0) {
        None => (next, held, data),
        Some(i) => {
            if 0 <= i < held.len() {
                drain(seq_after(next, held[i].1.len()), held.remove(i), data + held[i].1)
            } else {
                (next, held, data)
            }
        },
    }
}

/// The whole frames at the beginning of `data`, and what is left. Where no frame can begin, all is
/// thrown away (`clear`) or one byte is passed over.
pub open spec fn frames(data: Seq<u8>, clear: bool) -> (Seq<Seq<u8>>, Seq<u8>)
    decreases data.len(),
{
    let size = be32(data);
    if data.len() <= 4 {
        (Seq::empty(), data)
    } else if size < MIN_PACKET_SIZE || size > MAX_PACKET_SIZE {
        if clear {
            (Seq::empty(), Seq::empty())
        } else {
            frames(data.skip(1), clear)
        }
    } else if data.len() < size {
        (Seq::empty(), data)
    } else {
        let rest = frames(data.skip(size), clear);
        (seq![data.take(size)] + rest.0, rest.1)
    }
}

/// The frames that a connection yields once its segments are put together, and its state then.
/// While too many bytes wait, the missing segment is given up: reading goes on at the lowest number
/// held.
pub open spec fn settle(next: u32, held: Held, data: Seq<u8>, clear: bool) -> (
    Seq<Seq<u8>>,
    StreamView,
)
    decreases held.len(),
    via settle_decreases
{
    let d = drain(next, held, data);
    let f = frames(d.2, clear);
    if buffered(d.1) < REASSEMBLY_RESYNC_BYTES || d.1.len() == 0 {
        (f.0, StreamView { next: Some(d.0), held: d.1, data: f.1 })
    } else {
        let first = d.1[0];
        let more = settle(
            seq_after(first.0, first.1.len()),
            d.1.drop_first(),
            first.1,
            clear,
        );
        (f.0 + more.0, more.1)
    }
}

#[via_fn]
proof fn settle_decreases(next: u32, held: Held, data: Seq<u8>, clear: bool) {
    lemma_drain_len(next, held, data);
}

/// What a segment yields.
pub open spec fn receive(s: StreamView, seq: u32, payload: Seq<u8>, clear: bool) -> (
    Seq<Seq<u8>>,
    StreamView,
) {
    if payload.len() == 0 {
        (Seq::empty(), s)
    } else {
        let next = match s.next {
            Some(n) => n,
            None => seq,
        };
        let held = if seq_ahead(seq, next) < SEQ_FORWARD_WINDOW {
            put(s.held, seq, payload)
        } else {
            s.held
        };
        settle(next, held, s.data, clear)
    }
}

proof fn lemma_drain_len(next: u32, held: Held, data: Seq<u8>)
    ensures
        drain(next, held, data).1.len() <= held.len(),
    decreases held.len(),
{
    match find_from(held, next, 0) {
        None => {},
        Some(i) => {
            if 0 <= i < held.len() {
                lemma_drain_len(seq_after(next, held[i].1.len()), held.remove(i), data + held[i].1);
            }
        },
    }
}

/// Puts the segments of one connection together.
pub struct TcpReassembler {
    pub next_seq: Option<u32>,
    pub cache: Vec<(u32, Vec<u8>)>,
    pub data: Vec<u8>,
}

/// The segments that wait.
pub open spec fn held_view(cache: Seq<(u32, Vec<u8>)>) -> Held {
    Seq::new(cache.len(), |i: int| (cache[i].0, cache[i].1@))
}

impl View for TcpReassembler {
    type V = StreamView;

    open spec fn view(&self) -> StreamView {
        StreamView { next: self.next_seq, held: held_view(self.cache@), data: self.data@ }
    }
}

/// Takes bytes off the front.
fn drop_front(data: &mut Vec<u8>, n: usize)
    requires
        n <= old(data)@.len(),
    ensures
        final(data)@ == old(data)@.skip(n as int),
{
    let ghost before = data@;
    let rest: Vec<u8> = copy_range(data.as_slice(), n, data.len());
    *data = rest;
    assert(data@ =~= before.skip(n as int));
}

/// Appends bytes.
fn append_all(data: &mut Vec<u8>, more: &Vec<u8>)
    ensures
        final(data)@ == old(data)@ + more@,
{
    let ghost before = data@;
    let mut i: usize = 0;
    assert(before + more@.take(0) =~= before);
    while i < more.len()
        invariant
            i <= more@.len(),
            data@ == before + more@.take(i as int),
        decreases more@.len() - i,
    {
        data.push(more[i]);
        i += 1;
        assert(data@ =~= before + more@.take(i as int));
    }
    assert(more@.take(i as int) =~= more@);
}

/// The frames as bytes.
pub open spec fn frame_views(list: Seq<Vec<u8>>) -> Seq<Seq<u8>> {
    Seq::new(list.len(), |i: int| list[i]@)
}

impl TcpReassembler {
    /// A connection of which nothing is known.
    pub fn new() -> (r: TcpReassembler)
        ensures
            r@ == (StreamView { next: None, held: Seq::empty(), data: Seq::empty() }),
    {
        let r = TcpReassembler { next_seq: None, cache: Vec::new(), data: Vec::new() };
        assert(r@.held =~= Seq::<(u32, Seq<u8>)>::empty());
        r
    }

    /// Forgets everything and goes on at `seq`.
    pub fn clear(&mut self, seq: u32)
        ensures
            final(self)@ == (StreamView {
                next: Some(seq),
                held: Seq::empty(),
                data: Seq::empty(),
            }),
    {
        self.next_seq = Some(seq);
        self.cache = Vec::new();
        self.data = Vec::new();
        assert(self@.held =~= Seq::<(u32, Seq<u8>)>::empty());
    }

    /// Puts a segment in its place.
    fn hold(&mut self, seq: u32, payload: &[u8])
        ensures
            final(self)@ == (StreamView {
                next: old(self)@.next,
                held: put(old(self)@.held, seq, payload@),
                data: old(self)@.data,
            }),
    {
        let ghost before = held_view(self.cache@);
        let bytes: Vec<u8> = copy_bytes(payload);
        let mut i: usize = 0;
        assert(before.skip(0) =~= before);
        assert(before.take(0) + put(before.skip(0), seq, payload@) =~= put(
            before,
            seq,
            payload@,
        ));
        while i < self.cache.len() && self.cache[i].0 < seq
            invariant
                i <= self.cache@.len(),
                before == held_view(self.cache@),
                self.next_seq == old(self).next_seq,
                self.data == old(self).data,
                put(before, seq, payload@) == before.take(i as int) + put(
                    before.skip(i as int),
                    seq,
                    payload@,
                ),
            decreases self.cache@.len() - i,
        {
            proof {
                let rest = before.skip(i as int);
                assert(rest[0] == before[i as int]);
                assert(rest.drop_first() =~= before.skip(i + 1));
                assert(before.take(i + 1) =~= before.take(i as int) + seq![before[i as int]]);
                assert(before.take(i as int) + (seq![rest[0]] + put(
                    before.skip(i + 1),
                    seq,
                    payload@,
                )) =~= before.take(i + 1) + put(before.skip(i + 1), seq, payload@));
            }
            i += 1;
        }
        let ghost rest = before.skip(i as int);
        if i < self.cache.len() && self.cache[i].0 == seq {
            assert(rest[0] == before[i as int]);
            assert(rest.drop_first() =~= before.skip(i + 1));
            self.cache.set(i, (seq, bytes));
            assert(held_view(self.cache@) =~= before.take(i as int) + (seq![(seq, payload@)]
                + before.skip(i + 1)));
        } else {
            assert(i < before.len() ==> rest[0] == before[i as int]);
            self.cache.insert(i, (seq, bytes));
            assert(held_view(self.cache@) =~= before.take(i as int) + put(rest, seq, payload@));
        }
    }

    /// Moves the segments that follow on to the data.
    fn drain_ready(&mut self, next: u32)
        requires
            old(self).next_seq == Some(next),
        ensures
            ({
                let d = drain(next, old(self)@.held, old(self)@.data);
                final(self)@ == (StreamView { next: Some(d.0), held: d.1, data: d.2 })
            }),
    {
        let ghost goal = drain(next, self@.held, self@.data);
        let mut next: u32 = next;
        loop
            invariant
                self.next_seq == Some(next),
                goal == drain(next, self@.held, self@.data),
            ensures
                self@ == (StreamView { next: Some(goal.0), held: goal.1, data: goal.2 }),
            decreases self.cache@.len(),
        {
            let ghost held = self@.held;
            let mut i: usize = 0;
            while i < self.cache.len() && self.cache[i].0 != next
                invariant
                    i <= self.cache@.len(),
                    held == held_view(self.cache@),
                    find_from(held, next, 0) == find_from(held, next, i as int),
                decreases self.cache@.len() - i,
            {
                i += 1;
            }
            if i == self.cache.len() {
                break;
            }
            assert(find_from(held, next, 0) == Some(i as int));
            let ghost old_cache = self.cache@;
            let (_, bytes) = self.cache.remove(i);
            proof {
                assert(held_view(self.cache@) =~= held.remove(i as int));
                assert(bytes@ == held[i as int].1);
            }
            let after: u32 = advance(next, bytes.len());
            append_all(&mut self.data, &bytes);
            self.next_seq = Some(after);
            next = after;
        }
    }

    /// Takes the whole frames off the data.
    fn take_frames(&mut self, out: &mut Vec<Vec<u8>>, clear: bool)
        ensures
            ({
                let f = frames(old(self)@.data, clear);
                &&& final(self)@ == (StreamView {
                    next: old(self)@.next,
                    held: old(self)@.held,
                    data: f.1,
                })
                &&& frame_views(final(out)@) == frame_views(old(out)@) + f.0
            }),
    {
        let ghost goal = frames(self.data@, clear);
        let ghost start = frame_views(out@);
        let ghost done = Seq::<Seq<u8>>::empty();
        assert(done + goal.0 =~= goal.0);
        assert(start + done =~= start);
        loop
            invariant_except_break
                self.next_seq == old(self).next_seq,
                self.cache == old(self).cache,
                goal.0 == done + frames(self.data@, clear).0,
                goal.1 == frames(self.data@, clear).1,
                frame_views(out@) == start + done,
            ensures
                self.next_seq == old(self).next_seq,
                self.cache == old(self).cache,
                self.data@ == goal.1,
                frame_views(out@) == start + goal.0,
            decreases self.data@.len(),
        {
            if self.data.len() <= 4 {
                assert(done + Seq::<Seq<u8>>::empty() =~= done);
                break;
            }
            let size: u32 = read_be32(self.data.as_slice(), 0);
            assert(self.data@.skip(0) =~= self.data@);
            if size < MIN_PACKET_SIZE || size > MAX_PACKET_SIZE {
                if clear {
                    self.data = Vec::new();
                    assert(self.data@ =~= Seq::<u8>::empty());
                    assert(done + Seq::<Seq<u8>>::empty() =~= done);
                    break;
                }
                drop_front(&mut self.data, 1);
                continue;
            }
            if self.data.len() < size as usize {
                assert(done + Seq::<Seq<u8>>::empty() =~= done);
                break;
            }
            let packet: Vec<u8> = copy_range(self.data.as_slice(), 0, size as usize);
            assert(packet@ =~= self.data@.take(size as int));
            let ghost rest = frames(self.data@.skip(size as int), clear);
            proof {
                assert(done + (seq![packet@] + rest.0) =~= done.push(packet@) + rest.0);
                done = done.push(packet@);
            }
            let ghost before = out@;
            out.push(packet);
            assert(frame_views(out@) =~= frame_views(before).push(packet@));
            assert(frame_views(before).push(packet@) =~= start + done);
            drop_front(&mut self.data, size as usize);
        }
    }

    /// The number of bytes that wait, at most `usize::MAX`.
    fn buffered_bytes(&self) -> (n: usize)
        ensures
            n == if buffered(self@.held) > usize::MAX {
                usize::MAX as int
            } else {
                buffered(self@.held) as int
            },
    {
        let ghost held = self@.held;
        let mut sum: usize = 0;
        let mut i: usize = 0;
        assert(held.take(0) =~= Seq::<(u32, Seq<u8>)>::empty());
        while i < self.cache.len()
            invariant
                i <= self.cache@.len(),
                held == held_view(self.cache@),
                sum == if buffered(held.take(i as int)) > usize::MAX {
                    usize::MAX as int
                } else {
                    buffered(held.take(i as int)) as int
                },
            decreases self.cache@.len() - i,
        {
            proof {
                let next = held.take(i + 1);
                assert(next.drop_last() =~= held.take(i as int));
                assert(next.last() == held[i as int]);
            }
            let len: usize = self.cache[i].1.len();
            sum = if sum > usize::MAX - len {
                usize::MAX
            } else {
                sum + len
            };
            i += 1;
        }
        assert(held.take(i as int) =~= held);
        sum
    }

    /// Takes a segment in and returns the frames that are whole then. Where no frame can begin,
    /// what was read is thrown away (`clear_on_malformed`) or one byte is passed over.
    pub fn reassemble(&mut self, seq: u32, payload: &[u8], clear_on_malformed: bool) -> (out: Vec<
        Vec<u8>,
    >)
        ensures
            (frame_views(out@), final(self)@) == receive(
                old(self)@,
                seq,
                payload@,
                clear_on_malformed,
            ),
    {
        let mut out: Vec<Vec<u8>> = Vec::new();
        assert(frame_views(out@) =~= Seq::<Seq<u8>>::empty());
        if payload.len() == 0 {
            return out;
        }
        let mut next: u32 = match self.next_seq {
            Some(n) => n,
            None => seq,
        };
        self.next_seq = Some(next);
        if ahead(seq, next) < SEQ_FORWARD_WINDOW {
            self.hold(seq, payload);
        }
        let ghost goal = settle(next, self@.held, self@.data, clear_on_malformed);
        let ghost done = Seq::<Seq<u8>>::empty();
        assert(done + goal.0 =~= goal.0);
        loop
            invariant_except_break
                self.next_seq == Some(next),
                frame_views(out@) == done,
                ({
                    let s = settle(next, self@.held, self@.data, clear_on_malformed);
                    goal.0 == done + s.0 && goal.1 == s.1
                }),
            ensures
                frame_views(out@) == goal.0,
                self@ == goal.1,
            decreases self.cache@.len(),
        {
            let ghost held0 = self@.held;
            proof {
                lemma_drain_len(next, self@.held, self@.data);
            }
            self.drain_ready(next);
            let ghost f = frames(self@.data, clear_on_malformed);
            self.take_frames(&mut out, clear_on_malformed);
            proof {
                done = done + f.0;
            }
            if self.buffered_bytes() < REASSEMBLY_RESYNC_BYTES || self.cache.len() == 0 {
                break;
            }
            let ghost held = self@.held;
            let (first_seq, first) = self.cache.remove(0);
            proof {
                assert(held_view(self.cache@) =~= held.drop_first());
                assert(held[0] == (first_seq, first@));
            }
            next = advance(first_seq, first.len());
            self.next_seq = Some(next);
            self.data = first;
            proof {
                let more = settle(next, self@.held, self@.data, clear_on_malformed);
                assert(goal.0 =~= done + more.0);
            }
        }
        out
    }
}

/// The sequence number after `len` bytes.
pub fn advance(seq: u32, len: usize) -> (after: u32)
    ensures
        after == seq_after(seq, len as nat),
{
    let low: u64 = len as u64 % 0x1_0000_0000;
    proof {
        vstd::arithmetic::div_mod::lemma_add_mod_noop_right(
            seq as int,
            len as int,
            0x1_0000_0000,
        );
    }
    ((seq as u64 + low) % 0x1_0000_0000) as u32
}

/// How far `seq` lies ahead of `next`.
fn ahead(seq: u32, next: u32) -> (n: u32)
    ensures
        n == seq_ahead(seq, next),
{
    if seq >= next {
        seq - next
    } else {
        (seq as u64 + 0x1_0000_0000 - next as u64) as u32
    }
}

/// Whether every length in a stream is one that a frame can have.
pub open spec fn is_sound(data: Seq<u8>) -> bool
    decreases data.len(),
{
    data.len() <= 4 || {
        let size = be32(data);
        &&& MIN_PACKET_SIZE <= size <= MAX_PACKET_SIZE
        &&& data.len() >= size ==> is_sound(data.skip(size))
    }
}

/// Reading the beginning of a stream, and then what is left of it together with more, yields the
/// same frames as reading all at once; where all is thrown away on a length that no frame can have,
/// on streams without such a length.
pub proof fn law_frames_of_parts(a: Seq<u8>, b: Seq<u8>, clear: bool)
    requires
        clear ==> is_sound(a + b),
    ensures
        ({
            let first = frames(a, clear);
            let second = frames(first.1 + b, clear);
            frames(a + b, clear) == (first.0 + second.0, second.1)
        }),
    decreases a.len(),
{
    let first = frames(a, clear);
    let second = frames(first.1 + b, clear);
    let size = be32(a);
    assert(Seq::<Seq<u8>>::empty() + second.0 =~= second.0);
    if a.len() > 4 {
        assert(be32(a + b) == size);
        if size < MIN_PACKET_SIZE || size > MAX_PACKET_SIZE {
            assert(!clear);
            law_frames_of_parts(a.skip(1), b, clear);
            assert((a + b).skip(1) =~= a.skip(1) + b);
        } else if a.len() >= size {
            assert((a + b).skip(size) =~= a.skip(size) + b);
            law_frames_of_parts(a.skip(size), b, clear);
            assert((a + b).take(size) =~= a.take(size));
            let rest = frames(a.skip(size), clear);
            assert(seq![a.take(size)] + (rest.0 + second.0) =~= (seq![a.take(size)] + rest.0)
                + second.0);
        }
    }
}

/// The beginning of a sound stream is sound.
pub proof fn lemma_sound_beginning(a: Seq<u8>, b: Seq<u8>)
    requires
        is_sound(a + b),
    ensures
        is_sound(a),
    decreases a.len(),
{
    if a.len() > 4 {
        let size = be32(a);
        assert(be32(a + b) == size);
        if a.len() >= size {
            assert((a + b).skip(size) =~= a.skip(size) + b);
            lemma_sound_beginning(a.skip(size), b);
        }
    }
}

/// What is left after reading holds no whole frame.
pub proof fn law_rest_holds_no_frame(data: Seq<u8>, clear: bool)
    ensures
        frames(frames(data, clear).1, clear) == (Seq::<Seq<u8>>::empty(), frames(data, clear).1),
    decreases data.len(),
{
    let size = be32(data);
    if data.len() > 4 {
        if size < MIN_PACKET_SIZE || size > MAX_PACKET_SIZE {
            if !clear {
                law_rest_holds_no_frame(data.skip(1), clear);
            }
        } else if data.len() >= size {
            law_rest_holds_no_frame(data.skip(size), clear);
        }
    }
}

/// Segments that arrive in order with nothing waiting yield what one segment with all their bytes
/// yields.
pub proof fn law_segments_in_order(data: Seq<u8>, next: u32, a: Seq<u8>, b: Seq<u8>)
    requires
        a.len() > 0,
        b.len() > 0,
    ensures
        ({
            let s = StreamView { next: Some(next), held: Seq::empty(), data };
            let one = receive(s, next, a, false);
            let two = receive(one.1, seq_after(next, a.len()), b, false);
            receive(s, next, a + b, false) == (one.0 + two.0, two.1)
        }),
{
    lemma_receive_next(data, next, a);
    let s = StreamView { next: Some(next), held: Seq::empty(), data };
    let f = frames(data + a, false);
    let one = receive(s, next, a, false);
    lemma_receive_next(f.1, seq_after(next, a.len()), b);
    lemma_receive_next(data, next, a + b);
    law_frames_of_parts(data + a, b, false);
    assert(data + a + b =~= data + (a + b));
    lemma_seq_after_twice(next, a.len(), b.len());
}

/// The expected segment with nothing waiting.
proof fn lemma_receive_next(data: Seq<u8>, next: u32, payload: Seq<u8>)
    requires
        payload.len() > 0,
    ensures
        ({
            let s = StreamView { next: Some(next), held: Seq::empty(), data };
            let f = frames(data + payload, false);
            receive(s, next, payload, false) == (
                f.0,
                StreamView {
                    next: Some(seq_after(next, payload.len())),
                    held: Seq::empty(),
                    data: f.1,
                },
            )
        }),
{
    let none: Held = Seq::empty();
    let one = put(none, next, payload);
    assert(one.len() == 1 && one[0] == (next, payload));
    assert(find_from(one, next, 0) == Some(0int));
    assert(one.remove(0) =~= none);
    let after = seq_after(next, payload.len());
    assert(find_from(none, after, 0) is None);
    assert(drain(after, none, data + payload) == (after, none, data + payload));
    assert(drain(next, one, data) == (after, none, data + payload));
}

/// A segment that overtakes the one before it changes nothing in the end: it waits, yields nothing,
/// and with the missing one everything is yielded that both yield in order.
pub proof fn law_overtaking_segment_waits(data: Seq<u8>, next: u32, a: Seq<u8>, b: Seq<u8>)
    requires
        0 < a.len() < SEQ_FORWARD_WINDOW,
        0 < b.len() < REASSEMBLY_RESYNC_BYTES,
        frames(data, false) == (Seq::<Seq<u8>>::empty(), data),
    ensures
        ({
            let s = StreamView { next: Some(next), held: Seq::empty(), data };
            let early = receive(s, seq_after(next, a.len()), b, false);
            &&& early.0 == Seq::<Seq<u8>>::empty()
            &&& receive(early.1, next, a, false) == receive(s, next, a + b, false)
        }),
{
    let none: Held = Seq::empty();
    let s = StreamView { next: Some(next), held: none, data };
    let mid = seq_after(next, a.len());
    lemma_seq_after_ahead(next, a.len());
    // the later segment alone
    let one = put(none, mid, b);
    assert(one =~= seq![(mid, b)]);
    assert(find_from(one, next, 1) is None);
    assert(find_from(one, next, 0) is None);
    assert(drain(next, one, data) == (next, one, data));
    assert(one.drop_last() =~= none);
    assert(buffered(none) == 0);
    assert(buffered(one) == b.len());
    let early = receive(s, mid, b, false);
    assert(early == (
        Seq::<Seq<u8>>::empty(),
        StreamView { next: Some(next), held: one, data },
    ));
    // the missing one
    assert(seq_ahead(next, next) == 0);
    let two = put(one, next, a);
    assert(one.drop_first() =~= none);
    assert(put(none, next, a) =~= seq![(next, a)]);
    let at: int = if next < mid {
        0
    } else {
        1
    };
    assert(two.len() == 2 && two[at] == (next, a) && two[1 - at] == (mid, b));
    assert(find_from(two, next, 1) == if at == 1 {
        Some(1int)
    } else {
        find_from(two, next, 2)
    });
    assert(find_from(two, next, 0) == Some(at));
    assert(two.remove(at) =~= one);
    assert(find_from(one, mid, 0) == Some(0int));
    assert(one.remove(0) =~= none);
    let end = seq_after(mid, b.len());
    assert(find_from(none, end, 0) is None);
    assert(drain(end, none, data + a + b) == (end, none, data + a + b));
    assert(drain(mid, one, data + a) == (end, none, data + a + b));
    assert(drain(next, two, data) == (end, none, data + a + b));
    lemma_receive_next(data, next, a + b);
    assert(data + a + b =~= data + (a + b));
    lemma_seq_after_twice(next, a.len(), b.len());
}

/// A number that lies ahead.
proof fn lemma_seq_after_ahead(next: u32, len: nat)
    requires
        0 < len < SEQ_FORWARD_WINDOW,
    ensures
        seq_ahead(seq_after(next, len), next) == len,
        seq_after(next, len) != next,
{
    let x = next + len;
    let q: int = if x < 0x1_0000_0000 {
        0
    } else {
        1
    };
    vstd::arithmetic::div_mod::lemma_fundamental_div_mod_converse(
        x as int,
        0x1_0000_0000,
        q,
        x - q * 0x1_0000_0000,
    );
    vstd::arithmetic::div_mod::lemma_fundamental_div_mod_converse(
        len - q * 0x1_0000_0000,
        0x1_0000_0000,
        -q,
        len as int,
    );
}

/// One step after another.
proof fn lemma_seq_after_twice(next: u32, a: nat, b: nat)
    ensures
        seq_after(seq_after(next, a), b) == seq_after(next, a + b),
{
    let x = next + a;
    vstd::arithmetic::div_mod::lemma_mod_twice(b as int, 0x1_0000_0000);
    vstd::arithmetic::div_mod::lemma_add_mod_noop(x as int, b as int, 0x1_0000_0000);
    vstd::arithmetic::div_mod::lemma_add_mod_noop(
        (x % 0x1_0000_0000) as int,
        b as int,
        0x1_0000_0000,
    );
    vstd::arithmetic::div_mod::lemma_mod_twice(x as int, 0x1_0000_0000);
}

} // verus!
