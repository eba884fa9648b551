//! How numbers, frames and messages are written, and that reading gives back what was written.

use crate::capture::binary_reader::{be16, be32, be64};
use crate::protocol::compression::zstd_content;
use crate::protocol::decoding::{int32_in, int64_in, varint};
use crate::protocol::messages::{kind_of, EntityKind};
use crate::protocol::opcodes::{fragment_kind, method_of, FragmentType, Pkt};
use crate::protocol::packet_parser::{content, first_frame, frame_outcome, messages, route, Outcome};
use vstd::prelude::*;

verus! {

/// A number in so many bytes, the highest first.
pub open spec fn be_bytes(n: int, count: nat) -> Seq<u8>
    decreases count,
{
    if count == 0 {
        Seq::empty()
    } else {
        be_bytes(n / 256, (count - 1) as nat).push((n % 256) as u8)
    }
}

proof fn lemma_be16(n: int)
    requires
        0 <= n < 0x1_0000,
    ensures
        be_bytes(n, 2).len() == 2,
        be16(be_bytes(n, 2)) == n,
{
    reveal_with_fuel(be_bytes, 3);
}

proof fn lemma_be32(n: int)
    requires
        0 <= n < 0x1_0000_0000,
    ensures
        be_bytes(n, 4).len() == 4,
        be32(be_bytes(n, 4)) == n,
{
    reveal_with_fuel(be_bytes, 5);
}

/// The bytes of a number are those of its high half, followed by those of its low half.
proof fn lemma_halves(n: int)
    requires
        0 <= n < 0x1_0000_0000_0000_0000,
    ensures
        be_bytes(n, 8) == be_bytes(n / 0x1_0000_0000, 4) + be_bytes(n % 0x1_0000_0000, 4),
{
    let hi = n / 0x1_0000_0000;
    let lo = n % 0x1_0000_0000;
    let (n1, l1) = (n / 256, lo / 256);
    let (n2, l2) = (n1 / 256, l1 / 256);
    let (n3, l3) = (n2 / 256, l2 / 256);
    assert(n1 == hi * 0x100_0000 + l1 && n % 256 == lo % 256);
    assert(n2 == hi * 0x1_0000 + l2 && n1 % 256 == l1 % 256);
    assert(n3 == hi * 0x100 + l3 && n2 % 256 == l2 % 256);
    assert(n3 / 256 == hi && n3 % 256 == l3 % 256 && l3 / 256 == 0);
    assert(be_bytes(n, 8) == be_bytes(n1, 7).push((n % 256) as u8));
    assert(be_bytes(n1, 7) == be_bytes(n2, 6).push((n1 % 256) as u8));
    assert(be_bytes(n2, 6) == be_bytes(n3, 5).push((n2 % 256) as u8));
    assert(be_bytes(n3, 5) == be_bytes(hi, 4).push((n3 % 256) as u8));
    assert(be_bytes(lo, 4) == be_bytes(l1, 3).push((lo % 256) as u8));
    assert(be_bytes(l1, 3) == be_bytes(l2, 2).push((l1 % 256) as u8));
    assert(be_bytes(l2, 2) == be_bytes(l3, 1).push((l2 % 256) as u8));
    assert(be_bytes(l3, 1) == be_bytes(0, 0).push((l3 % 256) as u8));
    assert(be_bytes(n, 8) =~= be_bytes(n / 0x1_0000_0000, 4) + be_bytes(n % 0x1_0000_0000, 4));
}

proof fn lemma_be64(n: int)
    requires
        0 <= n < 0x1_0000_0000_0000_0000,
    ensures
        be_bytes(n, 8).len() == 8,
        be64(be_bytes(n, 8)) == n,
{
    let hi = be_bytes(n / 0x1_0000_0000, 4);
    let lo = be_bytes(n % 0x1_0000_0000, 4);
    lemma_halves(n);
    lemma_be32(n / 0x1_0000_0000);
    lemma_be32(n % 0x1_0000_0000);
    assert(be_bytes(n, 8).skip(4) =~= lo);
}

/// Reading a number gives back what was written, whatever follows it.
pub proof fn law_numbers_round_trip(n: int, rest: Seq<u8>)
    requires
        0 <= n,
    ensures
        n < 0x1_0000 ==> be_bytes(n, 2).len() == 2 && be16(be_bytes(n, 2) + rest) == n,
        n < 0x1_0000_0000 ==> be_bytes(n, 4).len() == 4 && be32(be_bytes(n, 4) + rest) == n,
        n < 0x1_0000_0000_0000_0000 ==> be_bytes(n, 8).len() == 8 && be64(be_bytes(n, 8) + rest)
            == n,
{
    if n < 0x1_0000 {
        lemma_be16(n);
    }
    if n < 0x1_0000_0000 {
        lemma_be32(n);
    }
    if n < 0x1_0000_0000_0000_0000 {
        lemma_be64(n);
        let b = be_bytes(n, 8);
        assert(forall|i: int| 0 <= i < 4 ==> (b + rest).skip(4)[i] == b.skip(4)[i]);
    }
}

/// A notification: its length, its type, the numbers of service, stub and method, and the content,
/// `packed` or not.
pub open spec fn notify_frame(
    packed: bool,
    service: int,
    stub: int,
    method: int,
    body: Seq<u8>,
) -> Seq<u8> {
    be_bytes(22 + body.len() as int, 4) + be_bytes(
        if packed {
            0x8002int
        } else {
            0x0002
        },
        2,
    ) + be_bytes(service, 8) + be_bytes(stub, 4) + be_bytes(method, 4) + body
}

/// A frame with frames inside: its length, its type, a running number, and the content, `packed` or
/// not.
pub open spec fn outer_frame(packed: bool, number: int, inner: Seq<u8>) -> Seq<u8> {
    be_bytes(10 + inner.len() as int, 4) + be_bytes(
        if packed {
            0x8006int
        } else {
            0x0006
        },
        2,
    ) + be_bytes(number, 4) + inner
}

/// The content of a frame: what was written, or what it decompresses to.
pub open spec fn unpacked(packed: bool, body: Seq<u8>) -> Option<Seq<u8>> {
    if packed {
        zstd_content(body)
    } else {
        Some(body)
    }
}

/// A frame at the beginning of a stream is the first frame.
proof fn lemma_first(frame: Seq<u8>, rest: Seq<u8>)
    requires
        6 <= frame.len() < 0x1_0000_0000,
        be32(frame) == frame.len(),
    ensures
        first_frame(frame + rest) == Some(frame.len() as int),
        (frame + rest).take(frame.len() as int) == frame,
        (frame + rest).skip(frame.len() as int) == rest,
{
    assert((frame + rest).take(frame.len() as int) =~= frame);
    assert((frame + rest).skip(frame.len() as int) =~= rest);
}

/// What becomes of a notification.
proof fn lemma_notify(packed: bool, service: int, stub: int, method: int, body: Seq<u8>)
    requires
        22 + body.len() < 0x1_0000_0000,
        0 <= service < 0x1_0000_0000_0000_0000,
        0 <= stub < 0x1_0000_0000,
        0 <= method < 0x1_0000_0000,
    ensures
        ({
            let frame = notify_frame(packed, service, stub, method, body);
            &&& frame.len() == 22 + body.len()
            &&& be32(frame) == frame.len()
            &&& frame_outcome(frame) == match unpacked(packed, body) {
                Some(b) => route(service, method, b),
                None => Outcome::Skip,
            }
        }),
{
    let frame = notify_frame(packed, service, stub, method, body);
    let word = if packed {
        0x8002int
    } else {
        0x0002
    };
    let l = be_bytes(22 + body.len() as int, 4);
    let w = be_bytes(word, 2);
    let s = be_bytes(service, 8);
    let t = be_bytes(stub, 4);
    let m = be_bytes(method, 4);
    lemma_be32(22 + body.len() as int);
    lemma_be16(word);
    lemma_be64(service);
    lemma_be32(stub);
    lemma_be32(method);
    assert(frame.skip(4) =~= w + (s + t + m + body));
    assert(frame.skip(6) =~= s + (t + m + body));
    assert(frame.skip(22) =~= body);
    assert(frame.skip(6).skip(12) =~= m + body);
    law_numbers_round_trip(22 + body.len() as int, w + s + t + m + body);
    assert(frame =~= l + (w + s + t + m + body));
    law_numbers_round_trip(word, s + t + m + body);
    law_numbers_round_trip(service, t + m + body);
    law_numbers_round_trip(method, body);
    assert(be16(frame.skip(4)) == word);
    assert(fragment_kind((word % 0x8000) as u16) == FragmentType::Notify);
}

/// A notification of the game service is a message exactly where its method is that of a kind of
/// message: this kind, with its content. So is one of the social service with its method. All
/// others are passed over, and so is content that cannot be decompressed. What follows is read as
/// if nothing had come before.
pub proof fn law_notifications_are_read(
    packed: bool,
    service: int,
    stub: int,
    method: int,
    body: Seq<u8>,
    kind: Pkt,
    rest: Seq<u8>,
    layers: nat,
)
    requires
        22 + body.len() < 0x1_0000_0000,
        0 <= service < 0x1_0000_0000_0000_0000,
        0 <= stub < 0x1_0000_0000,
        0 <= method < 0x1_0000_0000,
    ensures
        ({
            let got = messages(notify_frame(packed, service, stub, method, body) + rest, layers);
            &&& unpacked(packed, body) matches Some(b) ==> {
                &&& service == 0x63335342 && method_of(kind) == Some(method) ==> got == seq![
                    (kind, b),
                ] + messages(rest, layers)
                &&& service == 0x254C89A3 && method == 1 ==> got == seq![
                    (Pkt::SocialEnvelope, b),
                ] + messages(rest, layers)
            }
            &&& unpacked(packed, body) is None ==> got == messages(rest, layers)
            &&& service == 0x63335342 && method != 6 && method != 21 && method != 45 && method
                != 46 && method != 12291 && method != 12293 ==> got == messages(rest, layers)
            &&& service == 0x254C89A3 && method != 1 ==> got == messages(rest, layers)
            &&& service != 0x63335342 && service != 0x254C89A3 ==> got == messages(rest, layers)
        }),
{
    let frame = notify_frame(packed, service, stub, method, body);
    lemma_notify(packed, service, stub, method, body);
    lemma_first(frame, rest);
}

/// A frame with frames inside takes the place of the rest of the stream: its messages are those of
/// its content. Where its content is empty or cannot be decompressed, it is passed over.
pub proof fn law_outer_frames_are_opened(
    packed: bool,
    number: int,
    inner: Seq<u8>,
    rest: Seq<u8>,
    layers: nat,
)
    requires
        10 + inner.len() < 0x1_0000_0000,
        0 <= number < 0x1_0000_0000,
    ensures
        ({
            let got = messages(outer_frame(packed, number, inner) + rest, layers);
            &&& inner.len() == 0 ==> got == messages(rest, layers)
            &&& inner.len() > 0 && unpacked(packed, inner) is None ==> got == messages(rest, layers)
            &&& inner.len() > 0 && layers > 0 ==> (unpacked(packed, inner) matches Some(b)
                ==> got == messages(b, (layers - 1) as nat))
        }),
{
    let frame = outer_frame(packed, number, inner);
    let word = if packed {
        0x8006int
    } else {
        0x0006
    };
    let l = be_bytes(10 + inner.len() as int, 4);
    let w = be_bytes(word, 2);
    let t = be_bytes(number, 4);
    lemma_be32(10 + inner.len() as int);
    lemma_be16(word);
    lemma_be32(number);
    law_numbers_round_trip(10 + inner.len() as int, w + t + inner);
    law_numbers_round_trip(word, t + inner);
    assert(frame =~= l + (w + t + inner));
    assert(frame.skip(4) =~= w + (t + inner));
    assert(w + (t + inner) =~= w + t + inner);
    assert(frame.skip(10) =~= inner);
    lemma_first(frame, rest);
    assert(be16(frame.skip(4)) == word);
    assert(fragment_kind((word % 0x8000) as u16) == FragmentType::FrameDown);
}

/// Frames of all other types are passed over.
pub proof fn law_other_frames_are_skipped(word: int, body: Seq<u8>, rest: Seq<u8>, layers: nat)
    requires
        6 + body.len() < 0x1_0000_0000,
        0 <= word < 0x1_0000,
        word % 0x8000 != 2,
        word % 0x8000 != 6,
    ensures
        messages(be_bytes(6 + body.len() as int, 4) + be_bytes(word, 2) + body + rest, layers)
            == messages(rest, layers),
{
    let l = be_bytes(6 + body.len() as int, 4);
    let w = be_bytes(word, 2);
    let frame = l + w + body;
    lemma_be32(6 + body.len() as int);
    lemma_be16(word);
    law_numbers_round_trip(6 + body.len() as int, w + body);
    law_numbers_round_trip(word, body);
    assert(frame =~= l + (w + body));
    assert(frame.skip(4) =~= w + body);
    lemma_first(frame, rest);
}

/// Reading stops where no whole frame stands: fewer than four bytes, a length under six, or a
/// length beyond the end.
pub proof fn law_reading_stops(stream: Seq<u8>, layers: nat)
    requires
        stream.len() < 4 || be32(stream) < 6 || be32(stream) > stream.len(),
    ensures
        messages(stream, layers) == Seq::<(Pkt, Seq<u8>)>::empty(),
{
}

/// A number in groups of seven bits, the lowest first, all but the last with the high bit set.
pub open spec fn grouped(n: nat) -> Seq<u8>
    decreases n,
{
    if n < 128 {
        seq![n as u8]
    } else {
        seq![(128 + n % 128) as u8] + grouped(n / 128)
    }
}

/// The numbers that are left room for after `group` groups.
spec fn room(group: nat) -> nat
    decreases 10 - group,
{
    if group >= 9 {
        2
    } else {
        128 * room(group + 1)
    }
}

proof fn lemma_varint(n: nat, rest: Seq<u8>, group: nat)
    requires
        group < 10,
        n < room(group),
    ensures
        varint(grouped(n) + rest, group) == Some(n),
    decreases n,
{
    let bytes = grouped(n) + rest;
    if n >= 128 {
        assert(group < 9);
        lemma_varint(n / 128, rest, group + 1);
        assert(bytes.drop_first() =~= grouped(n / 128) + rest);
        assert(bytes[0] == 128 + n % 128);
    } else {
        assert(bytes[0] == n);
    }
}

/// Reading a number gives back what was written, whatever follows it; a negative number is written
/// as 2^64 above it.
pub proof fn law_groups_round_trip(n: nat, a: i32, b: i64, rest: Seq<u8>)
    requires
        n < 0x1_0000_0000_0000_0000,
    ensures
        varint(grouped(n) + rest, 0) == Some(n),
        int32_in(
            grouped(
                (if a < 0 {
                    a + 0x1_0000_0000_0000_0000
                } else {
                    a as int
                }) as nat,
            ) + rest,
        ) == Some(a),
        int64_in(
            grouped(
                (if b < 0 {
                    b + 0x1_0000_0000_0000_0000
                } else {
                    b as int
                }) as nat,
            ) + rest,
        ) == Some(b),
{
    assert(room(0) == 0x1_0000_0000_0000_0000) by {
        reveal_with_fuel(room, 11);
    }
    lemma_varint(n, rest, 0);
    let x = if a < 0 {
        a + 0x1_0000_0000_0000_0000
    } else {
        a as int
    };
    let y = if b < 0 {
        b + 0x1_0000_0000_0000_0000
    } else {
        b as int
    };
    lemma_varint(x as nat, rest, 0);
    lemma_varint(y as nat, rest, 0);
}

/// The number of an entity tells its kind by its low 16 bits, 64 for monsters and 640 for players,
/// and which one it is by the rest.
pub proof fn law_entity_numbers(uuid: i64, uid: int, kind: int)
    requires
        uuid == uid * 0x1_0000 + kind,
        0 <= kind < 0x1_0000,
    ensures
        uuid as int / 0x1_0000 == uid,
        kind_of(uuid) == EntityKind::Monster <==> kind == 64,
        kind_of(uuid) == EntityKind::Player <==> kind == 640,
        kind_of(uuid) == EntityKind::Unknown <==> kind != 64 && kind != 640,
{
}

} // verus!
