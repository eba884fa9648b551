//! What holds of every capture: how the game is recognised, what is followed, and when it is given
//! up.

use crate::capture::binary_reader::be32;
use crate::capture::detection::{fragment_signed, is_login_return, is_scene_server};
use crate::capture::opening::{open_rule, OpenAction, OpenEvent, OpenPhase};
use crate::capture::packet::tcp_segment;
use crate::capture::server::{Server, ServerView};
use crate::capture::tcp_reassembler::{
    buffered, drain, find_from, frames, put, receive, seq_after, seq_ahead, settle, Held,
    StreamView,
};
use crate::capture::tracker::{
    followed_at, frame_messages, gives, packet_effect, segment_effect, segment_server, with_room,
    CaptureOutput, CaptureView, PacketEffect,
};
use crate::protocol::opcodes::Pkt;
use crate::protocol::packet_parser::messages;
use crate::protocol::wire::{be_bytes, law_numbers_round_trip};
use vstd::prelude::*;

verus! {

/// The bytes by which a fragment of a scene server is known.
pub open spec fn scene_mark() -> Seq<u8> {
    seq![0x00u8, 0x63, 0x33, 0x53, 0x42, 0x00]
}

/// A fragment is its length, which counts the four bytes that hold it, and its content. One of the
/// fragments carries the mark, five bytes into its content, exactly where the first does or one
/// after it does.
pub proof fn law_fragments(content: Seq<u8>, rest: Seq<u8>, n: int)
    requires
        content.len() + 4 < 0x1_0000_0000,
        0 <= n < 4,
    ensures
        fragment_signed(be_bytes(4 + content.len() as int, 4) + content + rest) <==> {
            ||| content.len() >= 11 && content.subrange(5, 11) == scene_mark()
            ||| fragment_signed(rest)
        },
        fragment_signed(be_bytes(n, 4) + rest) <==> fragment_signed(rest),
        rest.len() < 4 || be32(rest) > rest.len() ==> !fragment_signed(rest),
{
    let size = be_bytes(4 + content.len() as int, 4);
    let all = size + content + rest;
    law_numbers_round_trip(4 + content.len() as int, content + rest);
    law_numbers_round_trip(n, rest);
    assert(all =~= size + (content + rest));
    assert(all.skip(4 + content.len() as int) =~= rest);
    assert((be_bytes(n, 4) + rest).skip(4) =~= rest);
    assert(crate::protocol::constants::SERVER_SIGNATURE@ =~= scene_mark());
    if content.len() >= 11 {
        assert(all.subrange(9, 15) =~= content.subrange(5, 11));
    }
}

/// A payload comes from a scene server exactly where its fragments, which begin at the eleventh
/// byte, carry the mark, and its fifth byte is 0.
pub proof fn law_scene_servers(head: Seq<u8>, fragments: Seq<u8>)
    ensures
        head.len() == 10 ==> (is_scene_server(head + fragments) <==> head[4] == 0
            && fragment_signed(fragments)),
        head.len() < 10 ==> !is_scene_server(head),
{
    if head.len() == 10 {
        assert((head + fragments).skip(10) =~= fragments);
    }
}

/// The answer to a login has 98 bytes, of which the first ten and six from the fifteenth on are
/// fixed.
pub proof fn law_login_answers(payload: Seq<u8>)
    ensures
        is_login_return(payload) <==> {
            &&& payload.len() == 98
            &&& payload.subrange(0, 10) == seq![
                0x00u8, 0x00, 0x00, 0x62, 0x00, 0x03, 0x00, 0x00, 0x00, 0x01,
            ]
            &&& payload.subrange(14, 20) == seq![0x00u8, 0x00, 0x00, 0x00, 0x0a, 0x4e]
        },
{
    assert(payload.take(10) =~= payload.subrange(0, 10));
    assert(crate::protocol::constants::LOGIN_RETURN_SIGNATURE_1@ =~= seq![
        0x00u8, 0x00, 0x00, 0x62, 0x00, 0x03, 0x00, 0x00, 0x00, 0x01,
    ]);
    assert(crate::protocol::constants::LOGIN_RETURN_SIGNATURE_2@ =~= seq![
        0x00u8, 0x00, 0x00, 0x00, 0x0a, 0x4e,
    ]);
}

/// A stream is cut into frames by their lengths, which count their own four bytes: 6 bytes to
/// 10 MiB. A frame that is whole is cut off; one that is not stays. Where no length can stand, one
/// byte is passed over, or all of them where the stream is one of many.
pub proof fn law_streams_are_cut(frame: Seq<u8>, rest: Seq<u8>, clear: bool)
    ensures
        frame.len() >= 6 && frame.len() <= 10_485_760 && be32(frame) == frame.len() ==> frames(
            frame + rest,
            clear,
        ) == (seq![frame] + frames(rest, clear).0, frames(rest, clear).1),
        4 < rest.len() < be32(rest) && be32(rest) <= 10_485_760 ==> frames(rest, clear) == (
            Seq::<Seq<u8>>::empty(),
            rest,
        ),
        rest.len() <= 4 ==> frames(rest, clear) == (Seq::<Seq<u8>>::empty(), rest),
        rest.len() > 4 && (be32(rest) < 6 || be32(rest) > 10_485_760) ==> {
            &&& frames(rest, false) == frames(rest.skip(1), false)
            &&& frames(rest, true) == (Seq::<Seq<u8>>::empty(), Seq::<u8>::empty())
        },
{
    if frame.len() >= 6 && frame.len() <= 10_485_760 && be32(frame) == frame.len() {
        let all = frame + rest;
        assert(be32(all) == be32(frame));
        assert(all.take(frame.len() as int) =~= frame);
        assert(all.skip(frame.len() as int) =~= rest);
    }
    if rest.len() > 4 && be32(rest) < 6 {
        assert(frames(rest, false) == frames(rest.skip(1), false));
    }
}

/// The parts that wait, by the number of their first byte.
proof fn lemma_put(held: Held, seq: u32, bytes: Seq<u8>, x: (u32, Seq<u8>))
    ensures
        put(held, seq, bytes).contains((seq, bytes)),
        x.0 != seq ==> (put(held, seq, bytes).contains(x) <==> held.contains(x)),
    decreases held.len(),
{
    let after = put(held, seq, bytes);
    let one = seq![(seq, bytes)];
    assert(one[0] == (seq, bytes));
    assert(one.contains((seq, bytes)));
    if held.len() == 0 {
        assert(after == one);
    } else {
        let rest = held.drop_first();
        let first = seq![held[0]];
        assert(first[0] == held[0]);
        assert(held =~= first + rest);
        vstd::seq_lib::lemma_seq_concat_contains_all_elements(first, rest, x);
        if held[0].0 == seq {
            vstd::seq_lib::lemma_seq_concat_contains_all_elements(one, rest, x);
            vstd::seq_lib::lemma_seq_concat_contains_all_elements(one, rest, (seq, bytes));
        } else if seq < held[0].0 {
            vstd::seq_lib::lemma_seq_concat_contains_all_elements(one, held, x);
            vstd::seq_lib::lemma_seq_concat_contains_all_elements(one, held, (seq, bytes));
        } else {
            lemma_put(rest, seq, bytes, x);
            let more = put(rest, seq, bytes);
            vstd::seq_lib::lemma_seq_concat_contains_all_elements(first, more, x);
            vstd::seq_lib::lemma_seq_concat_contains_all_elements(first, more, (seq, bytes));
        }
    }
}

/// A part that arrives early waits under its own number and touches no other that waits.
pub proof fn law_waiting_parts(held: Held, seq: u32, bytes: Seq<u8>, x: (u32, Seq<u8>))
    ensures
        put(held, seq, bytes).contains((seq, bytes)),
        x.0 != seq ==> (put(held, seq, bytes).contains(x) <==> held.contains(x)),
{
    lemma_put(held, seq, bytes, x);
}

/// A part that was read before, or that lies 16 MiB or more ahead, changes nothing: where nothing
/// waits and no frame is whole, the stream stays as it was.
pub proof fn law_old_parts_are_ignored(
    next: u32,
    data: Seq<u8>,
    seq: u32,
    payload: Seq<u8>,
    clear: bool,
)
    requires
        seq < next && next - seq <= 0x1_0000_0000 - 0x100_0000 || seq >= next + 0x100_0000,
        frames(data, clear) == (Seq::<Seq<u8>>::empty(), data),
    ensures
        receive(
            StreamView { next: Some(next), held: Seq::empty(), data },
            seq,
            payload,
            clear,
        ) == (
            Seq::<Seq<u8>>::empty(),
            StreamView { next: Some(next), held: Seq::empty(), data },
        ),
{
    let none: Held = Seq::empty();
    assert(seq_ahead(seq, next) >= 0x100_0000);
    assert(drain(next, none, data) == (next, none, data));
    assert(buffered(none) == 0);
    assert(settle(next, none, data, clear) == (
        Seq::<Seq<u8>>::empty(),
        StreamView { next: Some(next), held: none, data },
    ));
}

/// The numbers of bytes go round: after the last number comes 0.
pub proof fn law_numbers_go_round(seq: u32, len: nat)
    requires
        len < 0x1_0000_0000,
    ensures
        seq + len < 0x1_0000_0000 ==> seq_after(seq, len) == seq + len,
        seq + len >= 0x1_0000_0000 ==> seq_after(seq, len) == seq + len - 0x1_0000_0000,
        seq_ahead(seq_after(seq, len), seq) == len,
{
}

/// A segment of the server that is known goes to its stream, whatever it holds: nothing else
/// changes.
pub proof fn law_known_server_is_read(
    v: CaptureView,
    seg: (Seq<u8>, u16, Seq<u8>, u16, u32, Seq<u8>),
)
    requires
        v.known == Some(
            ServerView { src_addr: seg.0, src_port: seg.1, dst_addr: seg.2, dst_port: seg.3 },
        ),
    ensures
        segment_effect(v, seg).1 == PacketEffect::Frames(receive(v.stream, seg.4, seg.5, false).0),
        segment_effect(v, seg).0 == (CaptureView {
            stream: receive(v.stream, seg.4, seg.5, false).1,
            ..v
        }),
{
}

/// Another server takes over exactly where it is recognised as a scene server, or where none is
/// known and it answers a login. What was followed is dropped, and the first byte that is awaited is
/// the one after the segment.
pub proof fn law_servers_take_over(
    v: CaptureView,
    seg: (Seq<u8>, u16, Seq<u8>, u16, u32, Seq<u8>),
)
    requires
        v.known != Some(
            ServerView { src_addr: seg.0, src_port: seg.1, dst_addr: seg.2, dst_port: seg.3 },
        ),
    ensures
        segment_effect(v, seg).1 == PacketEffect::Handover <==> is_scene_server(seg.5) || (v.known
            is None && is_login_return(seg.5)),
        segment_effect(v, seg).1 == PacketEffect::Handover ==> {
            let after = segment_effect(v, seg).0;
            &&& after.known == Some(
                ServerView { src_addr: seg.0, src_port: seg.1, dst_addr: seg.2, dst_port: seg.3 },
            )
            &&& after.stream.next == Some(((seg.4 + seg.5.len()) % 0x1_0000_0000) as u32)
            &&& after.stream.held.len() == 0 && after.stream.data.len() == 0
            &&& after.followed.len() == 0
            &&& after.subnet == Some(
                if seg.0[0] == 10 || seg.0[0] == 172 || seg.0[0] == 192 {
                    seg.2.take(2)
                } else {
                    seg.0.take(2)
                },
            )
        },
        segment_effect(v, seg).1 != PacketEffect::Handover ==> {
            let after = segment_effect(v, seg).0;
            after.known == v.known && after.stream == v.stream && after.subnet == v.subnet
        },
{
}

/// A segment from elsewhere changes nothing: one that is no handover and does not come from the
/// addresses of the game, or that is empty.
pub proof fn law_strangers_are_ignored(
    v: CaptureView,
    seg: (Seq<u8>, u16, Seq<u8>, u16, u32, Seq<u8>),
)
    requires
        v.known != Some(
            ServerView { src_addr: seg.0, src_port: seg.1, dst_addr: seg.2, dst_port: seg.3 },
        ),
        !is_scene_server(seg.5),
        v.known is Some || !is_login_return(seg.5),
        v.subnet is None || v.subnet != Some(seg.0.take(2)) || seg.5.len() == 0,
    ensures
        segment_effect(v, seg) == (v, PacketEffect::Nothing),
{
}

proof fn lemma_followed_at(followed: Seq<(ServerView, StreamView)>, s: ServerView, i: int)
    requires
        0 <= i <= followed.len(),
    ensures
        followed_at(followed, s, i) matches Some(x) ==> i <= x < followed.len() && followed[x].0
            == s,
        followed_at(followed, s, i) is None ==> forall|x: int|
            i <= x < followed.len() ==> (#[trigger] followed[x]).0 != s,
    decreases followed.len() - i,
{
    if i < followed.len() && followed[i].0 != s {
        lemma_followed_at(followed, s, i + 1);
    }
}

/// A segment from the addresses of the game is read as part of the stream of its own connection,
/// which is followed from then on; the streams of other connections stay. Of connections that are
/// not followed yet, no more than 16 are.
pub proof fn law_game_connections_are_followed(
    v: CaptureView,
    seg: (Seq<u8>, u16, Seq<u8>, u16, u32, Seq<u8>),
    x: int,
)
    requires
        v.known != Some(
            ServerView { src_addr: seg.0, src_port: seg.1, dst_addr: seg.2, dst_port: seg.3 },
        ),
        !is_scene_server(seg.5),
        v.known is Some || !is_login_return(seg.5),
        v.subnet == Some(seg.0.take(2)),
        seg.5.len() > 0,
    ensures
        ({
            let server = ServerView {
                src_addr: seg.0,
                src_port: seg.1,
                dst_addr: seg.2,
                dst_port: seg.3,
            };
            let (after, effect) = segment_effect(v, seg);
            let followed_before = exists|i: int|
                0 <= i < v.followed.len() && (#[trigger] v.followed[i]).0 == server;
            &&& !followed_before && v.followed.len() >= 16 ==> after == v && effect
                == PacketEffect::Nothing
            &&& !followed_before && v.followed.len() < 16 ==> {
                let start = StreamView { next: None, held: Seq::empty(), data: Seq::empty() };
                &&& after.followed == v.followed.push(
                    (server, receive(start, seg.4, seg.5, true).1),
                )
                &&& effect == PacketEffect::Frames(receive(start, seg.4, seg.5, true).0)
            }
            &&& followed_before ==> after.followed.len() == v.followed.len() && exists|i: int|
                0 <= i < v.followed.len() && v.followed[i].0 == server && (
                #[trigger] after.followed[i]) == (
                    server,
                    receive(v.followed[i].1, seg.4, seg.5, true).1,
                ) && effect == PacketEffect::Frames(
                    receive(v.followed[i].1, seg.4, seg.5, true).0,
                )
            &&& 0 <= x < v.followed.len() && v.followed[x].0 != server ==> after.followed[x]
                == v.followed[x]
            &&& after.followed.len() <= 16 || after.followed.len() == v.followed.len()
        }),
{
    let server = segment_server(seg);
    let room = with_room(v.followed, server);
    let after = segment_effect(v, seg).0;
    lemma_followed_at(v.followed, server, 0);
    lemma_followed_at(room, server, 0);
    if followed_at(v.followed, server, 0) is None && v.followed.len() < 16 {
        let n = v.followed.len() as int;
        assert(room[n].0 == server);
        let i = followed_at(room, server, 0)->0;
        assert(i == n) by {
            if i < n {
                assert(room[i] == v.followed[i]);
            }
        }
        assert(after.followed =~= v.followed.push(
            (
                server,
                receive(
                    StreamView { next: None, held: Seq::empty(), data: Seq::empty() },
                    seg.4,
                    seg.5,
                    true,
                ).1,
            ),
        ));
    }
    if followed_at(v.followed, server, 0) is Some {
        let i = followed_at(v.followed, server, 0)->0;
        assert(room == v.followed);
        assert(after.followed[i] == (server, receive(v.followed[i].1, seg.4, seg.5, true).1));
    } else if v.followed.len() >= 16 {
        assert(after.followed == v.followed);
    }
}

/// The messages of frames that come one after the other come one after the other; those of one
/// frame are those of its bytes.
pub proof fn law_frames_are_read_in_order(a: Seq<Seq<u8>>, b: Seq<Seq<u8>>, frame: Seq<u8>)
    ensures
        frame_messages(a + b) == frame_messages(a) + frame_messages(b),
        frame_messages(seq![frame]) == messages(frame, u64::MAX as nat),
    decreases b.len(),
{
    reveal_with_fuel(frame_messages, 2);
    assert(seq![frame].drop_last() =~= Seq::empty());
    assert(seq![frame].last() == frame);
    assert(frame_messages(seq![frame]) =~= messages(frame, u64::MAX as nat));
    if b.len() == 0 {
        assert(a + b =~= a);
        assert(frame_messages(a) + frame_messages(b) =~= frame_messages(a));
    } else {
        law_frames_are_read_in_order(a, b.drop_last(), frame);
        assert((a + b).drop_last() =~= a + b.drop_last());
        assert((a + b).last() == b.last());
        assert(frame_messages(a + b) =~= frame_messages(a) + frame_messages(b));
    }
}

/// The phase and the last action after `n` opens that all fail with `code`.
pub open spec fn failing(code: Option<i32>, n: nat) -> (OpenPhase, OpenAction)
    decreases n,
{
    if n == 0 {
        (OpenPhase::First, OpenAction::Open)
    } else {
        open_rule(failing(code, (n - 1) as nat).0, OpenEvent::OpenFailed(code))
    }
}

/// Where the driver cannot be opened because its service is about to be deleted, five more opens
/// follow, each after 200 ms, and no others.
pub proof fn law_deleted_service_is_awaited(n: nat)
    ensures
        1 <= n <= 5 ==> failing(Some(1072), n).1 == OpenAction::WaitAndOpen(200),
        n == 6 ==> failing(Some(1072), n).1 == OpenAction::GiveUp,
{
    reveal_with_fuel(failing, 7);
}

/// Where it cannot be opened for another reason, a stopped service is removed, and the driver is
/// opened once more where there was one. Whatever was tried, a driver that is open is done.
pub proof fn law_other_failures(code: Option<i32>, phase: OpenPhase, again: OpenEvent)
    ensures
        code != Some(1072i32) ==> {
            let recovering = failing(code, 1);
            let removed = open_rule(recovering.0, OpenEvent::Recovered(true));
            &&& recovering.1 == OpenAction::Recover
            &&& removed.1 == OpenAction::Open
            &&& again != OpenEvent::Opened ==> open_rule(removed.0, again).1 == OpenAction::GiveUp
            &&& open_rule(recovering.0, OpenEvent::Recovered(false)).1 == OpenAction::GiveUp
            &&& open_rule(recovering.0, OpenEvent::RecoverFailed).1 == OpenAction::GiveUp
        },
        open_rule(phase, OpenEvent::Opened).1 == OpenAction::Done,
        again != OpenEvent::Opened ==> open_rule(phase, again).1 != OpenAction::Done,
{
    reveal_with_fuel(failing, 2);
}

/// A part that lies ahead waits while what waits is under 32 KiB. From there on the gap before it is
/// given up: what was read of the stream is dropped, and reading goes on with the part.
pub proof fn law_gaps_are_given_up(
    next: u32,
    data: Seq<u8>,
    seq: u32,
    part: Seq<u8>,
    clear: bool,
)
    requires
        next < seq < next + 0x100_0000,
        part.len() > 0,
        frames(data, clear) == (Seq::<Seq<u8>>::empty(), data),
    ensures
        ({
            let got = receive(
                StreamView { next: Some(next), held: Seq::empty(), data },
                seq,
                part,
                clear,
            );
            &&& part.len() < 32768 ==> got == (
                Seq::<Seq<u8>>::empty(),
                StreamView { next: Some(next), held: seq![(seq, part)], data },
            )
            &&& part.len() >= 32768 ==> got == (
                frames(part, clear).0,
                StreamView {
                    next: Some(((seq + part.len()) % 0x1_0000_0000) as u32),
                    held: Seq::empty(),
                    data: frames(part, clear).1,
                },
            )
        }),
{
    let none: Held = Seq::empty();
    let one: Held = seq![(seq, part)];
    let after = seq_after(seq, part.len());
    assert(seq_ahead(seq, next) == seq - next);
    assert(put(none, seq, part) == one);
    assert(find_from(one, next, 0) is None) by {
        reveal_with_fuel(find_from, 2);
    }
    assert(drain(next, one, data) == (next, one, data));
    assert(buffered(one) == part.len()) by {
        assert(one.drop_last() =~= none);
        reveal_with_fuel(buffered, 2);
    }
    if part.len() >= 32768 {
        assert(one.drop_first() =~= none);
        assert(drain(after, none, part) == (after, none, part));
        assert(buffered(none) == 0);
        let more = settle(after, none, part, clear);
        assert(more == (
            frames(part, clear).0,
            StreamView { next: Some(after), held: none, data: frames(part, clear).1 },
        ));
        assert(settle(next, one, data, clear) == (frames(data, clear).0 + more.0, more.1));
        assert(frames(data, clear).0 + more.0 =~= more.0);
    }
}

/// What comes out of a packet: nothing where it holds no segment; a handover is a message of its own,
/// without content or connection; frames are messages over the connection that they came over.
pub proof fn law_outputs(
    v: CaptureView,
    packet: Seq<u8>,
    out: CaptureOutput,
    list: Seq<Seq<u8>>,
    server: Server,
    i: int,
)
    ensures
        tcp_segment(packet) is None ==> packet_effect(v, packet) == (v, PacketEffect::Nothing),
        tcp_segment(packet) matches Some(seg) ==> packet_effect(v, packet) == segment_effect(
            v,
            seg,
        ),
        gives(out, PacketEffect::Nothing, None) ==> out.envelopes@.len() == 0 && !out.game_packet,
        gives(out, PacketEffect::Handover, None) ==> out.envelopes@.len() == 1
            && out.envelopes@[0].op == Pkt::ServerHandover && out.envelopes@[0].data@.len() == 0
            && out.envelopes@[0].conn is None && !out.game_packet,
        gives(out, PacketEffect::Frames(list), Some(server)) ==> {
            &&& out.game_packet
            &&& out.envelopes@.len() == frame_messages(list).len()
            &&& 0 <= i < out.envelopes@.len() ==> out.envelopes@[i].op == frame_messages(list)[i].0
                && out.envelopes@[i].data@ == frame_messages(list)[i].1 && out.envelopes@[i].conn
                == Some(server)
        },
{
}

} // verus!
