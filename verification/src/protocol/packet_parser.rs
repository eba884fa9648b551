//! From the bytes of a stream to messages.

use crate::capture::binary_reader::{be16, be32, be64, copy_bytes, BinaryReader};
use crate::capture::server::Server;
use crate::protocol::compression::{zstd_content, zstd_decode};
use crate::protocol::constants::{
    extract_type, is_compressed, SERVICE_UUID, SOCIAL_NTF_NOTIFY_METHOD_ID, SOCIAL_NTF_SERVICE_ID,
};
use crate::protocol::opcodes::{fragment_kind, method_kind, FragmentType, Pkt, PktEnvelope};
use vstd::prelude::*;

verus! {

/// The length of the shortest frame.
pub const FRAME_HEADER_MIN: u32 = 6;

/// What becomes of a frame.
pub enum FrameOutcome {
    /// A message is forwarded.
    Forward { op: Pkt, payload: Vec<u8> },
    /// Nothing.
    Skip,
    /// Reading goes on in the content.
    Reframe(Vec<u8>),
}

/// What becomes of a frame.
pub enum Outcome {
    Forward(Pkt, Seq<u8>),
    Skip,
    Reframe(Seq<u8>),
}

impl View for FrameOutcome {
    type V = Outcome;

    open spec fn view(&self) -> Outcome {
        match self {
            FrameOutcome::Forward { op, payload } => Outcome::Forward(*op, payload@),
            FrameOutcome::Skip => Outcome::Skip,
            FrameOutcome::Reframe(inner) => Outcome::Reframe(inner@),
        }
    }
}

/// Content as it is, or decompressed.
pub open spec fn content(bytes: Seq<u8>, compressed: bool) -> Option<Seq<u8>> {
    if compressed {
        zstd_content(bytes)
    } else {
        Some(bytes)
    }
}

/// What becomes of a message to a service: social notifications and the known methods of the game
/// service are forwarded.
pub open spec fn route(service: int, method: int, body: Seq<u8>) -> Outcome {
    if service == SOCIAL_NTF_SERVICE_ID && method == SOCIAL_NTF_NOTIFY_METHOD_ID {
        Outcome::Forward(Pkt::SocialEnvelope, body)
    } else if service != SERVICE_UUID {
        Outcome::Skip
    } else {
        match method_kind(method) {
            Some(op) => Outcome::Forward(op, body),
            None => Outcome::Skip,
        }
    }
}

/// What becomes of a notification whose content is `body` (`None` where it cannot be read), which
/// begins with the numbers of service, stub and method.
pub open spec fn notify_outcome(header: Seq<u8>, body: Option<Seq<u8>>) -> Outcome {
    match body {
        Some(b) => route(be64(header), be32(header.skip(12)), b),
        None => Outcome::Skip,
    }
}

/// What becomes of a frame. `inside` is what decompressing its content gives.
pub open spec fn frame_outcome_with(
    frame: Seq<u8>,
    inside: spec_fn(Seq<u8>, bool) -> Option<Seq<u8>>,
) -> Outcome {
    let word = be16(frame.skip(4));
    let compressed = word >= 0x8000;
    let kind = fragment_kind((word % 0x8000) as u16);
    if frame.len() < 6 {
        Outcome::Skip
    } else if kind == FragmentType::Notify {
        if frame.len() < 22 {
            Outcome::Skip
        } else {
            notify_outcome(frame.skip(6), inside(frame.skip(22), compressed))
        }
    } else if kind == FragmentType::FrameDown {
        if frame.len() <= 10 {
            Outcome::Skip
        } else {
            match inside(frame.skip(10), compressed) {
                Some(inner) => Outcome::Reframe(inner),
                None => Outcome::Skip,
            }
        }
    } else {
        Outcome::Skip
    }
}

/// What becomes of a frame.
pub open spec fn frame_outcome(frame: Seq<u8>) -> Outcome {
    frame_outcome_with(frame, |bytes: Seq<u8>, compressed: bool| content(bytes, compressed))
}

/// The length of the first frame of a stream, where the stream holds a whole one.
pub open spec fn first_frame(stream: Seq<u8>) -> Option<int> {
    if stream.len() >= 4 && FRAME_HEADER_MIN <= be32(stream) <= stream.len() {
        Some(be32(stream))
    } else {
        None
    }
}

/// The messages of a stream. Reading stops at the first bytes that are no whole frame; a frame with
/// frames inside takes the place of the rest of the stream. At most `layers` such frames are
/// opened.
pub open spec fn messages(stream: Seq<u8>, layers: nat) -> Seq<(Pkt, Seq<u8>)>
    decreases layers, stream.len(),
{
    match first_frame(stream) {
        None => Seq::empty(),
        Some(len) => {
            if len < FRAME_HEADER_MIN || len > stream.len() {
                Seq::empty()
            } else {
                let rest = stream.skip(len);
                match frame_outcome(stream.take(len)) {
                    Outcome::Forward(op, payload) => seq![(op, payload)] + messages(rest, layers),
                    Outcome::Skip => messages(rest, layers),
                    Outcome::Reframe(inner) => {
                        if layers == 0 {
                            Seq::empty()
                        } else {
                            messages(inner, (layers - 1) as nat)
                        }
                    },
                }
            }
        },
    }
}

/// The messages of envelopes, all over the connection `conn`.
pub open spec fn envelopes_hold(
    list: Seq<PktEnvelope>,
    msgs: Seq<(Pkt, Seq<u8>)>,
    conn: Server,
) -> bool {
    &&& list.len() == msgs.len()
    &&& forall|i: int|
        0 <= i < list.len() ==> (#[trigger] list[i]).op == msgs[i].0 && list[i].data@ == msgs[i].1
            && list[i].conn == Some(conn)
}

/// Content as it is, or decompressed.
fn maybe_decompress(bytes: &[u8], compressed: bool) -> (result: Option<Vec<u8>>)
    ensures
        result matches Some(v) ==> content(bytes@, compressed) == Some(v@),
        result is None ==> content(bytes@, compressed) is None,
{
    if !compressed {
        return Some(copy_bytes(bytes));
    }
    zstd_decode(bytes)
}

/// What becomes of a notification with this header and content.
pub fn route_notify(service: u64, method: u32, body: Option<Vec<u8>>) -> (outcome: FrameOutcome)
    ensures
        outcome@ == (match body {
            Some(b) => route(service as int, method as int, b@),
            None => Outcome::Skip,
        }),
{
    let payload: Vec<u8> = match body {
        Some(b) => b,
        None => {
            return FrameOutcome::Skip;
        },
    };
    if service == SOCIAL_NTF_SERVICE_ID && method == SOCIAL_NTF_NOTIFY_METHOD_ID {
        return FrameOutcome::Forward { op: Pkt::SocialEnvelope, payload };
    }
    if service != SERVICE_UUID {
        return FrameOutcome::Skip;
    }
    match Pkt::from_method(method) {
        Ok(op) => FrameOutcome::Forward { op, payload },
        Err(_) => FrameOutcome::Skip,
    }
}

/// What becomes of a notification.
fn decode_notify(frame: &mut BinaryReader, compressed: bool) -> (outcome: FrameOutcome)
    ensures
        outcome@ == (if old(frame).rest().len() < 16 {
            Outcome::Skip
        } else {
            notify_outcome(old(frame).rest(), content(old(frame).rest().skip(16), compressed))
        }),
{
    let ghost rest = frame.rest();
    let service: u64 = match frame.read_u64() {
        Ok(v) => v,
        Err(_) => {
            return FrameOutcome::Skip;
        },
    };
    if frame.read_u32().is_err() {
        return FrameOutcome::Skip;
    }
    let method: u32 = match frame.read_u32() {
        Ok(v) => v,
        Err(_) => {
            return FrameOutcome::Skip;
        },
    };
    assert(rest.skip(8).skip(4) =~= rest.skip(12));
    assert(rest.skip(12).skip(4) =~= rest.skip(16));
    let body: Option<Vec<u8>> = maybe_decompress(frame.read_remaining(), compressed);
    route_notify(service, method, body)
}

/// What becomes of a frame with frames inside.
fn decode_framedown(frame: &mut BinaryReader, compressed: bool) -> (outcome: FrameOutcome)
    ensures
        outcome@ == (if old(frame).rest().len() <= 4 {
            Outcome::Skip
        } else {
            match content(old(frame).rest().skip(4), compressed) {
                Some(inner) => Outcome::Reframe(inner),
                None => Outcome::Skip,
            }
        }),
{
    if frame.read_u32().is_err() {
        return FrameOutcome::Skip;
    }
    if frame.remaining() == 0 {
        return FrameOutcome::Skip;
    }
    match maybe_decompress(frame.read_remaining(), compressed) {
        Some(next) => FrameOutcome::Reframe(next),
        None => FrameOutcome::Skip,
    }
}

/// What becomes of a frame.
fn parse_frame(frame: &mut BinaryReader) -> (outcome: FrameOutcome)
    ensures
        outcome@ == frame_outcome(old(frame).rest()),
{
    let ghost all = frame.rest();
    if frame.read_u32().is_err() {
        return FrameOutcome::Skip;
    }
    let word: u16 = match frame.read_u16() {
        Ok(v) => v,
        Err(_) => {
            return FrameOutcome::Skip;
        },
    };
    assert(all.skip(4).skip(2) =~= all.skip(6));
    assert(all.len() >= 22 ==> all.skip(6).skip(16) =~= all.skip(22));
    assert(all.len() >= 10 ==> all.skip(6).skip(4) =~= all.skip(10));
    let compressed: bool = is_compressed(word);
    let kind = FragmentType::from(extract_type(word));
    match kind {
        FragmentType::Notify => decode_notify(frame, compressed),
        FragmentType::FrameDown => decode_framedown(frame, compressed),
        _ => FrameOutcome::Skip,
    }
}

/// Takes the first frame off a stream, where there is a whole one.
fn peek_frame(stream: &mut BinaryReader) -> (frame: Option<Vec<u8>>)
    ensures
        frame is Some <==> first_frame(old(stream).rest()) is Some,
        frame matches Some(bytes) ==> {
            let len = first_frame(old(stream).rest())->0;
            bytes@ == old(stream).rest().take(len) && final(stream).rest() == old(
                stream).rest().skip(len)
        },
        frame is None ==> final(stream).rest() == old(stream).rest(),
{
    let len: u32 = match stream.peek_u32() {
        Ok(n) => n,
        Err(_) => {
            return None;
        },
    };
    if len < FRAME_HEADER_MIN {
        return None;
    }
    match stream.read_bytes(len as usize) {
        Ok(bytes) => Some(bytes),
        Err(_) => None,
    }
}

/// The messages of a stream, in order, each with the connection that it came over.
pub fn process_packet(initial: BinaryReader, conn: Server) -> (out: Vec<PktEnvelope>)
    ensures
        envelopes_hold(out@, messages(initial.rest(), u64::MAX as nat), conn),
{
    let ghost start = messages(initial.rest(), u64::MAX as nat);
    let mut stream: BinaryReader = initial;
    let mut layers: u64 = u64::MAX;
    let mut out: Vec<PktEnvelope> = Vec::new();
    let ghost seen = Seq::<(Pkt, Seq<u8>)>::empty();
    assert(seen + messages(stream.rest(), layers as nat) =~= start);
    loop
        invariant_except_break
            envelopes_hold(out@, seen, conn),
            start == seen + messages(stream.rest(), layers as nat),
        ensures
            envelopes_hold(out@, start, conn),
        decreases layers, stream.rest().len(),
    {
        let ghost bytes = stream.rest();
        let frame_bytes: Vec<u8> = match peek_frame(&mut stream) {
            Some(b) => b,
            None => {
                assert(start =~= seen);
                break;
            },
        };
        let ghost len = first_frame(bytes)->0;
        let ghost rest = bytes.skip(len);
        assert(rest.len() < bytes.len());
        let mut frame = BinaryReader::from_bytes(frame_bytes);
        match parse_frame(&mut frame) {
            FrameOutcome::Forward { op, payload } => {
                proof {
                    seen = seen.push((op, payload@));
                    assert(start =~= seen + messages(rest, layers as nat));
                }
                out.push(PktEnvelope { op, data: payload, conn: Some(conn) });
            },
            FrameOutcome::Skip => {},
            FrameOutcome::Reframe(inner) => {
                if layers == 0 {
                    assert(start =~= seen);
                    break;
                }
                layers -= 1;
                stream = BinaryReader::from_bytes(inner);
            },
        }
    }
    out
}

/// Compression is transparent: a notification whose content was compressed is forwarded as it would
/// be with the content as it was.
pub proof fn law_compression_is_transparent(packed: Seq<u8>, plain: Seq<u8>)
    requires
        packed.len() >= 22,
        plain.len() >= 22,
        packed.subrange(6, 22) == plain.subrange(6, 22),
        be16(plain.skip(4)) < 0x8000,
        be16(packed.skip(4)) == be16(plain.skip(4)) + 0x8000,
        fragment_kind(be16(plain.skip(4)) as u16) == FragmentType::Notify,
        zstd_content(packed.skip(22)) == Some(plain.skip(22)),
    ensures
        frame_outcome(packed) == frame_outcome(plain),
{
    let a = packed.skip(6);
    let b = plain.skip(6);
    assert forall|i: int| 0 <= i < 16 implies a[i] == b[i] by {
        assert(packed.subrange(6, 22)[i] == plain.subrange(6, 22)[i]);
    }
    assert(be64(a) == be64(b));
    assert forall|i: int| 0 <= i < 4 implies a.skip(12)[i] == b.skip(12)[i] by {
        assert(a[12 + i] == b[12 + i]);
    }
    assert(be32(a.skip(12)) == be32(b.skip(12)));
}

} // verus!
