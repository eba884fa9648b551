//! What is made of each captured packet: which connection it belongs to, and the messages that it
//! completes.

use crate::capture::binary_reader::{copy_bytes, BinaryReader};
use crate::capture::detection::{
    detect_login_return, detect_scene_server, is_login_return, is_scene_server,
};
use crate::capture::packet::{slice_tcp, tcp_segment, TcpSegment};
use crate::capture::server::{Server, ServerView};
use crate::capture::tcp_reassembler::{
    advance, frame_views, receive, seq_after, StreamView, TcpReassembler,
};
use crate::protocol::opcodes::{Pkt, PktEnvelope};
use crate::protocol::packet_parser::{envelopes_hold, messages, process_packet};
use vstd::prelude::*;

verus! {

/// The number of connections besides the main one that are followed.
pub const MAX_SUBNET_CONNECTIONS: usize = 16;

/// What is known of the connections of the game.
pub struct CaptureState {
    pub known_server: Option<Server>,
    pub reassembler: TcpReassembler,
    pub game_subnet: Option<[u8; 2]>,
    pub followed: Vec<(Server, TcpReassembler)>,
}

/// What a packet gave.
pub struct CaptureOutput {
    /// The packet belongs to the game.
    pub game_packet: bool,
    /// The messages that it completes.
    pub envelopes: Vec<PktEnvelope>,
}

pub struct CaptureView {
    pub known: Option<ServerView>,
    pub stream: StreamView,
    pub subnet: Option<Seq<u8>>,
    pub followed: Seq<(ServerView, StreamView)>,
}

impl View for CaptureState {
    type V = CaptureView;

    open spec fn view(&self) -> CaptureView {
        CaptureView {
            known: match self.known_server {
                Some(s) => Some(s@),
                None => None,
            },
            stream: self.reassembler@,
            subnet: match self.game_subnet {
                Some(p) => Some(p@),
                None => None,
            },
            followed: followed_view(self.followed@),
        }
    }
}

/// The connections that are followed.
pub open spec fn followed_view(list: Seq<(Server, TcpReassembler)>) -> Seq<
    (ServerView, StreamView),
> {
    Seq::new(list.len(), |i: int| (list[i].0@, list[i].1@))
}

/// The connection of a segment.
pub open spec fn segment_server(seg: (Seq<u8>, u16, Seq<u8>, u16, u32, Seq<u8>)) -> ServerView {
    ServerView { src_addr: seg.0, src_port: seg.1, dst_addr: seg.2, dst_port: seg.3 }
}

/// The subnet of the game's servers: that of the side that is not in a private network.
pub open spec fn game_prefix(s: ServerView) -> Seq<u8> {
    if s.src_addr[0] != 10 && s.src_addr[0] != 172 && s.src_addr[0] != 192 {
        s.src_addr.take(2)
    } else {
        s.dst_addr.take(2)
    }
}

/// The position at `i` or later of a connection that is followed.
pub open spec fn followed_at(
    followed: Seq<(ServerView, StreamView)>,
    s: ServerView,
    i: int,
) -> Option<int>
    decreases followed.len() - i,
{
    if i < 0 || i >= followed.len() {
        None
    } else if followed[i].0 == s {
        Some(i)
    } else {
        followed_at(followed, s, i + 1)
    }
}

/// A connection of which nothing is known.
pub open spec fn fresh_stream() -> StreamView {
    StreamView { next: None, held: Seq::empty(), data: Seq::empty() }
}

/// What a packet gives.
pub enum PacketEffect {
    /// Nothing.
    Nothing,
    /// A new server: everything starts anew.
    Handover,
    /// Frames of the game.
    Frames(Seq<Seq<u8>>),
}

/// `followed` with room for the connection `s`, where there is any.
pub open spec fn with_room(followed: Seq<(ServerView, StreamView)>, s: ServerView) -> Seq<
    (ServerView, StreamView),
> {
    if followed_at(followed, s, 0) is None && followed.len() < MAX_SUBNET_CONNECTIONS {
        followed.push((s, fresh_stream()))
    } else {
        followed
    }
}

/// What a segment does.
///
/// Segments of the known server go to its stream. Of another connection, a segment that names a
/// scene server (or, while none is known, answers a login) makes it the known server; else it goes
/// to the stream of its connection where that comes from the game's subnet and is followed.
pub open spec fn segment_effect(
    v: CaptureView,
    seg: (Seq<u8>, u16, Seq<u8>, u16, u32, Seq<u8>),
) -> (CaptureView, PacketEffect) {
    let server = segment_server(seg);
    let seq = seg.4;
    let payload = seg.5;
    if v.known == Some(server) {
        let r = receive(v.stream, seq, payload, false);
        (CaptureView { stream: r.1, ..v }, PacketEffect::Frames(r.0))
    } else if is_scene_server(payload) || (v.known is None && is_login_return(payload)) {
        (
            CaptureView {
                known: Some(server),
                stream: StreamView {
                    next: Some(seq_after(seq, payload.len())),
                    held: Seq::empty(),
                    data: Seq::empty(),
                },
                subnet: Some(game_prefix(server)),
                followed: Seq::empty(),
            },
            PacketEffect::Handover,
        )
    } else if payload.len() > 0 && v.subnet == Some(server.src_addr.take(2)) {
        let followed = with_room(v.followed, server);
        match followed_at(followed, server, 0) {
            Some(i) => {
                let r = receive(followed[i].1, seq, payload, true);
                (
                    CaptureView { followed: followed.update(i, (server, r.1)), ..v },
                    PacketEffect::Frames(r.0),
                )
            },
            None => (CaptureView { followed, ..v }, PacketEffect::Nothing),
        }
    } else {
        (v, PacketEffect::Nothing)
    }
}

/// What a captured packet does.
pub open spec fn packet_effect(v: CaptureView, packet: Seq<u8>) -> (CaptureView, PacketEffect) {
    match tcp_segment(packet) {
        Some(seg) => segment_effect(v, seg),
        None => (v, PacketEffect::Nothing),
    }
}

/// The messages in frames, frame by frame.
pub open spec fn frame_messages(list: Seq<Seq<u8>>) -> Seq<(Pkt, Seq<u8>)>
    decreases list.len(),
{
    if list.len() == 0 {
        Seq::empty()
    } else {
        frame_messages(list.drop_last()) + messages(list.last(), u64::MAX as nat)
    }
}

/// `out` is what the effect gives for a packet over the connection `server`.
pub open spec fn gives(out: CaptureOutput, effect: PacketEffect, server: Option<Server>) -> bool {
    match effect {
        PacketEffect::Nothing => !out.game_packet && out.envelopes@.len() == 0,
        PacketEffect::Handover => !out.game_packet && out.envelopes@.len() == 1
            && out.envelopes@[0].op == Pkt::ServerHandover && out.envelopes@[0].data@.len() == 0
            && out.envelopes@[0].conn is None,
        PacketEffect::Frames(list) => out.game_packet && server is Some && envelopes_hold(
            out.envelopes@,
            frame_messages(list),
            server->0,
        ),
    }
}

/// The messages in frames that came over `conn`.
fn frames_to_envelopes(frames: &Vec<Vec<u8>>, conn: Server) -> (out: Vec<PktEnvelope>)
    ensures
        envelopes_hold(out@, frame_messages(frame_views(frames@)), conn),
{
    let ghost list = frame_views(frames@);
    let mut out: Vec<PktEnvelope> = Vec::new();
    let mut i: usize = 0;
    assert(list.take(0) =~= Seq::<Seq<u8>>::empty());
    while i < frames.len()
        invariant
            i <= frames@.len(),
            list == frame_views(frames@),
            envelopes_hold(out@, frame_messages(list.take(i as int)), conn),
        decreases frames@.len() - i,
    {
        let frame: Vec<u8> = copy_bytes(frames[i].as_slice());
        proof {
            assert(frame@ == list[i as int]);
            assert(list.take(i + 1).drop_last() =~= list.take(i as int));
            assert(list.take(i + 1).last() == list[i as int]);
        }
        let mut more: Vec<PktEnvelope> = process_packet(BinaryReader::from_bytes(frame), conn);
        out.append(&mut more);
        i += 1;
    }
    assert(list.take(i as int) =~= list);
    out
}

/// The bytes of a subnet.
fn prefix_of(addr: [u8; 4]) -> (p: [u8; 2])
    ensures
        p@ == addr@.take(2),
{
    let p: [u8; 2] = [addr[0], addr[1]];
    assert(p@ =~= addr@.take(2));
    p
}

impl CaptureState {
    /// Nothing is known yet.
    pub fn new() -> (s: CaptureState)
        ensures
            s@ == (CaptureView {
                known: None,
                stream: fresh_stream(),
                subnet: None,
                followed: Seq::empty(),
            }),
    {
        let s = CaptureState {
            known_server: None,
            reassembler: TcpReassembler::new(),
            game_subnet: None,
            followed: Vec::new(),
        };
        assert(s@.followed =~= Seq::<(ServerView, StreamView)>::empty());
        s
    }

    /// Makes `server` the known server, to go on at `seq`.
    pub fn update_known_server(&mut self, server: &Server, seq: u32)
        ensures
            final(self)@ == (CaptureView {
                known: Some(server@),
                stream: StreamView { next: Some(seq), held: Seq::empty(), data: Seq::empty() },
                subnet: Some(game_prefix(server@)),
                followed: Seq::empty(),
            }),
    {
        self.known_server = Some(*server);
        let src: [u8; 4] = server.src_addr();
        let dst: [u8; 4] = server.dst_addr();
        let prefix: [u8; 2] = if src[0] != 10 && src[0] != 172 && src[0] != 192 {
            prefix_of(src)
        } else {
            prefix_of(dst)
        };
        self.game_subnet = Some(prefix);
        self.reassembler.clear(seq);
        self.followed = Vec::new();
        assert(self@.followed =~= Seq::<(ServerView, StreamView)>::empty());
    }

    /// The position of a connection that is followed.
    fn find_followed(&self, server: &Server) -> (at: Option<usize>)
        ensures
            at matches Some(i) ==> followed_at(self@.followed, server@, 0) == Some(i as int) && i
                < self.followed@.len(),
            at is None ==> followed_at(self@.followed, server@, 0) is None,
    {
        let ghost list = self@.followed;
        let mut i: usize = 0;
        while i < self.followed.len()
            invariant
                i <= self.followed@.len(),
                list == followed_view(self.followed@),
                followed_at(list, server@, 0) == followed_at(list, server@, i as int),
            decreases self.followed@.len() - i,
        {
            if self.followed[i].0.same(server) {
                return Some(i);
            }
            i += 1;
        }
        None
    }

    /// Takes a segment in.
    pub fn on_segment(&mut self, seg: &TcpSegment) -> (out: CaptureOutput)
        ensures
            final(self)@ == segment_effect(old(self)@, seg@).0,
            exists|server: Server| #[trigger]
                server@ == segment_server(seg@) && gives(
                    out,
                    segment_effect(old(self)@, seg@).1,
                    Some(server),
                ),
    {
        let server = Server::new(seg.src_addr, seg.src_port, seg.dst_addr, seg.dst_port);
        let ghost v = self@;
        let payload: &[u8] = seg.payload.as_slice();
        let known: bool = match &self.known_server {
            Some(s) => s.same(&server),
            None => false,
        };
        if known {
            let frames: Vec<Vec<u8>> = self.reassembler.reassemble(seg.seq, payload, false);
            let envelopes = frames_to_envelopes(&frames, server);
            let out = CaptureOutput { game_packet: true, envelopes };
            assert(gives(out, segment_effect(v, seg@).1, Some(server)));
            return out;
        }
        if detect_scene_server(payload) || (self.known_server.is_none() && detect_login_return(
            payload,
        )) {
            let after: u32 = advance(seg.seq, seg.payload.len());
            self.update_known_server(&server, after);
            let mut envelopes: Vec<PktEnvelope> = Vec::new();
            envelopes.push(PktEnvelope { op: Pkt::ServerHandover, data: Vec::new(), conn: None });
            let out = CaptureOutput { game_packet: false, envelopes };
            assert(gives(out, segment_effect(v, seg@).1, Some(server)));
            return out;
        }
        let in_subnet: bool = match &self.game_subnet {
            Some(prefix) => server.src_matches_subnet(prefix),
            None => false,
        };
        if seg.payload.len() > 0 && in_subnet {
            assert(v.subnet == Some(server@.src_addr.take(2)));
            if self.find_followed(&server).is_none() && self.followed.len() < MAX_SUBNET_CONNECTIONS {
                let ghost before = self.followed@;
                self.followed.push((server, TcpReassembler::new()));
                assert(self@.followed =~= v.followed.push((server@, fresh_stream())));
            }
            assert(self@.followed == with_room(v.followed, server@));
            match self.find_followed(&server) {
                Some(i) => {
                    let ghost before = self.followed@;
                    let (s, mut reassembler) = self.followed.remove(i);
                    let frames: Vec<Vec<u8>> = reassembler.reassemble(seg.seq, payload, true);
                    self.followed.insert(i, (server, reassembler));
                    assert(self@.followed =~= followed_view(before).update(
                        i as int,
                        (server@, reassembler@),
                    ));
                    let envelopes = frames_to_envelopes(&frames, server);
                    let out = CaptureOutput { game_packet: true, envelopes };
                    assert(gives(out, segment_effect(v, seg@).1, Some(server)));
                    return out;
                },
                None => {
                    let out = CaptureOutput { game_packet: false, envelopes: Vec::new() };
                    assert(gives(out, segment_effect(v, seg@).1, Some(server)));
                    return out;
                },
            }
        }
        let out = CaptureOutput { game_packet: false, envelopes: Vec::new() };
        assert(gives(out, segment_effect(v, seg@).1, Some(server)));
        out
    }

    /// Takes a captured packet in.
    pub fn on_packet(&mut self, packet: &[u8]) -> (out: CaptureOutput)
        ensures
            final(self)@ == packet_effect(old(self)@, packet@).0,
            match tcp_segment(packet@) {
                Some(seg) => exists|server: Server| #[trigger]
                    server@ == segment_server(seg) && gives(
                        out,
                        packet_effect(old(self)@, packet@).1,
                        Some(server),
                    ),
                None => gives(out, PacketEffect::Nothing, None),
            },
    {
        match slice_tcp(packet) {
            Some(seg) => self.on_segment(&seg),
            None => CaptureOutput { game_packet: false, envelopes: Vec::new() },
        }
    }
}

} // verus!
