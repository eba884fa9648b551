//! Captured packets.

use etherparse::{NetSlice, SlicedPacket, TransportSlice};
use vstd::prelude::*;

verus! {

/// A TCP segment of a captured packet.
#[derive(Debug, Clone)]
pub struct TcpSegment {
    pub src_addr: [u8; 4],
    pub src_port: u16,
    pub dst_addr: [u8; 4],
    pub dst_port: u16,
    pub seq: u32,
    pub payload: Vec<u8>,
}

impl View for TcpSegment {
    type V = (Seq<u8>, u16, Seq<u8>, u16, u32, Seq<u8>);

    open spec fn view(&self) -> (Seq<u8>, u16, Seq<u8>, u16, u32, Seq<u8>) {
        (
            self.src_addr@,
            self.src_port,
            self.dst_addr@,
            self.dst_port,
            self.seq,
            self.payload@,
        )
    }
}

/// The TCP segment that an IP packet holds: source address and port, destination address and port,
/// sequence number and payload. `None` where the packet is not valid, not IPv4 or holds no TCP
/// segment.
pub uninterp spec fn tcp_segment(packet: Seq<u8>) -> Option<
    (Seq<u8>, u16, Seq<u8>, u16, u32, Seq<u8>),
>;

/// Slices an IP packet with `etherparse::SlicedPacket::from_ip`.
///
/// Trusted: what `SlicedPacket::from_ip` finds in a packet is a function of its bytes alone.
#[verifier::external_body]
pub(crate) fn slice_tcp(packet: &[u8]) -> (segment: Option<TcpSegment>)
    ensures
        segment matches Some(s) ==> tcp_segment(packet@) == Some(s@),
        segment is None ==> tcp_segment(packet@) is None,
{
    let sliced = SlicedPacket::from_ip(packet).ok()?;
    match (sliced.net, sliced.transport) {
        (Some(NetSlice::Ipv4(ip)), Some(TransportSlice::Tcp(tcp))) => Some(TcpSegment {
            src_addr: ip.header().source(),
            src_port: tcp.source_port(),
            dst_addr: ip.header().destination(),
            dst_port: tcp.destination_port(),
            seq: tcp.sequence_number(),
            payload: tcp.payload().to_vec(),
        }),
        _ => None,
    }
}

} // verus!
