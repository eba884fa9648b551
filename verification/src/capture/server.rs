//! Connections.

use crate::text::{append_digits, digits};
use vstd::prelude::*;
use vstd::string::*;

verus! {

/// One direction of a connection: where its packets come from and where they go.
#[derive(Debug, Copy, Clone, PartialEq, Eq, Hash)]
pub struct Server {
    src_addr: [u8; 4],
    src_port: u16,
    dst_addr: [u8; 4],
    dst_port: u16,
}

/// The parts of a connection.
pub struct ServerView {
    pub src_addr: Seq<u8>,
    pub src_port: u16,
    pub dst_addr: Seq<u8>,
    pub dst_port: u16,
}

impl View for Server {
    type V = ServerView;

    closed spec fn view(&self) -> ServerView {
        ServerView {
            src_addr: self.src_addr@,
            src_port: self.src_port,
            dst_addr: self.dst_addr@,
            dst_port: self.dst_port,
        }
    }
}

/// An address with a dot between its bytes.
pub open spec fn ip_text(ip: Seq<u8>) -> Seq<char> {
    digits(ip[0] as nat) + "."@ + digits(ip[1] as nat) + "."@ + digits(ip[2] as nat) + "."@
        + digits(ip[3] as nat)
}

/// A connection as text.
pub open spec fn server_text(s: ServerView) -> Seq<char> {
    ip_text(s.src_addr) + ":"@ + digits(s.src_port as nat) + " -> "@ + ip_text(s.dst_addr) + ":"@
        + digits(s.dst_port as nat)
}

/// Appends an address.
fn append_ip(text: &mut String, ip: &[u8; 4])
    ensures
        final(text)@ == old(text)@ + ip_text(ip@),
{
    let ghost before = text@;
    append_digits(text, ip[0] as u64);
    text.append(".");
    append_digits(text, ip[1] as u64);
    text.append(".");
    append_digits(text, ip[2] as u64);
    text.append(".");
    append_digits(text, ip[3] as u64);
    assert(text@ =~= before + ip_text(ip@));
}

/// Whether two addresses are the same.
fn same_addr(a: &[u8; 4], b: &[u8; 4]) -> (same: bool)
    ensures
        same == (a@ == b@),
        same == (*a == *b),
{
    let same: bool = a[0] == b[0] && a[1] == b[1] && a[2] == b[2] && a[3] == b[3];
    assert(same ==> a@ =~= b@);
    assert(a@ =~= b@ ==> *a == *b);
    same
}

impl Server {
    /// The connection from one address and port to another.
    pub fn new(src_addr: [u8; 4], src_port: u16, dst_addr: [u8; 4], dst_port: u16) -> (s: Server)
        ensures
            s@ == (ServerView {
                src_addr: src_addr@,
                src_port,
                dst_addr: dst_addr@,
                dst_port,
            }),
    {
        Server { src_addr, src_port, dst_addr, dst_port }
    }

    /// The address that packets come from.
    pub fn src_addr(&self) -> (addr: [u8; 4])
        ensures
            addr@ == self@.src_addr,
    {
        self.src_addr
    }

    /// The address that packets go to.
    pub fn dst_addr(&self) -> (addr: [u8; 4])
        ensures
            addr@ == self@.dst_addr,
    {
        self.dst_addr
    }

    /// Whether the first two bytes of the source address are `prefix`.
    pub fn src_matches_subnet(&self, prefix: &[u8; 2]) -> (b: bool)
        ensures
            b == (self@.src_addr.take(2) == prefix@),
    {
        let b: bool = self.src_addr[0] == prefix[0] && self.src_addr[1] == prefix[1];
        proof {
            let head = self.src_addr@.take(2);
            assert(head[0] == self.src_addr@[0] && head[1] == self.src_addr@[1]);
            if b {
                assert(head =~= prefix@);
            }
        }
        b
    }

    /// Whether two connections are the same.
    pub fn same(&self, other: &Server) -> (b: bool)
        ensures
            b == (self@ == other@),
            b == (*self == *other),
    {
        same_addr(&self.src_addr, &other.src_addr) && self.src_port == other.src_port && same_addr(
            &self.dst_addr,
            &other.dst_addr,
        ) && self.dst_port == other.dst_port
    }

    /// The connection as text.
    pub fn text(&self) -> (text: String)
        ensures
            text@ == server_text(self@),
    {
        let mut text: String = String::new();
        append_ip(&mut text, &self.src_addr);
        text.append(":");
        append_digits(&mut text, self.src_port as u64);
        text.append(" -> ");
        append_ip(&mut text, &self.dst_addr);
        text.append(":");
        append_digits(&mut text, self.dst_port as u64);
        assert(text@ =~= server_text(self@));
        text
    }
}

} // verus!
