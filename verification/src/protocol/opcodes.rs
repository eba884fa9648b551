//! The kinds of messages and frames.

use crate::capture::server::Server;
use crate::error::AppError;
use crate::text::{append_hex, hex_text};
use vstd::prelude::*;
use vstd::string::*;

verus! {

/// The kinds of messages that are processed.
#[non_exhaustive]
#[derive(Debug, Clone, Copy, PartialEq, Eq, Structural)]
pub enum Pkt {
    ServerHandover,
    SocialEnvelope,
    WorldEntityBatch,
    WorldEnterSnapshot,
    LocalDeltaBatch,
    WorldDeltaBatch,
    BuffTick,
    BuffSnapshotBundle,
}

/// A message with the connection that it came over.
#[derive(Debug, Clone)]
pub struct PktEnvelope {
    pub op: Pkt,
    pub data: Vec<u8>,
    pub conn: Option<Server>,
}

/// The kind of message that a method number stands for.
pub open spec fn method_kind(method: int) -> Option<Pkt> {
    if method == 0x06 {
        Some(Pkt::WorldEntityBatch)
    } else if method == 0x15 {
        Some(Pkt::WorldEnterSnapshot)
    } else if method == 0x2d {
        Some(Pkt::WorldDeltaBatch)
    } else if method == 0x2e {
        Some(Pkt::LocalDeltaBatch)
    } else if method == 0x3003 {
        Some(Pkt::BuffTick)
    } else if method == 0x3005 {
        Some(Pkt::BuffSnapshotBundle)
    } else {
        None
    }
}

impl Pkt {
    /// The kind of message that a method number stands for.
    pub fn from_method(method: u32) -> (kind: Result<Pkt, AppError>)
        ensures
            kind is Ok <==> method_kind(method as int) is Some,
            kind matches Ok(k) ==> method_kind(method as int) == Some(k),
            kind matches Err(e) ==> e matches AppError::Parse(reason) && reason@
                == "Unknown opcode: 0x"@ + hex_text(method as nat, 8),
    {
        match method {
            0x00000006 => Ok(Pkt::WorldEntityBatch),
            0x00000015 => Ok(Pkt::WorldEnterSnapshot),
            0x0000002d => Ok(Pkt::WorldDeltaBatch),
            0x0000002e => Ok(Pkt::LocalDeltaBatch),
            0x00003003 => Ok(Pkt::BuffTick),
            0x00003005 => Ok(Pkt::BuffSnapshotBundle),
            _ => {
                let mut reason: String = String::from_str("Unknown opcode: 0x");
                append_hex(&mut reason, method as u64, 8);
                Err(AppError::Parse(reason))
            },
        }
    }
}

impl TryFrom<u32> for Pkt {
    type Error = AppError;

    /// The kind of message that a method number stands for.
    fn try_from(method: u32) -> (kind: Result<Pkt, AppError>)
        ensures
            kind is Ok <==> method_kind(method as int) is Some,
            kind matches Ok(k) ==> method_kind(method as int) == Some(k),
            kind matches Err(e) ==> e matches AppError::Parse(reason) && reason@
                == "Unknown opcode: 0x"@ + hex_text(method as nat, 8),
    {
        Pkt::from_method(method)
    }
}

impl vstd::std_specs::convert::TryFromSpecImpl<u32> for Pkt {
    /// The text of an error is told by its content, not by the value that holds it.
    open spec fn obeys_try_from_spec() -> bool {
        false
    }

    open spec fn try_from_spec(method: u32) -> Result<Pkt, AppError> {
        match method_kind(method as int) {
            Some(kind) => Ok(kind),
            None => Err(AppError::Parse(arbitrary())),
        }
    }
}

/// The kinds of frames.
#[non_exhaustive]
#[derive(Debug, Clone, Copy, PartialEq, Eq, Structural)]
pub enum FragmentType {
    Undefined,
    Call,
    Notify,
    Return,
    Echo,
    FrameUp,
    FrameDown,
}

/// The kind of frame that a type number stands for.
pub open spec fn fragment_kind(ft: u16) -> FragmentType {
    if ft == 1 {
        FragmentType::Call
    } else if ft == 2 {
        FragmentType::Notify
    } else if ft == 3 {
        FragmentType::Return
    } else if ft == 4 {
        FragmentType::Echo
    } else if ft == 5 {
        FragmentType::FrameUp
    } else if ft == 6 {
        FragmentType::FrameDown
    } else {
        FragmentType::Undefined
    }
}

impl From<u16> for FragmentType {
    fn from(ft: u16) -> (kind: FragmentType) {
        match ft {
            1 => FragmentType::Call,
            2 => FragmentType::Notify,
            3 => FragmentType::Return,
            4 => FragmentType::Echo,
            5 => FragmentType::FrameUp,
            6 => FragmentType::FrameDown,
            _ => FragmentType::Undefined,
        }
    }
}

impl vstd::std_specs::convert::FromSpecImpl<u16> for FragmentType {
    open spec fn obeys_from_spec() -> bool {
        true
    }

    open spec fn from_spec(ft: u16) -> FragmentType {
        fragment_kind(ft)
    }
}

/// The method number of a kind of message; a kind that no method stands for has none.
pub open spec fn method_of(kind: Pkt) -> Option<int> {
    match kind {
        Pkt::WorldEntityBatch => Some(6int),
        Pkt::WorldEnterSnapshot => Some(21int),
        Pkt::WorldDeltaBatch => Some(45int),
        Pkt::LocalDeltaBatch => Some(46int),
        Pkt::BuffTick => Some(12291int),
        Pkt::BuffSnapshotBundle => Some(12293int),
        Pkt::ServerHandover => None,
        Pkt::SocialEnvelope => None,
    }
}

/// A number stands for a kind of message exactly where it is the number of that kind.
pub proof fn law_methods_round_trip(method: int, kind: Pkt)
    ensures
        method_kind(method) == Some(kind) <==> method_of(kind) == Some(method),
{
}

/// Different numbers stand for different kinds, and each kind comes from its own number only.
pub proof fn law_method_numbers(method: int, other: int)
    ensures
        method_kind(method) is Some && method_kind(method) == method_kind(other) ==> method
            == other,
        method_kind(method) == Some(Pkt::WorldEntityBatch) <==> method == 0x06,
        method_kind(method) == Some(Pkt::WorldEnterSnapshot) <==> method == 0x15,
        method_kind(method) == Some(Pkt::WorldDeltaBatch) <==> method == 0x2d,
        method_kind(method) == Some(Pkt::LocalDeltaBatch) <==> method == 0x2e,
        method_kind(method) == Some(Pkt::BuffTick) <==> method == 0x3003,
        method_kind(method) == Some(Pkt::BuffSnapshotBundle) <==> method == 0x3005,
        method_kind(method) != Some(Pkt::ServerHandover),
        method_kind(method) != Some(Pkt::SocialEnvelope),
{
}

/// Each kind of frame has its own type number, 1 to 6; all other numbers are undefined.
pub proof fn law_frame_numbers(ft: u16, other: u16)
    ensures
        fragment_kind(ft) == fragment_kind(other) && fragment_kind(ft) != FragmentType::Undefined
            ==> ft == other,
        fragment_kind(ft) == FragmentType::Call <==> ft == 1,
        fragment_kind(ft) == FragmentType::Notify <==> ft == 2,
        fragment_kind(ft) == FragmentType::Return <==> ft == 3,
        fragment_kind(ft) == FragmentType::Echo <==> ft == 4,
        fragment_kind(ft) == FragmentType::FrameUp <==> ft == 5,
        fragment_kind(ft) == FragmentType::FrameDown <==> ft == 6,
{
}

} // verus!
