//! How the server of the game is recognised.

use crate::capture::binary_reader::{be32, read_be32};
use crate::protocol::constants::{
    LOGIN_RETURN_SIGNATURE_1, LOGIN_RETURN_SIGNATURE_2, LOGIN_RETURN_SIGNATURE_SIZE,
    SERVER_SIGNATURE, SERVER_SIGNATURE_OFFSET,
};
use vstd::prelude::*;

verus! {

/// Whether one of the fragments of `rest` carries the signature of a scene server. A fragment
/// begins with its length, which counts the four bytes that hold it.
pub open spec fn fragment_signed(rest: Seq<u8>) -> bool
    decreases rest.len(),
{
    if rest.len() < 4 {
        false
    } else {
        let len = if be32(rest) < 4 {
            0
        } else {
            be32(rest) - 4
        };
        if rest.len() - 4 < len {
            false
        } else if len >= 11 && rest.subrange(9, 15) == SERVER_SIGNATURE@ {
            true
        } else {
            fragment_signed(rest.skip(4 + len))
        }
    }
}

/// Whether a payload comes from a scene server.
pub open spec fn is_scene_server(payload: Seq<u8>) -> bool {
    payload.len() >= 10 && payload[4] == 0 && fragment_signed(payload.skip(10))
}

/// Whether a payload is the answer to a login.
pub open spec fn is_login_return(payload: Seq<u8>) -> bool {
    payload.len() == LOGIN_RETURN_SIGNATURE_SIZE && payload.take(10) == LOGIN_RETURN_SIGNATURE_1@
        && payload.subrange(14, 20) == LOGIN_RETURN_SIGNATURE_2@
}

/// Whether `payload` holds `bytes` at `at`.
fn holds_at(payload: &[u8], at: usize, bytes: &[u8]) -> (b: bool)
    requires
        at + bytes@.len() <= payload@.len(),
    ensures
        b == (payload@.subrange(at as int, at + bytes@.len()) == bytes@),
{
    let ghost part = payload@.subrange(at as int, at + bytes@.len());
    let total: usize = payload.len();
    let mut i: usize = 0;
    while i < bytes.len()
        invariant
            i <= bytes@.len(),
            total == payload@.len(),
            at + bytes@.len() <= total,
            part == payload@.subrange(at as int, at + bytes@.len()),
            forall|j: int| 0 <= j < i ==> part[j] == bytes@[j],
        decreases bytes@.len() - i,
    {
        assert(part[i as int] == payload@[at + i]);
        if payload[at + i] != bytes[i] {
            return false;
        }
        i += 1;
    }
    assert(part =~= bytes@);
    true
}

/// Whether a payload comes from a scene server.
pub fn detect_scene_server(payload: &[u8]) -> (b: bool)
    ensures
        b == is_scene_server(payload@),
{
    let total: usize = payload.len();
    if total < 10 {
        return false;
    }
    if payload[4] != 0 {
        return false;
    }
    let mut at: usize = 10;
    loop
        invariant
            10 <= at <= total,
            total == payload@.len(),
            payload@[4] == 0,
            fragment_signed(payload@.skip(10)) == fragment_signed(payload@.skip(at as int)),
        decreases total - at,
    {
        let ghost rest = payload@.skip(at as int);
        if total - at < 4 {
            return false;
        }
        let word: u32 = read_be32(payload, at);
        let len: usize = if word < 4 {
            0
        } else {
            (word - 4) as usize
        };
        if total - at - 4 < len {
            return false;
        }
        if len >= 11 {
            let signature: [u8; 6] = SERVER_SIGNATURE;
            assert(rest.subrange(9, 15) =~= payload@.subrange(at + 9, at + 15));
            if holds_at(payload, at + 4 + SERVER_SIGNATURE_OFFSET, signature.as_slice()) {
                return true;
            }
        }
        assert(rest.skip(4 + len) =~= payload@.skip(at + 4 + len));
        at = at + 4 + len;
    }
}

/// Whether a payload is the answer to a login.
pub fn detect_login_return(payload: &[u8]) -> (b: bool)
    ensures
        b == is_login_return(payload@),
{
    if payload.len() != LOGIN_RETURN_SIGNATURE_SIZE {
        return false;
    }
    let first: [u8; 10] = LOGIN_RETURN_SIGNATURE_1;
    let second: [u8; 6] = LOGIN_RETURN_SIGNATURE_2;
    assert(payload@.take(10) =~= payload@.subrange(0, 10));
    holds_at(payload, 0, first.as_slice()) && holds_at(payload, 14, second.as_slice())
}

} // verus!
