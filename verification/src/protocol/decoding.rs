//! Numbers and text in attributes.

use crate::error::{AppError, AppResult};
use vstd::prelude::*;
use vstd::string::*;
use vstd::utf8::{decode_utf8, valid_utf8};

verus! {

/// The number that `bytes` begins with: seven bits per byte, the lowest first, in all bytes but the
/// last with the high bit set. `group` counts the bytes before. A number has at most ten bytes and
/// 64 bits.
pub open spec fn varint(bytes: Seq<u8>, group: nat) -> Option<nat>
    decreases bytes.len(),
{
    if bytes.len() == 0 || group >= 10 {
        None
    } else if bytes[0] < 0x80 {
        if group == 9 && bytes[0] >= 2 {
            None
        } else {
            Some(bytes[0] as nat)
        }
    } else {
        match varint(bytes.drop_first(), group + 1) {
            Some(rest) => Some((bytes[0] - 0x80 + 0x80 * rest) as nat),
            None => None,
        }
    }
}

/// Reads a number with `prost::encoding::decode_varint`.
///
/// Trusted: `decode_varint` reads the LEB128 number at the beginning of the bytes, and fails where
/// there is none of at most ten bytes and 64 bits.
#[verifier::external_body]
fn decode_varint(bytes: &[u8]) -> (n: Option<u64>)
    ensures
        n matches Some(v) ==> varint(bytes@, 0) == Some(v as nat),
        n is None ==> varint(bytes@, 0) is None,
{
    let mut rest = bytes;
    prost::encoding::decode_varint(&mut rest).ok()
}

/// Bytes as text, with `String::from_utf8`.
///
/// Trusted: `String::from_utf8` gives the text that the bytes encode in UTF-8, and fails where they
/// encode none.
#[verifier::external_body]
fn text_from_utf8(bytes: Vec<u8>) -> (text: Option<String>)
    ensures
        text is Some <==> valid_utf8(bytes@),
        text matches Some(s) ==> s@ == decode_utf8(bytes@),
{
    String::from_utf8(bytes).ok()
}

/// The low 32 bits of a number, signed.
pub open spec fn low_i32(v: nat) -> i32 {
    let low = v % 0x1_0000_0000;
    if low < 0x8000_0000 {
        low as i32
    } else {
        (low - 0x1_0000_0000) as i32
    }
}

/// 64 bits, signed.
pub open spec fn low_i64(v: nat) -> i64 {
    let low = v % 0x1_0000_0000_0000_0000;
    if low < 0x8000_0000_0000_0000 {
        low as i64
    } else {
        (low - 0x1_0000_0000_0000_0000) as i64
    }
}

/// The 32-bit number that the bytes begin with.
pub open spec fn int32_in(bytes: Seq<u8>) -> Option<i32> {
    match varint(bytes, 0) {
        Some(v) => Some(low_i32(v)),
        None => None,
    }
}

/// The 64-bit number that the bytes begin with.
pub open spec fn int64_in(bytes: Seq<u8>) -> Option<i64> {
    match varint(bytes, 0) {
        Some(v) => Some(low_i64(v)),
        None => None,
    }
}

/// The 32-bit number that the bytes begin with.
pub fn decode_protobuf_int32(data: &[u8]) -> (n: AppResult<i32>)
    ensures
        n is Ok <==> int32_in(data@) is Some,
        n matches Ok(v) ==> int32_in(data@) == Some(v),
        n matches Err(e) ==> e matches AppError::Parse(reason) && reason@ == (if data@.len() == 0 {
            "Empty data for protobuf int32"@
        } else {
            "decode_varint i32: failed to decode Protobuf message: invalid varint"@
        }),
{
    if data.len() == 0 {
        return Err(AppError::Parse(String::from_str("Empty data for protobuf int32")));
    }
    match decode_varint(data) {
        Some(v) => {
            let low: u64 = v % 0x1_0000_0000;
            Ok(
                if low < 0x8000_0000 {
                    low as i32
                } else {
                    (low as i64 - 0x1_0000_0000) as i32
                },
            )
        },
        None => Err(
            AppError::Parse(
                String::from_str(
                    "decode_varint i32: failed to decode Protobuf message: invalid varint",
                ),
            ),
        ),
    }
}

/// The 64-bit number that the bytes begin with.
pub fn decode_protobuf_int64(data: &[u8]) -> (n: AppResult<i64>)
    ensures
        n is Ok <==> int64_in(data@) is Some,
        n matches Ok(v) ==> int64_in(data@) == Some(v),
        n matches Err(e) ==> e matches AppError::Parse(reason) && reason@ == (if data@.len() == 0 {
            "Empty data for protobuf int64"@
        } else {
            "decode_varint i64: failed to decode Protobuf message: invalid varint"@
        }),
{
    if data.len() == 0 {
        return Err(AppError::Parse(String::from_str("Empty data for protobuf int64")));
    }
    match decode_varint(data) {
        Some(v) => Ok(
            if v < 0x8000_0000_0000_0000 {
                v as i64
            } else {
                (v as i128 - 0x1_0000_0000_0000_0000) as i64
            },
        ),
        None => Err(
            AppError::Parse(
                String::from_str(
                    "decode_varint i64: failed to decode Protobuf message: invalid varint",
                ),
            ),
        ),
    }
}

/// Bytes as text.
pub fn decode_text(bytes: Vec<u8>) -> (text: AppResult<String>)
    ensures
        text is Ok <==> valid_utf8(bytes@),
        text matches Ok(s) ==> s@ == decode_utf8(bytes@),
        text matches Err(e) ==> e matches AppError::Parse(reason) && reason@ == "invalid UTF-8"@,
{
    match text_from_utf8(bytes) {
        Some(s) => Ok(s),
        None => Err(AppError::Parse(String::from_str("invalid UTF-8"))),
    }
}

} // verus!
