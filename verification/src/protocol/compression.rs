//! Compressed content.

use vstd::prelude::*;

verus! {

/// What the Zstandard frames in `bytes` hold, or `None` where they are not valid.
pub uninterp spec fn zstd_content(bytes: Seq<u8>) -> Option<Seq<u8>>;

/// Decompresses Zstandard frames with `zstd::decode_all`.
///
/// Trusted: the outcome of `zstd::decode_all` on bytes in memory is a function of these bytes alone:
/// their content, or an error.
#[verifier::external_body]
pub(crate) fn zstd_decode(bytes: &[u8]) -> (content: Option<Vec<u8>>)
    ensures
        content matches Some(v) ==> zstd_content(bytes@) == Some(v@),
        content is None ==> zstd_content(bytes@) is None,
{
    zstd::decode_all(bytes).ok()
}

} // verus!
