//! The content digest.

use vstd::prelude::*;

verus! {

/// The BLAKE3 digest of a byte string.
pub uninterp spec fn blake3_hash(input: Seq<u8>) -> [u8; 32];

/// `blake3::hash`: the digest of `input`, which is a function of its bytes alone.
#[verifier::external_body]
pub(crate) fn blake3_digest(input: &[u8]) -> (digest: [u8; 32])
    ensures
        digest == blake3_hash(input@),
{
    *blake3::hash(input).as_bytes()
}

} // verus!
