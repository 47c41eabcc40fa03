//! The BLAKE3 hash function, called through the `blake3` crate.

use vstd::prelude::*;

verus! {

/// The 32-byte BLAKE3 digest of `input`.
pub uninterp spec fn blake3_digest(input: Seq<u8>) -> Seq<u8>;

/// Calls `blake3::hash` and returns the bytes of the digest.
///
/// Trusted: the result is taken to be `blake3_digest` of the input, that is a
/// function of the input bytes alone, and to be 32 bytes long (`blake3::Hash`
/// holds a `[u8; OUT_LEN]` with `OUT_LEN == 32`).
#[verifier::external_body]
pub(crate) fn blake3_hash(input: &[u8]) -> (digest: Vec<u8>)
    ensures
        digest@ == blake3_digest(input@),
        digest@.len() == 32,
{
    blake3::hash(input).as_bytes().to_vec()
}

} // verus!
