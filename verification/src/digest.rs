//! The digest primitive: SHA-256.

use vstd::prelude::*;
use sha2::Digest;

verus! {

/// The number of bytes in a digest.
pub const DIGEST_LEN: usize = 32;

/// The SHA-256 digest of a sequence of bytes.
pub uninterp spec fn spec_sha256(data: Seq<u8>) -> Seq<u8>;

/// Calls `sha2::Sha256::digest` and copies its output into a vector.
///
/// Trusted, not proved: the output is SHA-256 of `data`, a function of the
/// input bytes alone, and it is 32 bytes long.
#[verifier::external_body]
pub(crate) fn sha256(data: &[u8]) -> (out: Vec<u8>)
    ensures
        out@ == spec_sha256(data@),
        out@.len() == DIGEST_LEN,
{
    sha2::Sha256::digest(data).to_vec()
}

} // verus!
