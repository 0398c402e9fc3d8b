//! The 256-bit digest that proofs and commitment hashes are built on.

use sha3::{Digest, Sha3_256};
use vstd::prelude::*;

verus! {

/// Width of a digest in bytes.
pub const DIGEST_LEN: usize = 32;

// The SHA3-256 digest of `data` as the `sha3` crate computes it. The value
// depends on the bytes of `data` alone.
pub uninterp spec fn spec_sha3_256(data: Seq<u8>) -> Seq<u8>;

/// Calls `Sha3_256::digest` of the `sha3` crate, which absorbs `data` into a
/// fresh hasher and finalizes it. The contract names the result
/// `spec_sha3_256(data)` and adds the one fact that the crate fixes for this
/// hasher: its output is 32 bytes wide.
#[verifier::external_body]
pub(crate) fn sha3_256(data: &[u8]) -> (digest: Vec<u8>)
    ensures
        digest@ == spec_sha3_256(data@),
        digest@.len() == DIGEST_LEN,
{
    Sha3_256::digest(data).to_vec()
}

} // verus!
