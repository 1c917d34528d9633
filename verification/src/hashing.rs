//! SHA-256 hashing of target-state buffers.
//!
//! Candidate hashes are the double SHA-256 of the canonical target-state
//! byte buffer with the submitted nonce spliced in. The digest itself is
//! computed by an outside implementation; its value is only named here, so
//! everything proved about scoring holds whatever bytes the digest has.

use vstd::prelude::*;
use sha2::Digest;

verus! {

/// The SHA-256 digest of a byte sequence. The digest depends on the input
/// bytes alone; its value is not stated here.
pub uninterp spec fn sha256_of(data: Seq<u8>) -> Seq<u8>;

/// The double SHA-256 digest used to score candidate solutions.
pub open spec fn double_sha256_of(data: Seq<u8>) -> Seq<u8> {
    sha256_of(sha256_of(data))
}

/// Relies on sha2::Sha256 (update then finalize): the 32-byte SHA-256
/// digest of the input, a function of the input bytes alone.
#[verifier::external_body]
pub(crate) fn sha256_digest_as_bytes(data: &[u8]) -> (r: [u8; 32])
    ensures
        r@ == sha256_of(data@),
{
    let mut hasher = sha2::Sha256::new();
    hasher.update(data);
    let result = hasher.finalize();
    let arr: [u8; 32] = result.into();
    arr
}

/// Computes the candidate hash of a target-state buffer: SHA-256 applied twice.
pub fn double_sha256(data: &[u8]) -> (r: [u8; 32])
    ensures
        r@ == double_sha256_of(data@),
{
    let first = sha256_digest_as_bytes(data);
    sha256_digest_as_bytes(first.as_slice())
}

/// Determinism: the candidate hash is a function of the spliced target-state
/// buffer alone, so recomputing it over the same bytes yields the same hash.
pub proof fn lemma_double_sha256_deterministic(a: Seq<u8>, b: Seq<u8>)
    requires
        a == b,
    ensures
        double_sha256_of(a) == double_sha256_of(b),
{
}

} // verus!
