//! The two composite digests used throughout: double SHA-256 and
//! SHA-256 followed by RIPEMD-160.

use sha2::Digest;
use vstd::prelude::*;

verus! {

/// The SHA-256 digest of `data`, as computed by the `sha2` crate.
pub uninterp spec fn sha256_digest(data: Seq<u8>) -> Seq<u8>;

/// The RIPEMD-160 digest of `data`, as computed by the `ripemd` crate.
pub uninterp spec fn ripemd160_digest(data: Seq<u8>) -> Seq<u8>;

/// Double SHA-256: the digest of the digest.
pub open spec fn double_hash_spec(data: Seq<u8>) -> Seq<u8> {
    sha256_digest(sha256_digest(data))
}

/// RIPEMD-160 of the SHA-256 digest.
pub open spec fn hash160_spec(data: Seq<u8>) -> Seq<u8> {
    ripemd160_digest(sha256_digest(data))
}

/// Calls `sha2::Sha256::digest`. Trusted: the returned 32 bytes are the
/// SHA-256 digest of `data`, a function of the input bytes alone.
#[verifier::external_body]
pub(crate) fn sha256(data: &[u8]) -> (digest: [u8; 32])
    ensures
        digest@ == sha256_digest(data@),
{
    sha2::Sha256::digest(data).into()
}

/// Calls `ripemd::Ripemd160::digest`. Trusted: the returned 20 bytes are
/// the RIPEMD-160 digest of `data`, a function of the input bytes alone.
#[verifier::external_body]
pub(crate) fn ripemd160(data: &[u8]) -> (digest: [u8; 20])
    ensures
        digest@ == ripemd160_digest(data@),
{
    ripemd::Ripemd160::digest(data).into()
}

/// Hashes `data` twice with SHA-256.
pub fn double_hash(data: &[u8]) -> (digest: [u8; 32])
    ensures
        digest@ == double_hash_spec(data@),
{
    let first = sha256(data);
    sha256(first.as_slice())
}

/// Hashes `data` with SHA-256, then the result with RIPEMD-160.
pub fn hash160(data: &[u8]) -> (digest: [u8; 20])
    ensures
        digest@ == hash160_spec(data@),
{
    let first = sha256(data);
    ripemd160(first.as_slice())
}

} // verus!
