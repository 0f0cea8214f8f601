//! The hash functions the protocol rests on.
use vstd::prelude::*;

verus! {

/// What SHA3-256 makes of a byte string.
pub uninterp spec fn sha3_256_array(data: Seq<u8>) -> [u8; 32];

/// What SHA3-384 makes of a byte string.
pub uninterp spec fn sha3_384_array(data: Seq<u8>) -> [u8; 48];

/// What unkeyed BLAKE2s with a 32-byte output makes of a byte string.
pub uninterp spec fn blake2s_256_array(data: Seq<u8>) -> [u8; 32];

/// The SHA3-256 digest of a byte string.
pub open spec fn sha3_256(data: Seq<u8>) -> Seq<u8> {
    sha3_256_array(data)@
}

/// The SHA3-384 digest of a byte string.
pub open spec fn sha3_384(data: Seq<u8>) -> Seq<u8> {
    sha3_384_array(data)@
}

/// The BLAKE2s-256 digest of a byte string.
pub open spec fn blake2s_256(data: Seq<u8>) -> Seq<u8> {
    blake2s_256_array(data)@
}

/// Calls `sha3::Sha3_256::digest`. The digest is a function of the data alone.
#[verifier::external_body]
pub(crate) fn sha3_256_digest(data: &[u8]) -> (digest: [u8; 32])
    ensures
        digest == sha3_256_array(data@),
{
    <sha3::Sha3_256 as sha3::Digest>::digest(data).into()
}

/// Calls `sha3::Sha3_384::digest`. The digest is a function of the data alone.
#[verifier::external_body]
pub(crate) fn sha3_384_digest(data: &[u8]) -> (digest: [u8; 48])
    ensures
        digest == sha3_384_array(data@),
{
    <sha3::Sha3_384 as sha3::Digest>::digest(data).into()
}

/// Calls `blake2::Blake2s256::digest`. The digest is a function of the data
/// alone.
#[verifier::external_body]
pub(crate) fn blake2s_256_digest(data: &[u8]) -> (digest: [u8; 32])
    ensures
        digest == blake2s_256_array(data@),
{
    <blake2::Blake2s256 as blake2::Digest>::digest(data).into()
}

/// SHA3-256 of arbitrary bytes, used to build status-list entries.
pub fn hash_any(data: &[u8]) -> (digest: [u8; 32])
    ensures
        digest@ == sha3_256(data@),
{
    sha3_256_digest(data)
}

} // verus!
