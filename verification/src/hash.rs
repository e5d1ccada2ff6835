//! The hashing primitive: double SHA-256 over a little-endian
//! serialization, the digest used for block identity and merkle nodes.
use vstd::prelude::*;
use crate::LittleEndianSerialization;

verus! {

/// The SHA-256 digest of a byte sequence. The digest itself is far too
/// involved to state here; it is pinned down only as a function of the
/// input bytes, which is all the callers' contracts need.
pub uninterp spec fn sha256_of(bytes: Seq<u8>) -> Seq<u8>;

/// Relies on hmac_sha256::Hash::hash: the SHA-256 digest of the input,
/// 32 bytes, a function of the input bytes alone.
#[verifier::external_body]
pub(crate) fn sha256(bytes: &[u8]) -> (r: [u8; 32])
    ensures
        r@ == sha256_of(bytes@),
        r@.len() == 32,
{
    hmac_sha256::Hash::hash(bytes)
}

/// The double SHA-256 digest of a byte sequence: SHA-256 applied to the
/// SHA-256 digest of the input.
pub open spec fn double_sha256_of(bytes: Seq<u8>) -> Seq<u8> {
    sha256_of(sha256_of(bytes))
}

/// Double-SHA-256 of a byte slice, wrapped as a `Hash`.
pub fn double_sha256_bytes(bytes: &[u8]) -> (r: crate::Hash)
    ensures
        r@ == double_sha256_of(bytes@),
        r@.len() == 32,
{
    let first = sha256(bytes);
    let second = sha256(first.as_slice());
    crate::Hash::from_bytes(second)
}

/// Double-SHA-256 of an object's little-endian serialization.
pub fn double_sha256<T: LittleEndianSerialization>(obj: &T) -> (r: crate::Hash)
    ensures
        r@ == double_sha256_of(T::spec_serialized(obj@)),
        r@.len() == 32,
{
    let mut bytes: Vec<u8> = Vec::new();
    obj.serialize_le(&mut bytes);
    double_sha256_bytes(bytes.as_slice())
}

} // verus!
