//! The hash primitive: leaf hashing, internal-node hashing, and the
//! transport encoding of digests. Every digest is exactly 32 bytes.
use vstd::prelude::*;
use sha2::Digest;
use base64::Engine;

verus! {

/// A fixed-length 32-byte digest. Equality is byte-exact.
pub type Hash32Bytes = [u8; 32];

/// The digest of one leaf value: what the hash primitive returns for the
/// leaf's characters. A function of the characters alone.
pub uninterp spec fn leaf_hash_of(value: Seq<char>) -> Seq<u8>;

/// The digest of an internal node: the hash of the left child's bytes
/// followed by the right child's bytes, in that order. Order matters, so a
/// verifier can tell a left sibling from a right one.
pub uninterp spec fn node_hash_of(left: Seq<u8>, right: Seq<u8>) -> Seq<u8>;

/// The transport-stable text encoding of a digest's bytes.
pub uninterp spec fn base64_of(bytes: Seq<u8>) -> Seq<char>;

/// The reserved all-zero sentinel digest that pads level 0 up to a power of
/// two. By convention it never comes from the leaf-hash function.
pub open spec fn padding_digest() -> Seq<u8> {
    Seq::new(32, |i: int| 0u8)
}

/// Relies on sha2::Sha256: a 32-byte digest of the value's UTF-8 bytes,
/// a function of the value's characters alone.
#[verifier::external_body]
pub(crate) fn hash_leaf(value: &str) -> (digest: Hash32Bytes)
    ensures
        digest@ == leaf_hash_of(value@),
{
    let mut hasher = sha2::Sha256::new();
    hasher.update(value.as_bytes());
    hasher.finalize().into()
}

/// Relies on sha2::Sha256: a 32-byte digest of the left child's bytes
/// followed by the right child's bytes, a function of those bytes alone.
#[verifier::external_body]
pub(crate) fn hash_internal(left: Hash32Bytes, right: Hash32Bytes) -> (digest: Hash32Bytes)
    ensures
        digest@ == node_hash_of(left@, right@),
{
    let mut hasher = sha2::Sha256::new();
    hasher.update(&left);
    hasher.update(&right);
    hasher.finalize().into()
}

/// Relies on base64's standard-alphabet engine: the encoding is a function
/// of the digest's bytes alone.
#[verifier::external_body]
pub(crate) fn encode_hash(hash: Hash32Bytes) -> (text: String)
    ensures
        text@ == base64_of(hash@),
{
    base64::engine::general_purpose::STANDARD.encode(hash)
}

} // verus!
