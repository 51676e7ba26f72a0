//! BLAKE2s-256 over byte sequences.

use crate::models::primitives::H256;
use vstd::prelude::*;

verus! {

/// The BLAKE2s-256 digest of `data`: what `Digest::digest` of
/// `blake2::Blake2s256` computes. Nothing is stated of its value.
pub uninterp spec fn blake2s256(data: Seq<u8>) -> Seq<u8>;

/// The digest of two hashes side by side, the left one first.
pub open spec fn hash_pair(left: Seq<u8>, right: Seq<u8>) -> Seq<u8> {
    blake2s256(left + right)
}

/// `Digest::digest` of `blake2::Blake2s256`: the 32 bytes of the BLAKE2s-256
/// digest of `data`, which depend on `data` alone.
#[verifier::external_body]
fn blake2s256_digest(data: &[u8]) -> (digest: [u8; 32])
    ensures
        digest@ == blake2s256(data@),
{
    <blake2::Blake2s256 as blake2::Digest>::digest(data).into()
}

/// Hashes the concatenation of two hashes, `left` first.
pub fn hash_nodes(left: &H256, right: &H256) -> (h: H256)
    ensures
        h@ == hash_pair(left@, right@),
{
    let mut data = left.to_vec();
    let mut tail = right.to_vec();
    data.append(&mut tail);
    H256::new(blake2s256_digest(data.as_slice()))
}

/// Hashes a message.
pub fn hash_message(msg: &[u8]) -> (h: H256)
    ensures
        h@ == blake2s256(msg@),
{
    H256::new(blake2s256_digest(msg))
}

} // verus!
