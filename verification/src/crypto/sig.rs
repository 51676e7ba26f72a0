//! ECDSA over secp256k1: signing a 32-byte digest, checking a signature and
//! deriving the public key of a private key.

use crate::models::error::CryptoError;
use crate::models::primitives::{Address, Signature, H256};
use vstd::prelude::*;

verus! {

/// The number that `bytes` writes, most significant byte first.
pub open spec fn be_value(bytes: Seq<u8>) -> nat
    decreases bytes.len(),
{
    if bytes.len() == 0 {
        0
    } else {
        256 * be_value(bytes.drop_last()) + bytes.last() as nat
    }
}

/// The order of the group of the curve.
pub open spec fn curve_order() -> nat {
    0xffffffff_ffffffff_ffffffff_fffffffe_baaedce6_af48a03b_bfd25e8c_d0364141nat
}

/// Whether `key` is a private key: 32 bytes that write a number which is not
/// zero and is below the order of the curve.
pub open spec fn secret_key_in_range(key: Seq<u8>) -> bool {
    key.len() == 32 && 0 < be_value(key) < curve_order()
}

/// Whether `signature` is a compact signature: 64 bytes whose halves `r` and
/// `s` each write a number below the order of the curve.
pub open spec fn compact_signature_in_range(signature: Seq<u8>) -> bool {
    &&& signature.len() == 64
    &&& be_value(signature.subrange(0, 32)) < curve_order()
    &&& be_value(signature.subrange(32, 64)) < curve_order()
}

/// Whether `bytes` encode a point of the curve: whether
/// `secp256k1::PublicKey::from_slice` accepts them.
pub uninterp spec fn is_public_key(bytes: Seq<u8>) -> bool;

/// The compressed public key of the private key `secret`: what
/// `secp256k1::PublicKey::from_secret_key` computes, serialized.
pub uninterp spec fn public_key_of(secret: Seq<u8>) -> Seq<u8>;

/// The compact signature of `digest` under the private key `secret`, with the
/// nonce that RFC 6979 derives from the two: what `Secp256k1::sign_ecdsa`
/// computes, serialized.
pub uninterp spec fn ecdsa_signature(secret: Seq<u8>, digest: Seq<u8>) -> Seq<u8>;

/// Whether `public_key` encodes a point of the curve under which `signature`
/// is a valid signature of `digest`: whether `Secp256k1::verify_ecdsa`
/// accepts.
pub uninterp spec fn ecdsa_accepts(public_key: Seq<u8>, signature: Seq<u8>, digest: Seq<u8>) -> bool;

/// `secp256k1::SecretKey::from_slice`: accepts exactly the 32-byte strings
/// that write a number from 1 to the curve's order less one.
#[verifier::external_body]
fn secret_key_parses(key: &[u8]) -> (ok: bool)
    ensures
        ok == secret_key_in_range(key@),
{
    secp256k1::SecretKey::from_slice(key).is_ok()
}

/// `secp256k1::PublicKey::from_slice`: whether it accepts `bytes` depends on
/// `bytes` alone.
#[verifier::external_body]
fn public_key_parses(bytes: &[u8]) -> (ok: bool)
    ensures
        ok == is_public_key(bytes@),
{
    secp256k1::PublicKey::from_slice(bytes).is_ok()
}

/// `secp256k1::ecdsa::Signature::from_compact`: accepts exactly the 64-byte
/// strings whose two halves each write a number below the curve's order.
#[verifier::external_body]
fn compact_signature_parses(signature: &[u8]) -> (ok: bool)
    ensures
        ok == compact_signature_in_range(signature@),
{
    secp256k1::ecdsa::Signature::from_compact(signature).is_ok()
}

/// `Secp256k1::verify_ecdsa` on a key given as bytes: whether the bytes are a
/// public key under which the signature is valid for the digest. It depends
/// on the three alone.
#[verifier::external_body]
fn ecdsa_verify(public_key: &[u8], signature: &[u8], digest: &[u8]) -> (ok: bool)
    requires
        compact_signature_in_range(signature@),
        digest@.len() == 32,
    ensures
        ok == ecdsa_accepts(public_key@, signature@, digest@),
{
    let sig = secp256k1::ecdsa::Signature::from_compact(signature).unwrap();
    let message = secp256k1::Message::from_digest_slice(digest).unwrap();
    match secp256k1::PublicKey::from_slice(public_key) {
        Ok(key) => secp256k1::Secp256k1::new().verify_ecdsa(&message, &sig, &key).is_ok(),
        Err(_) => false,
    }
}

/// `Secp256k1::sign_ecdsa`: the signature depends on the key and the digest
/// alone, it is a compact signature, and `verify_ecdsa` accepts it under the
/// public key of the same private key.
#[verifier::external_body]
fn ecdsa_sign(secret: &[u8], digest: &[u8]) -> (signature: [u8; 64])
    requires
        secret_key_in_range(secret@),
        digest@.len() == 32,
    ensures
        signature@ == ecdsa_signature(secret@, digest@),
        compact_signature_in_range(signature@),
        ecdsa_accepts(public_key_of(secret@), signature@, digest@),
{
    let key = secp256k1::SecretKey::from_slice(secret).unwrap();
    let message = secp256k1::Message::from_digest_slice(digest).unwrap();
    secp256k1::Secp256k1::new().sign_ecdsa(&message, &key).serialize_compact()
}

/// `secp256k1::PublicKey::from_secret_key`, serialized: the 33 bytes depend on
/// the private key alone and encode a point of the curve.
#[verifier::external_body]
fn derive_public_key(secret: &[u8]) -> (public_key: [u8; 33])
    requires
        secret_key_in_range(secret@),
    ensures
        public_key@ == public_key_of(secret@),
        is_public_key(public_key@),
{
    let key = secp256k1::SecretKey::from_slice(secret).unwrap();
    secp256k1::PublicKey::from_secret_key(&secp256k1::Secp256k1::new(), &key).serialize()
}

/// What checking `signature` over `msg` under `public_key` answers: a
/// message that is no digest is refused first, then a signature that is out
/// of range; a signature that is not accepted is blamed on the key where the
/// key is no point of the curve.
pub open spec fn verify_outcome(public_key: Seq<u8>, signature: Seq<u8>, msg: Seq<u8>) -> Result<
    (),
    CryptoError,
> {
    if msg.len() != 32 {
        Err(CryptoError::InvalidMessage)
    } else if !compact_signature_in_range(signature) {
        Err(CryptoError::InvalidSignature)
    } else if ecdsa_accepts(public_key, signature, msg) {
        Ok(())
    } else if !is_public_key(public_key) {
        Err(CryptoError::InvalidPublicKey)
    } else {
        Err(CryptoError::InvalidSignature)
    }
}

/// What signing `msg` under `secret` answers. The message is looked at
/// first, then the key.
pub open spec fn sign_outcome(secret: Seq<u8>, msg: Seq<u8>) -> Result<Seq<u8>, CryptoError> {
    if msg.len() != 32 {
        Err(CryptoError::InvalidMessage)
    } else if !secret_key_in_range(secret) {
        Err(CryptoError::InvalidPrivateKey)
    } else {
        Ok(ecdsa_signature(secret, msg))
    }
}

/// Verifies the signature of a message digest.
pub fn verify_signature(pubkey: &Address, sig: Signature, msg: &[u8]) -> (checked: Result<
    (),
    CryptoError,
>)
    ensures
        checked == verify_outcome(pubkey@, sig@, msg@),
{
    if msg.len() != 32 {
        return Err(CryptoError::InvalidMessage);
    }
    if !compact_signature_parses(sig.as_slice()) {
        return Err(CryptoError::InvalidSignature);
    }
    if ecdsa_verify(pubkey.as_bytes(), sig.as_slice(), msg) {
        Ok(())
    } else if !public_key_parses(pubkey.as_bytes()) {
        Err(CryptoError::InvalidPublicKey)
    } else {
        Err(CryptoError::InvalidSignature)
    }
}

/// Signs a message digest with a private key.
///
/// A signature made here is accepted by [`verify_signature`] under the public
/// key that [`generate_pub_key`] derives from the same private key.
pub fn sign_message(private_key: &H256, msg: &[u8]) -> (signed: Result<Signature, CryptoError>)
    ensures
        match sign_outcome(private_key@, msg@) {
            Ok(bytes) => signed matches Ok(sig) && sig@ == bytes,
            Err(e) => signed == Err::<Signature, CryptoError>(e),
        },
        signed matches Ok(sig) ==> verify_outcome(public_key_of(private_key@), sig@, msg@) == Ok::<
            (),
            CryptoError,
        >(()),
{
    if msg.len() != 32 {
        return Err(CryptoError::InvalidMessage);
    }
    if !secret_key_parses(private_key.as_bytes()) {
        return Err(CryptoError::InvalidPrivateKey);
    }
    Ok(Signature::new(ecdsa_sign(private_key.as_bytes(), msg)))
}

/// Derives the address of a private key: its compressed public key.
pub fn generate_pub_key(private_key: &H256) -> (derived: Result<Address, CryptoError>)
    ensures
        secret_key_in_range(private_key@) ==> (derived matches Ok(address) && address@
            == public_key_of(private_key@) && is_public_key(address@)),
        !secret_key_in_range(private_key@) ==> derived == Err::<Address, CryptoError>(
            CryptoError::InvalidPrivateKey,
        ),
{
    if !secret_key_parses(private_key.as_bytes()) {
        return Err(CryptoError::InvalidPrivateKey);
    }
    let bytes = derive_public_key(private_key.as_bytes());
    Ok(Address::from_bytes(&bytes))
}

} // verus!
