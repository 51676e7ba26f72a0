//! Requests for trying a node out: the mode of the node, and signing and
//! checking by hand.

use crate::backend::NodeData;
use crate::crypto::sig::{
    generate_pub_key, public_key_of, secret_key_in_range, sign_message, sign_outcome,
    verify_outcome, verify_signature,
};
use crate::encoding::{hex_bytes, hex_decode, hex_text, is_hex_text};
use crate::models::api::{ApiGenerateSig, ApiVerifyProof, ApiVerifySig, NodeMode};
use crate::models::config::Config;
use crate::models::error::{failure, CryptoError, ErrorView, MerkleTreeError, ServerError};
use crate::models::merkle_tree::{proof_accepts, proof_from_bytes, MerkleProof};
use crate::models::primitives::{Address, Signature, H256};
use vstd::prelude::*;
use vstd::utf8::encode_utf8;

verus! {

/// The mode of the node.
pub fn get_mode(node_data: &NodeData) -> (mode: Result<NodeMode, ServerError>)
    ensures
        mode == Ok::<NodeMode, ServerError>(node_data.config.node_mode),
{
    Ok(node_data.config.node_mode)
}

/// Sets the mode of the node, and answers with the new mode.
pub fn set_mode(node_data: &mut NodeData, mode: NodeMode) -> (set: Result<NodeMode, ServerError>)
    requires
        old(node_data).valid(),
    ensures
        final(node_data).valid(),
        final(node_data).ledger == old(node_data).ledger,
        final(node_data).config == (Config { node_mode: mode, ..old(node_data).config }),
        set == Ok::<NodeMode, ServerError>(mode),
{
    node_data.config.node_mode = mode;
    Ok(mode)
}

/// What a request to sign a message is answered: the hexadecimal text of the
/// signature of the bytes of the message, which must be 32, under the private
/// key. A private key that is not 64 hexadecimal digits is refused with
/// status 400, and so is what the signature service refuses.
pub open spec fn signing_answer(info: ApiGenerateSig) -> Result<Seq<char>, ErrorView> {
    if !(is_hex_text(info.private_key@) && info.private_key@.len() == 64) {
        Err(failure(400, "Invalid private key"@))
    } else {
        match sign_outcome(hex_bytes(info.private_key@), encode_utf8(info.message@)) {
            Ok(signature) => Ok(hex_text(signature)),
            Err(e) => Err(failure(400, "Crypto error: "@ + e.name_text())),
        }
    }
}

/// Signs the bytes of a message with a private key. See [`signing_answer`].
pub fn generate_sig(signature_info: &ApiGenerateSig) -> (signed: Result<String, ServerError>)
    ensures
        match signing_answer(*signature_info) {
            Ok(text) => signed matches Ok(signature) && signature@ == text,
            Err(refusal) => signed matches Err(e) && e@ == refusal,
        },
{
    let key = match H256::parse_hex(signature_info.private_key.as_str()) {
        Some(key) => key,
        None => {
            return Err(ServerError::with_text(400, "Invalid private key"));
        },
    };
    match sign_message(&key, signature_info.message.as_str().as_bytes()) {
        Ok(signature) => Ok(signature.as_hex_string()),
        Err(e) => Err(ServerError::from(e)),
    }
}

/// What a request to check a signature is answered: whether the signature is
/// valid for the bytes of the message under the public key. A public key that
/// is not 66 hexadecimal digits and a signature that is not 128 are refused
/// with status 400, the key first.
pub open spec fn checking_answer(info: ApiVerifySig) -> Result<bool, ErrorView> {
    if !(is_hex_text(info.public_key@) && info.public_key@.len() == 66) {
        Err(failure(400, "Invalid public key"@))
    } else if !(is_hex_text(info.signature@) && info.signature@.len() == 128) {
        Err(failure(400, "Invalid signature"@))
    } else {
        Ok(
            verify_outcome(
                hex_bytes(info.public_key@),
                hex_bytes(info.signature@),
                encode_utf8(info.message@),
            ) is Ok,
        )
    }
}

/// Checks a signature over the bytes of a message. See [`checking_answer`].
pub fn verify_sig(verify_sig_info: &ApiVerifySig) -> (checked: Result<bool, ServerError>)
    ensures
        match checking_answer(*verify_sig_info) {
            Ok(valid) => checked == Ok::<bool, ServerError>(valid),
            Err(refusal) => checked matches Err(e) && e@ == refusal,
        },
{
    let public_key = match Address::parse_hex(verify_sig_info.public_key.as_str()) {
        Some(public_key) => public_key,
        None => {
            return Err(ServerError::with_text(400, "Invalid public key"));
        },
    };
    let signature = match Signature::parse_hex(verify_sig_info.signature.as_str()) {
        Some(signature) => signature,
        None => {
            return Err(ServerError::with_text(400, "Invalid signature"));
        },
    };
    let checked = verify_signature(
        &public_key,
        signature,
        verify_sig_info.message.as_str().as_bytes(),
    );
    Ok(checked.is_ok())
}

/// The hexadecimal text of the address of a private key. A private key that
/// is not 64 hexadecimal digits is refused with status 400, and so is one
/// that is zero or not below the order of the curve.
pub fn get_pub_key(private_key: &str) -> (derived: Result<String, ServerError>)
    ensures
        match derived {
            Ok(address) => is_hex_text(private_key@) && private_key@.len() == 64
                && secret_key_in_range(hex_bytes(private_key@)) && address@ == hex_text(
                public_key_of(hex_bytes(private_key@)),
            ),
            Err(e) => if !(is_hex_text(private_key@) && private_key@.len() == 64) {
                e@ == failure(400, "Invalid private key"@)
            } else {
                !secret_key_in_range(hex_bytes(private_key@)) && e@ == failure(
                    400,
                    "Crypto error: "@ + CryptoError::InvalidPrivateKey.name_text(),
                )
            },
        },
{
    let key = match H256::parse_hex(private_key) {
        Some(key) => key,
        None => {
            return Err(ServerError::with_text(400, "Invalid private key"));
        },
    };
    match generate_pub_key(&key) {
        Ok(address) => Ok(address.as_hex_string()),
        Err(e) => Err(ServerError::from(e)),
    }
}

/// Whether each text is the hexadecimal text of a serialized node.
pub open spec fn are_node_texts(texts: Seq<String>) -> bool {
    forall|i: int|
        0 <= i < texts.len() ==> is_hex_text((#[trigger] texts[i])@) && texts[i]@.len() == 66
}

/// What a request to check an inclusion proof is answered: whether the proof
/// is accepted for the hash. A hash that is not 64 hexadecimal digits and a
/// node that is not 66 are refused with status 400, the hash first, and so is
/// a node whose last byte is no side.
pub open spec fn proof_check_answer(info: ApiVerifyProof) -> Result<bool, ErrorView> {
    if !(is_hex_text(info.tx_hash@) && info.tx_hash@.len() == 64) {
        Err(failure(400, "Invalid hash"@))
    } else if !are_node_texts(info.proof@) {
        Err(failure(400, "Invalid proof"@))
    } else {
        match proof_from_bytes(info.proof@.map_values(|text: String| hex_bytes(text@))) {
            Ok(path) => Ok(proof_accepts(path, hex_bytes(info.tx_hash@))),
            Err(e) => Err(failure(400, "MerkleTreeError: "@ + e.name_text())),
        }
    }
}

/// Checks an inclusion proof for a transaction hash. See
/// [`proof_check_answer`].
pub fn verify_proof(proof_info: &ApiVerifyProof) -> (checked: Result<bool, ServerError>)
    ensures
        match proof_check_answer(*proof_info) {
            Ok(accepted) => checked == Ok::<bool, ServerError>(accepted),
            Err(refusal) => checked matches Err(e) && e@ == refusal,
        },
{
    let hash = match H256::parse_hex(proof_info.tx_hash.as_str()) {
        Some(hash) => hash,
        None => {
            return Err(ServerError::with_text(400, "Invalid hash"));
        },
    };
    let mut buffers: Vec<[u8; 33]> = Vec::new();
    let mut i: usize = 0;
    while i < proof_info.proof.len()
        invariant
            i <= proof_info.proof@.len(),
            buffers@.len() == i,
            is_hex_text(proof_info.tx_hash@) && proof_info.tx_hash@.len() == 64,
            forall|j: int|
                0 <= j < i ==> is_hex_text((#[trigger] proof_info.proof@[j])@)
                    && proof_info.proof@[j]@.len() == 66,
            forall|j: int| 0 <= j < i ==> (#[trigger] buffers@[j])@ == hex_bytes(proof_info.proof@[j]@),
        decreases proof_info.proof@.len() - i,
    {
        match hex_decode(proof_info.proof[i].as_str()) {
            Ok(bytes) => {
                if bytes.len() != 33 {
                    assert(proof_info.proof@[i as int]@.len() != 66);
                    return Err(ServerError::with_text(400, "Invalid proof"));
                }
                let mut buffer = [0u8; 33];
                let mut k: usize = 0;
                while k < 33
                    invariant
                        k <= 33,
                        bytes@.len() == 33,
                        forall|j: int| 0 <= j < k ==> buffer@[j] == bytes@[j],
                    decreases 33 - k,
                {
                    buffer[k] = bytes[k];
                    k += 1;
                }
                buffers.push(buffer);
            },
            Err(_) => {
                assert(!is_hex_text(proof_info.proof@[i as int]@));
                return Err(ServerError::with_text(400, "Invalid proof"));
            },
        }
        i += 1;
    }
    assert(buffers@.map_values(|bytes: [u8; 33]| bytes@) =~= proof_info.proof@.map_values(
        |text: String| hex_bytes(text@),
    ));
    match MerkleProof::from_bvtes(buffers) {
        Ok(path) => Ok(path.verify(hash)),
        Err(e) => Err(ServerError::from(e)),
    }
}

} // verus!
