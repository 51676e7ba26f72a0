//! The ledger's data model: blocks and transactions, and the texts that stand
//! for them when they are hashed and signed.

pub mod api;
pub mod config;
pub mod error;
pub mod merkle_tree;
pub mod primitives;

use crate::crypto::hash::{blake2s256, hash_message};
use crate::crypto::sig::{verify_outcome, verify_signature};
use crate::encoding::{decimal_string, decimal_text, hex_text};
use crate::models::error::CryptoError;
use crate::models::primitives::{zero_bytes, Address, Balance, Id, Signature, H256};
use vstd::prelude::*;
use vstd::string::StringExecFns;
use vstd::utf8::encode_utf8;

verus! {

/// The digest of a text: BLAKE2s-256 of its UTF-8 bytes.
pub open spec fn text_digest(text: Seq<char>) -> Seq<u8> {
    blake2s256(encode_utf8(text))
}

/// The text whose digest is the hash of a block. A missing nonce is written
/// as 0.
pub open spec fn block_text(id: Id, parent_hash: Seq<u8>, merkle_root: Seq<u8>, nonce: Option<u64>) -> Seq<
    char,
> {
    "Block id:"@ + decimal_text(id as nat) + " parent_hash:"@ + hex_text(parent_hash)
        + " merkle_root:"@ + hex_text(merkle_root) + " nonce:"@ + decimal_text(
        nonce.unwrap_or(0) as nat,
    )
}

/// The text whose digest a miner signs to claim a block. A missing nonce is
/// written as 0.
pub open spec fn mine_text(
    miner: Seq<u8>,
    parent_hash: Seq<u8>,
    merkle_root: Seq<u8>,
    nonce: Option<u64>,
) -> Seq<char> {
    "Mine block miner:"@ + hex_text(miner) + " parent_hash:"@ + hex_text(parent_hash)
        + " merkle_root:"@ + hex_text(merkle_root) + " nonce:"@ + decimal_text(
        nonce.unwrap_or(0) as nat,
    )
}

/// The text whose digest is the hash of a transfer.
pub open spec fn transfer_text(from: Seq<u8>, to: Seq<u8>, amount: Balance, nonce: u64) -> Seq<char> {
    "Transfer from:"@ + hex_text(from) + " to:"@ + hex_text(to) + " amount:"@ + decimal_text(
        amount as nat,
    ) + " nonce:"@ + decimal_text(nonce as nat)
}

/// A block: a Merkle root over a batch of transactions, bound to the hash of
/// the block before it.
#[derive(Copy, Clone, Debug)]
pub struct Block {
    pub id: u64,
    pub hash: Option<H256>,
    pub parent_hash: H256,
    pub merkle_root: H256,
    pub nonce: Option<u64>,
    pub produced_by: Option<Address>,
}

impl Default for Block {
    fn default() -> (block: Self)
        ensures
            block.id == 0,
            block.hash is None,
            block.parent_hash@ == zero_bytes(32),
            block.merkle_root@ == zero_bytes(32),
            block.nonce is None,
            block.produced_by is None,
    {
        Block {
            id: 0,
            hash: None,
            parent_hash: H256::zero(),
            merkle_root: H256::zero(),
            nonce: None,
            produced_by: None,
        }
    }
}

impl Block {
    /// The text whose digest is the block's hash.
    pub open spec fn hash_text(&self) -> Seq<char> {
        block_text(self.id, self.parent_hash@, self.merkle_root@, self.nonce)
    }

    /// The text whose digest the block's miner signs.
    pub open spec fn claim_text(&self) -> Seq<char>
        recommends
            self.produced_by is Some,
    {
        mine_text(self.produced_by.unwrap()@, self.parent_hash@, self.merkle_root@, self.nonce)
    }

    /// Checks the miner's signature over the block: the signed digest is that
    /// of the claim text, and the key is the miner's address.
    pub fn verify(&self, signature: Signature) -> (checked: Result<(), CryptoError>)
        requires
            self.produced_by is Some,
        ensures
            checked == verify_outcome(
                self.produced_by.unwrap()@,
                signature@,
                text_digest(self.claim_text()),
            ),
    {
        let miner = match self.produced_by {
            Some(miner) => miner,
            None => vstd::pervasive::unreached(),
        };
        let mut message = String::from_str("Mine block miner:");
        message.append(miner.as_hex_string().as_str());
        message.append(" parent_hash:");
        message.append(self.parent_hash.as_hex_string().as_str());
        message.append(" merkle_root:");
        message.append(self.merkle_root.as_hex_string().as_str());
        message.append(" nonce:");
        message.append(decimal_string(nonce_or_zero(self.nonce)).as_str());
        let digest = hash_message(message.as_str().as_bytes());
        verify_signature(&miner, signature, digest.as_bytes())
    }

    /// Computes the block's hash, the digest of its hash text, and stores it
    /// in the block.
    pub fn compute_hash(&mut self) -> (hash: H256)
        ensures
            hash@ == text_digest(old(self).hash_text()),
            final(self).hash == Some(hash),
            final(self).id == old(self).id,
            final(self).parent_hash == old(self).parent_hash,
            final(self).merkle_root == old(self).merkle_root,
            final(self).nonce == old(self).nonce,
            final(self).produced_by == old(self).produced_by,
    {
        let mut message = String::from_str("Block id:");
        message.append(decimal_string(self.id as u128).as_str());
        message.append(" parent_hash:");
        message.append(self.parent_hash.as_hex_string().as_str());
        message.append(" merkle_root:");
        message.append(self.merkle_root.as_hex_string().as_str());
        message.append(" nonce:");
        message.append(decimal_string(nonce_or_zero(self.nonce)).as_str());
        let hash = hash_message(message.as_str().as_bytes());
        self.hash = Some(hash);
        hash
    }
}

fn nonce_or_zero(nonce: Option<u64>) -> (n: u128)
    ensures
        n == nonce.unwrap_or(0),
{
    match nonce {
        Some(n) => n as u128,
        None => 0,
    }
}

/// Whether a transaction still waits in the mempool or stands in a block.
#[derive(Copy, Clone, Debug, PartialEq, Eq, Structural)]
pub enum TransactionStatus {
    Pending,
    Confirmed,
}

impl Default for TransactionStatus {
    fn default() -> (status: Self)
        ensures
            status == TransactionStatus::Pending,
    {
        TransactionStatus::Pending
    }
}

impl TransactionStatus {
    /// The stored name of the status.
    pub open spec fn text(self) -> Seq<char> {
        match self {
            TransactionStatus::Pending => "pending"@,
            TransactionStatus::Confirmed => "confirmed"@,
        }
    }

    /// The stored name of the status.
    pub fn as_str(&self) -> (name: &'static str)
        ensures
            name@ == self.text(),
    {
        match self {
            TransactionStatus::Pending => "pending",
            TransactionStatus::Confirmed => "confirmed",
        }
    }

    /// The status with the given stored name, which must be one of the two.
    pub fn from(s: &str) -> (status: Self)
        requires
            s@ == "pending"@ || s@ == "confirmed"@,
        ensures
            status.text() == s@,
    {
        match TransactionStatus::parse(s) {
            Some(status) => status,
            None => vstd::pervasive::unreached(),
        }
    }

    /// The status with the given stored name, if it is the name of one.
    pub fn parse(s: &str) -> (parsed: Option<Self>)
        ensures
            match parsed {
                Some(status) => status.text() == s@,
                None => s@ != "pending"@ && s@ != "confirmed"@,
            },
    {
        let name = String::from_str(s);
        if name == String::from_str("pending") {
            Some(TransactionStatus::Pending)
        } else if name == String::from_str("confirmed") {
            Some(TransactionStatus::Confirmed)
        } else {
            None
        }
    }
}

/// A transfer of `amount` from one account to another.
#[derive(Copy, Clone, Debug)]
pub struct Transaction {
    pub hash: H256,
    pub from: Address,
    pub to: Address,
    pub amount: Balance,
    pub block_id: Option<Id>,
    pub nonce: u64,
    pub status: TransactionStatus,
}

impl Default for Transaction {
    fn default() -> (tx: Self)
        ensures
            tx.hash@ == zero_bytes(32),
            tx.from@ == zero_bytes(33),
            tx.to@ == zero_bytes(33),
            tx.amount == 0,
            tx.block_id is None,
            tx.nonce == 0,
            tx.status == TransactionStatus::Pending,
    {
        Transaction {
            hash: H256::zero(),
            from: Address::default(),
            to: Address::default(),
            amount: 0,
            block_id: None,
            nonce: 0,
            status: TransactionStatus::Pending,
        }
    }
}

impl Transaction {
    /// The text whose digest is the transaction's hash. It holds the sender,
    /// the receiver, the amount and the sender's nonce, and nothing else.
    pub open spec fn hash_text(&self) -> Seq<char> {
        transfer_text(self.from@, self.to@, self.amount, self.nonce)
    }

    /// Checks the sender's signature over the transaction: the signed digest
    /// is the transaction's computed hash, and the key is the sender's
    /// address.
    pub fn verify_signature(&self, signature: Signature) -> (checked: Result<(), CryptoError>)
        ensures
            checked == verify_outcome(self.from@, signature@, text_digest(self.hash_text())),
    {
        let digest = self.hash();
        verify_signature(&self.from, signature, digest.as_bytes())
    }

    /// Computes the transaction's hash: the digest of its hash text.
    pub fn hash(&self) -> (hash: H256)
        ensures
            hash@ == text_digest(self.hash_text()),
    {
        let mut message = String::from_str("Transfer from:");
        message.append(self.from.as_hex_string().as_str());
        message.append(" to:");
        message.append(self.to.as_hex_string().as_str());
        message.append(" amount:");
        message.append(decimal_string(self.amount).as_str());
        message.append(" nonce:");
        message.append(decimal_string(self.nonce as u128).as_str());
        hash_message(message.as_str().as_bytes())
    }
}

} // verus!
