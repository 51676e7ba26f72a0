//! A single-node, account-based ledger with proof-of-work block production and
//! Merkle-authenticated inclusion proofs.
//!
//! Signed transfers wait in a mempool. A miner claims the next block, which
//! packs the oldest pending transfers under the root of a Merkle tree; a full
//! node takes the block only with the miner's signature and a hash that starts
//! with enough zero bytes. The block is stored together with its tree, and the
//! node serves an inclusion proof for every confirmed transfer.
//!
//! - [`models`] holds the values: hashes, addresses and signatures, blocks and
//!   transactions, the Merkle engine, the errors and the settings.
//! - [`crypto`] hashes with BLAKE2s-256 and signs with ECDSA over secp256k1.
//! - [`encoding`] writes and reads hexadecimal and decimal text.
//! - [`db`] is the state of the ledger, four tables of rows, with the
//!   operations of the account, transaction, block and Merkle node stores.
//! - [`backend`] is what a node does for each request.
//!
//! Hashing, signing and hexadecimal text are the work of other libraries, and
//! the time is read off the machine's clock. Each such call stands in a small
//! private function whose contract is believed and not proved; its comment
//! names the function that it calls. Everything else is proved from these
//! contracts.

pub mod backend;
pub mod crypto;
pub mod db;
pub mod encoding;
pub mod models;
