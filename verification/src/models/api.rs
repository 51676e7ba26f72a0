//! What requests carry.

use crate::models::primitives::Address;
use vstd::prelude::*;
use vstd::string::StringExecFns;

verus! {

/// Whether the node checks the miner's signature and the difficulty of a
/// block (`Full`) or takes every block (`Test`).
#[derive(Copy, Clone, Debug, PartialEq, Eq, Structural)]
pub enum NodeMode {
    Full,
    Test,
}

impl Default for NodeMode {
    fn default() -> (mode: Self)
        ensures
            mode == NodeMode::Full,
    {
        NodeMode::Full
    }
}

impl NodeMode {
    /// The name of the mode.
    pub open spec fn text(self) -> Seq<char> {
        match self {
            NodeMode::Full => "full"@,
            NodeMode::Test => "test"@,
        }
    }

    /// The name of the mode.
    pub fn as_str(&self) -> (name: &'static str)
        ensures
            name@ == self.text(),
    {
        match self {
            NodeMode::Full => "full",
            NodeMode::Test => "test",
        }
    }

    /// The mode with the given name, which must be `full` or `test`.
    pub fn from(s: String) -> (mode: Self)
        requires
            s@ == "full"@ || s@ == "test"@,
        ensures
            mode.text() == s@,
    {
        match NodeMode::parse(s.as_str()) {
            Some(mode) => mode,
            None => vstd::pervasive::unreached(),
        }
    }

    /// The mode with the given name, if it is the name of one.
    pub fn parse(s: &str) -> (parsed: Option<Self>)
        ensures
            match parsed {
                Some(mode) => mode.text() == s@,
                None => s@ != "full"@ && s@ != "test"@,
            },
    {
        let name = String::from_str(s);
        if name == String::from_str("full") {
            Some(NodeMode::Full)
        } else if name == String::from_str("test") {
            Some(NodeMode::Test)
        } else {
            None
        }
    }
}

/// A transfer to take into the mempool. The signature is hexadecimal text.
#[derive(Clone, Debug)]
pub struct ApiTransfer {
    pub from: Address,
    pub to: Address,
    pub amount: u128,
    pub nonce: u128,
    pub signature: String,
}

/// A miner's claim of the next block. The signature is hexadecimal text.
#[derive(Clone, Debug)]
pub struct MineInfo {
    pub miner: Address,
    pub block_nonce: u64,
    pub nonce: u64,
    pub signature: String,
}

/// A balance to set for an account.
#[derive(Clone, Debug)]
pub struct ApiMint {
    pub to: Address,
    pub amount: i128,
}

/// A message to sign with a private key, which is hexadecimal text.
#[derive(Clone, Debug)]
pub struct ApiGenerateSig {
    pub message: String,
    pub private_key: String,
}

/// A signature to check over a message. The signature and the public key are
/// hexadecimal text.
#[derive(Clone, Debug)]
pub struct ApiVerifySig {
    pub message: String,
    pub signature: String,
    pub public_key: String,
}

/// An inclusion proof to check for a transaction hash. The hash and each node
/// of the proof are hexadecimal text.
#[derive(Clone, Debug)]
pub struct ApiVerifyProof {
    pub tx_hash: String,
    pub proof: Vec<String>,
}

} // verus!
