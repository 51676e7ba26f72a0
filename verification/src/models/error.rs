//! The errors of the Merkle engine, of the signature service and of a request.

use vstd::prelude::*;
use vstd::string::StringExecFns;

verus! {

/// What the Merkle engine can refuse.
#[derive(Copy, Clone, Debug, PartialEq, Eq, Structural)]
pub enum MerkleTreeError {
    /// No nodes were given.
    EmptyTree,
    /// The tree has not been given its leaves yet.
    MerkleTreeNotInitialized,
    /// More leaves were given than the tree has room for.
    LeavesAmountGreaterThanTreeSize,
    /// Stored bytes or nodes do not form a node or a tree.
    DeserializingError,
}

/// What the signature service can refuse.
#[derive(Copy, Clone, Debug, PartialEq, Eq, Structural)]
pub enum CryptoError {
    /// The signature does not fit the key and the message.
    InvalidSignature,
    /// The address is not a public key.
    InvalidPublicKey,
    /// The private key is zero or not below the order of the curve.
    InvalidPrivateKey,
    /// The message is not a 32-byte digest.
    InvalidMessage,
}

impl MerkleTreeError {
    /// The name of the variant.
    pub open spec fn name_text(self) -> Seq<char> {
        match self {
            MerkleTreeError::EmptyTree => "EmptyTree"@,
            MerkleTreeError::MerkleTreeNotInitialized => "MerkleTreeNotInitialized"@,
            MerkleTreeError::LeavesAmountGreaterThanTreeSize => "LeavesAmountGreaterThanTreeSize"@,
            MerkleTreeError::DeserializingError => "DeserializingError"@,
        }
    }

    /// The name of the variant.
    pub fn name(&self) -> (text: &'static str)
        ensures
            text@ == self.name_text(),
    {
        match self {
            MerkleTreeError::EmptyTree => "EmptyTree",
            MerkleTreeError::MerkleTreeNotInitialized => "MerkleTreeNotInitialized",
            MerkleTreeError::LeavesAmountGreaterThanTreeSize => "LeavesAmountGreaterThanTreeSize",
            MerkleTreeError::DeserializingError => "DeserializingError",
        }
    }
}

impl CryptoError {
    /// The name of the variant.
    pub open spec fn name_text(self) -> Seq<char> {
        match self {
            CryptoError::InvalidSignature => "InvalidSignature"@,
            CryptoError::InvalidPublicKey => "InvalidPublicKey"@,
            CryptoError::InvalidPrivateKey => "InvalidPrivateKey"@,
            CryptoError::InvalidMessage => "InvalidMessage"@,
        }
    }

    /// The name of the variant.
    pub fn name(&self) -> (text: &'static str)
        ensures
            text@ == self.name_text(),
    {
        match self {
            CryptoError::InvalidSignature => "InvalidSignature",
            CryptoError::InvalidPublicKey => "InvalidPublicKey",
            CryptoError::InvalidPrivateKey => "InvalidPrivateKey",
            CryptoError::InvalidMessage => "InvalidMessage",
        }
    }
}

/// A failed request: a status code and a message.
#[derive(Clone, Debug, PartialEq, Eq)]
pub struct ServerError {
    pub code: u16,
    pub message: String,
}

/// A failed request as a value.
pub struct ErrorView {
    pub code: u16,
    pub message: Seq<char>,
}

impl View for ServerError {
    type V = ErrorView;

    open spec fn view(&self) -> ErrorView {
        ErrorView { code: self.code, message: self.message@ }
    }
}

/// The failure with the given status code and message.
pub open spec fn failure(code: u16, message: Seq<char>) -> ErrorView {
    ErrorView { code, message }
}

impl ServerError {
    /// An error with the given status code and message.
    pub fn new(code: u16, message: String) -> (e: Self)
        ensures
            e@ == failure(code, message@),
    {
        ServerError { code, message }
    }

    /// An error with the given status code and message.
    pub fn with_text(code: u16, message: &str) -> (e: Self)
        ensures
            e@ == failure(code, message@),
    {
        ServerError { code, message: String::from_str(message) }
    }

    /// What a client is told: the message itself below status 500, and a
    /// fixed text from 500 on.
    pub open spec fn shown_text(self) -> Seq<char> {
        if self.code < 500 {
            self.message@
        } else {
            "Internal server error"@
        }
    }

    /// What a client is told about this error.
    pub fn shown_message(&self) -> (text: String)
        ensures
            text@ == self.shown_text(),
    {
        if self.code < 500 {
            self.message.clone()
        } else {
            String::from_str("Internal server error")
        }
    }
}

impl From<MerkleTreeError> for ServerError {
    /// A refusal of the Merkle engine is the client's fault: status 400.
    fn from(err: MerkleTreeError) -> (e: Self)
        ensures
            e@ == failure(400, "MerkleTreeError: "@ + err.name_text()),
    {
        let mut message = String::from_str("MerkleTreeError: ");
        message.append(err.name());
        ServerError::new(400, message)
    }
}

impl vstd::std_specs::convert::FromSpecImpl<MerkleTreeError> for ServerError {
    open spec fn obeys_from_spec() -> bool {
        false
    }

    open spec fn from_spec(err: MerkleTreeError) -> Self {
        arbitrary()
    }
}

impl From<CryptoError> for ServerError {
    /// A refusal of the signature service is the client's fault: status 400.
    fn from(err: CryptoError) -> (e: Self)
        ensures
            e@ == failure(400, "Crypto error: "@ + err.name_text()),
    {
        let mut message = String::from_str("Crypto error: ");
        message.append(err.name());
        ServerError::new(400, message)
    }
}

impl vstd::std_specs::convert::FromSpecImpl<CryptoError> for ServerError {
    open spec fn obeys_from_spec() -> bool {
        false
    }

    open spec fn from_spec(err: CryptoError) -> Self {
        arbitrary()
    }
}

} // verus!
