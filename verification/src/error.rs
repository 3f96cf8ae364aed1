//! The error kinds that the ledger reports.

use vstd::prelude::*;
use vstd::string::StringExecFns;

verus! {

/// What went wrong, with a message for the user.
#[derive(Debug)]
pub enum Error {
    /// A block is malformed or does not extend the chain.
    InvalidBlock(String),
    /// A transaction has the wrong shape or does not balance.
    InvalidTransaction(String),
    /// An address does not parse.
    InvalidAddress(String),
    /// A referenced row does not exist, or a counter is exhausted.
    State(String),
    /// The shielded provider rejected its input.
    Crypto(String),
    /// The note-commitment tree cannot take the operation.
    MerkleTree(String),
    /// A nullifier is already present.
    Nullifier(String),
    /// Stored bytes do not decode.
    Serialization(String),
    /// A bundle failed verification.
    ProofVerification(String),
}

pub type Result<T> = core::result::Result<T, Error>;

/// The kind of an error, without its message.
#[derive(Clone, Copy, Debug, PartialEq, Eq, Structural)]
pub enum ErrorKind {
    InvalidBlock,
    InvalidTransaction,
    InvalidAddress,
    State,
    Crypto,
    MerkleTree,
    Nullifier,
    Serialization,
    ProofVerification,
}

/// The two strings, one after the other.
pub(crate) fn joined(prefix: &str, msg: &str) -> (res: String)
    ensures
        res@ == prefix@ + msg@,
{
    prefix.to_owned().concat(msg)
}

impl Error {
    /// The message carried by the error.
    pub open spec fn message(&self) -> Seq<char> {
        match self {
            Error::InvalidBlock(m) => m@,
            Error::InvalidTransaction(m) => m@,
            Error::InvalidAddress(m) => m@,
            Error::State(m) => m@,
            Error::Crypto(m) => m@,
            Error::MerkleTree(m) => m@,
            Error::Nullifier(m) => m@,
            Error::Serialization(m) => m@,
            Error::ProofVerification(m) => m@,
        }
    }

    /// The kind of the error.
    pub open spec fn kind(&self) -> ErrorKind {
        match self {
            Error::InvalidBlock(_) => ErrorKind::InvalidBlock,
            Error::InvalidTransaction(_) => ErrorKind::InvalidTransaction,
            Error::InvalidAddress(_) => ErrorKind::InvalidAddress,
            Error::State(_) => ErrorKind::State,
            Error::Crypto(_) => ErrorKind::Crypto,
            Error::MerkleTree(_) => ErrorKind::MerkleTree,
            Error::Nullifier(_) => ErrorKind::Nullifier,
            Error::Serialization(_) => ErrorKind::Serialization,
            Error::ProofVerification(_) => ErrorKind::ProofVerification,
        }
    }

    /// The kind of the error.
    pub fn error_kind(&self) -> (k: ErrorKind)
        ensures
            k == self.kind(),
    {
        match self {
            Error::InvalidBlock(_) => ErrorKind::InvalidBlock,
            Error::InvalidTransaction(_) => ErrorKind::InvalidTransaction,
            Error::InvalidAddress(_) => ErrorKind::InvalidAddress,
            Error::State(_) => ErrorKind::State,
            Error::Crypto(_) => ErrorKind::Crypto,
            Error::MerkleTree(_) => ErrorKind::MerkleTree,
            Error::Nullifier(_) => ErrorKind::Nullifier,
            Error::Serialization(_) => ErrorKind::Serialization,
            Error::ProofVerification(_) => ErrorKind::ProofVerification,
        }
    }

    /// An error of the given kind with the given message.
    pub fn of_kind(kind: ErrorKind, msg: &str) -> (e: Error)
        ensures
            e.kind() == kind,
            e.message() == msg@,
    {
        match kind {
            ErrorKind::InvalidBlock => Error::InvalidBlock(msg.to_owned()),
            ErrorKind::InvalidTransaction => Error::InvalidTransaction(msg.to_owned()),
            ErrorKind::InvalidAddress => Error::InvalidAddress(msg.to_owned()),
            ErrorKind::State => Error::State(msg.to_owned()),
            ErrorKind::Crypto => Error::Crypto(msg.to_owned()),
            ErrorKind::MerkleTree => Error::MerkleTree(msg.to_owned()),
            ErrorKind::Nullifier => Error::Nullifier(msg.to_owned()),
            ErrorKind::Serialization => Error::Serialization(msg.to_owned()),
            ErrorKind::ProofVerification => Error::ProofVerification(msg.to_owned()),
        }
    }

    /// The text that introduces an error of this kind.
    pub open spec fn prefix(&self) -> Seq<char> {
        match self {
            Error::InvalidBlock(_) => "Invalid block: "@,
            Error::InvalidTransaction(_) => "Invalid transaction: "@,
            Error::InvalidAddress(_) => "Invalid address: "@,
            Error::State(_) => "State error: "@,
            Error::Crypto(_) => "Cryptographic error: "@,
            Error::MerkleTree(_) => "Merkle tree error: "@,
            Error::Nullifier(_) => "Nullifier error: "@,
            Error::Serialization(_) => "Serialization error: "@,
            Error::ProofVerification(_) => "Proof verification error: "@,
        }
    }

    pub fn invalid_block(msg: &str) -> (e: Error)
        ensures
            e.kind() == ErrorKind::InvalidBlock,
            e.message() == msg@,
    {
        Error::InvalidBlock(msg.to_owned())
    }

    pub fn invalid_transaction(msg: &str) -> (e: Error)
        ensures
            e.kind() == ErrorKind::InvalidTransaction,
            e.message() == msg@,
    {
        Error::InvalidTransaction(msg.to_owned())
    }

    pub fn invalid_address(msg: &str) -> (e: Error)
        ensures
            e.kind() == ErrorKind::InvalidAddress,
            e.message() == msg@,
    {
        Error::InvalidAddress(msg.to_owned())
    }

    pub fn state_error(msg: &str) -> (e: Error)
        ensures
            e.kind() == ErrorKind::State,
            e.message() == msg@,
    {
        Error::State(msg.to_owned())
    }

    pub fn crypto_error(msg: &str) -> (e: Error)
        ensures
            e.kind() == ErrorKind::Crypto,
            e.message() == msg@,
    {
        Error::Crypto(msg.to_owned())
    }

    pub fn merkle_tree_error(msg: &str) -> (e: Error)
        ensures
            e.kind() == ErrorKind::MerkleTree,
            e.message() == msg@,
    {
        Error::MerkleTree(msg.to_owned())
    }

    pub fn nullifier_error(msg: &str) -> (e: Error)
        ensures
            e.kind() == ErrorKind::Nullifier,
            e.message() == msg@,
    {
        Error::Nullifier(msg.to_owned())
    }

    pub fn serialization_error(msg: &str) -> (e: Error)
        ensures
            e.kind() == ErrorKind::Serialization,
            e.message() == msg@,
    {
        Error::Serialization(msg.to_owned())
    }

    pub fn proof_verification_error(msg: &str) -> (e: Error)
        ensures
            e.kind() == ErrorKind::ProofVerification,
            e.message() == msg@,
    {
        Error::ProofVerification(msg.to_owned())
    }

    /// The error as one line of text: the kind's prefix, then the message.
    pub fn to_string(&self) -> (s: String)
        ensures
            s@ == self.prefix() + self.message(),
    {
        match self {
            Error::InvalidBlock(m) => joined("Invalid block: ", m.as_str()),
            Error::InvalidTransaction(m) => joined("Invalid transaction: ", m.as_str()),
            Error::InvalidAddress(m) => joined("Invalid address: ", m.as_str()),
            Error::State(m) => joined("State error: ", m.as_str()),
            Error::Crypto(m) => joined("Cryptographic error: ", m.as_str()),
            Error::MerkleTree(m) => joined("Merkle tree error: ", m.as_str()),
            Error::Nullifier(m) => joined("Nullifier error: ", m.as_str()),
            Error::Serialization(m) => joined("Serialization error: ", m.as_str()),
            Error::ProofVerification(m) => joined("Proof verification error: ", m.as_str()),
        }
    }
}

} // verus!
