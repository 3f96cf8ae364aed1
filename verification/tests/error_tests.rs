use zcash_sidechain::error::{Error, ErrorKind};

#[test]
fn test_error_creation() {
    let err = Error::invalid_block("test error");
    assert!(matches!(err, Error::InvalidBlock(_)));

    let err = Error::invalid_transaction("test error");
    assert!(matches!(err, Error::InvalidTransaction(_)));

    let err = Error::state_error("test error");
    assert!(matches!(err, Error::State(_)));
}

#[test]
fn test_error_display() {
    let err = Error::invalid_block("test error");
    assert_eq!(err.to_string(), "Invalid block: test error");

    let err = Error::crypto_error("test error");
    assert_eq!(err.to_string(), "Cryptographic error: test error");
}

#[test]
fn every_kind_has_its_prefix() {
    let cases = [
        (ErrorKind::InvalidBlock, "Invalid block: m"),
        (ErrorKind::InvalidTransaction, "Invalid transaction: m"),
        (ErrorKind::InvalidAddress, "Invalid address: m"),
        (ErrorKind::State, "State error: m"),
        (ErrorKind::Crypto, "Cryptographic error: m"),
        (ErrorKind::MerkleTree, "Merkle tree error: m"),
        (ErrorKind::Nullifier, "Nullifier error: m"),
        (ErrorKind::Serialization, "Serialization error: m"),
        (ErrorKind::ProofVerification, "Proof verification error: m"),
    ];
    for (kind, text) in cases {
        let err = Error::of_kind(kind, "m");
        assert_eq!(err.error_kind(), kind);
        assert_eq!(err.to_string(), text);
    }
}
