use vstd::prelude::*;

verus! {

/// The failures that the library reports instead of panicking.
#[derive(Clone, Copy, Debug, PartialEq, Eq, Structural)]
pub enum ChainError {
    /// The underlying key-value store reported an error.
    Store,
    /// Stored or received bytes did not decode as the expected record.
    Codec,
    /// No chain exists in the store (no tip recorded).
    NoChain,
    /// The spendable outputs of the sender do not cover the amount.
    NotEnoughFunds,
    /// A transaction handed to the miner failed signature verification.
    InvalidTx,
    /// A referenced previous transaction is not on the chain.
    MissingTx,
    /// A key or signature was rejected by the cryptographic backend.
    Crypto,
}

impl ChainError {
    /// A short human-readable description, in place of `Display`.
    pub fn message(&self) -> (r: &'static str)
        ensures
            self is NotEnoughFunds ==> r@ == "Error! not enough funds"@,
    {
        match self {
            ChainError::Store => "store error",
            ChainError::Codec => "malformed record",
            ChainError::NoChain => "No existing blockchain found",
            ChainError::NotEnoughFunds => "Error! not enough funds",
            ChainError::InvalidTx => "ERROR: Invalid tx",
            ChainError::MissingTx => "ERROR: Previous transaction is not correct",
            ChainError::Crypto => "key rejected",
        }
    }
}

} // verus!
