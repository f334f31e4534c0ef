use vstd::prelude::*;

verus! {

/// Every way an operation of this library can fail.
#[derive(Clone, Copy, Debug, PartialEq, Eq, Structural)]
pub enum EntropyError {
    /// The chain identifier was never registered.
    InvalidChainId,
    /// The chain identifier is registered but its hash chain is not built yet.
    Uninitialized,
    /// The chain identifier already holds a built hash chain.
    AlreadyInitialized,
    /// The requested index is not below the chain's length.
    ChainExhausted,
    /// The user's secret does not hash to the commitment stored with the request.
    UserCommitmentMismatch,
    /// The provider's revelation does not hash to the last revealed value.
    ProviderChainBroken,
    /// The request was fulfilled before.
    DoubleFulfillment,
    /// The provider, or the request under that provider, is unknown.
    ProviderOrRequestNotFound,
    /// Anything else: malformed input or an exhausted counter.
    InternalUnknown,
}

impl EntropyError {
    /// A short human-readable description of the error.
    pub fn message(&self) -> (text: &'static str)
        ensures
            text@ == Self::message_of(*self),
    {
        match self {
            EntropyError::InvalidChainId => "The chain id is not supported",
            EntropyError::Uninitialized => "The chain is not initialized yet",
            EntropyError::AlreadyInitialized => "The chain is already initialized",
            EntropyError::ChainExhausted => "The index is beyond the end of the hash chain",
            EntropyError::UserCommitmentMismatch => "User commitment verification failed",
            EntropyError::ProviderChainBroken => "Provider commitment verification failed",
            EntropyError::DoubleFulfillment => "The request has already been fulfilled",
            EntropyError::ProviderOrRequestNotFound => "Provider or request not found",
            EntropyError::InternalUnknown => "An unknown error occurred",
        }
    }

    /// The description that belongs to each error.
    pub open spec fn message_of(e: EntropyError) -> Seq<char> {
        match e {
            EntropyError::InvalidChainId => "The chain id is not supported"@,
            EntropyError::Uninitialized => "The chain is not initialized yet"@,
            EntropyError::AlreadyInitialized => "The chain is already initialized"@,
            EntropyError::ChainExhausted => "The index is beyond the end of the hash chain"@,
            EntropyError::UserCommitmentMismatch => "User commitment verification failed"@,
            EntropyError::ProviderChainBroken => "Provider commitment verification failed"@,
            EntropyError::DoubleFulfillment => "The request has already been fulfilled"@,
            EntropyError::ProviderOrRequestNotFound => "Provider or request not found"@,
            EntropyError::InternalUnknown => "An unknown error occurred"@,
        }
    }
}

} // verus!
