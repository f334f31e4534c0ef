//! Commit-reveal randomness: a pebbled Keccak-256 hash chain, a registry of
//! chains, and the verifier that checks both parties' secrets against their
//! commitments before producing a random value.

pub mod api;
pub mod assoc;
pub mod digest;
pub mod error;
pub mod hash_chain;
pub mod mock_contract;
pub mod mock_entropy_contract_impl;
pub mod registry;
