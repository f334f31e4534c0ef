use vstd::prelude::*;
use crate::digest::{combined_spec, digest_of, digest_of_bytes, keccak256_spec};
use crate::error::EntropyError;
use crate::hash_chain::{chain_element, lemma_digest_of_next_is_previous, PebbleHashChain};
use crate::mock_entropy_contract_impl::{
    has_request, refusal, registered, requests_numbered, with_fulfilled, with_request,
    MockEntropyContract, ProviderState,
};

verus! {

/// The eight bytes of a number, the most significant first.
pub open spec fn be_bytes_spec(value: u64) -> Seq<u8> {
    seq![
        (value / 0x100_0000_0000_0000) as u8,
        (value / 0x1_0000_0000_0000 % 256) as u8,
        (value / 0x100_0000_0000 % 256) as u8,
        (value / 0x1_0000_0000 % 256) as u8,
        (value / 0x100_0000 % 256) as u8,
        (value / 0x1_0000 % 256) as u8,
        (value / 0x100 % 256) as u8,
        (value % 256) as u8,
    ]
}

/// The eight bytes of a number, the most significant first.
pub fn be_bytes(value: u64) -> (bytes: [u8; 8])
    ensures
        bytes@ == be_bytes_spec(value),
{
    let bytes: [u8; 8] = [
        (value / 0x100_0000_0000_0000) as u8,
        (value / 0x1_0000_0000_0000 % 256) as u8,
        (value / 0x100_0000_0000 % 256) as u8,
        (value / 0x1_0000_0000 % 256) as u8,
        (value / 0x100_0000 % 256) as u8,
        (value / 0x1_0000 % 256) as u8,
        (value / 0x100 % 256) as u8,
        (value % 256) as u8,
    ];
    assert(bytes@ =~= be_bytes_spec(value));
    bytes
}

/// The secret of the user behind sample `index`: the digest of the index's
/// eight bytes.
pub open spec fn user_secret_spec(index: u64) -> Seq<u8> {
    keccak256_spec(be_bytes_spec(index))
}

/// The secret of the user behind sample `index`.
pub fn user_secret_for(index: u64) -> (secret: [u8; 32])
    ensures
        secret@ == user_secret_spec(index),
{
    let bytes = be_bytes(index);
    digest_of_bytes(bytes.as_slice())
}

/// What one round leaves for the audit trail.
#[derive(Debug, Clone, Copy)]
pub struct Sample {
    pub sequence_number: u64,
    pub user_secret: [u8; 32],
    pub provider_revelation: [u8; 32],
    pub final_random_number: [u8; 32],
}

/// What a round returns and leaves behind. The user's commitment is the
/// digest of the secret; the request is stored under the next number `n`;
/// the provider answers with element `n` of its chain; the contract then
/// decides as for any fulfillment. A request that the chain has no element
/// for stays open.
pub open spec fn round_outcome(
    before: Map<Seq<char>, ProviderState>,
    after: Map<Seq<char>, ProviderState>,
    provider: Seq<char>,
    requester: Seq<char>,
    user_secret: Seq<u8>,
    seed: Seq<u8>,
    length: nat,
    outcome: Result<Sample, EntropyError>,
) -> bool {
    if !before.dom().contains(provider) {
        after == before && outcome == Err::<Sample, EntropyError>(
            EntropyError::ProviderOrRequestNotFound,
        )
    } else if before[provider].sequence_number == u64::MAX {
        after == before && outcome == Err::<Sample, EntropyError>(EntropyError::InternalUnknown)
    } else {
        let n = (before[provider].sequence_number + 1) as u64;
        let asked = with_request(before[provider], requester, keccak256_spec(user_secret));
        let between = before.insert(provider, asked);
        if n >= length {
            after == between && outcome == Err::<Sample, EntropyError>(
                EntropyError::ChainExhausted,
            )
        } else {
            let revelation = chain_element(seed, length, n as nat);
            match refusal(asked, n, keccak256_spec(user_secret), keccak256_spec(revelation)) {
                Some(e) => after == between && outcome == Err::<Sample, EntropyError>(e),
                None => {
                    &&& after == between.insert(provider, with_fulfilled(asked, n, revelation))
                    &&& outcome.is_ok()
                    &&& outcome.unwrap().sequence_number == n
                    &&& outcome.unwrap().user_secret@ == user_secret
                    &&& outcome.unwrap().provider_revelation@ == revelation
                    &&& outcome.unwrap().final_random_number@ == combined_spec(
                        user_secret,
                        revelation,
                    )
                },
            }
        }
    }
}

/// One round between a user, the provider and the contract: the user
/// commits to `user_secret`, the provider reveals the chain element that
/// belongs to the assigned number, and the contract verifies both.
pub fn run_sample(
    contract: &mut MockEntropyContract,
    chain: &PebbleHashChain,
    provider_address: &str,
    user_address: String,
    user_secret: [u8; 32],
) -> (outcome: Result<Sample, EntropyError>)
    requires
        old(contract).wf(),
    ensures
        final(contract).wf(),
        round_outcome(
            old(contract)@,
            final(contract)@,
            provider_address@,
            user_address@,
            user_secret@,
            chain.seed(),
            chain.spec_len(),
            outcome,
        ),
{
    let user_commitment = digest_of(&user_secret);
    let sequence_number =
        match contract.request_randomness(provider_address, user_address, user_commitment) {
        Ok(n) => n,
        Err(e) => {
            return Err(e);
        },
    };
    let provider_revelation = match chain.reveal_sequence(sequence_number) {
        Ok(value) => value,
        Err(e) => {
            return Err(e);
        },
    };
    match contract.fulfill_request(
        provider_address,
        sequence_number,
        user_secret,
        provider_revelation,
    ) {
        Ok(final_random_number) => Ok(
            Sample { sequence_number, user_secret, provider_revelation, final_random_number },
        ),
        Err(e) => Err(e),
    }
}

/// A provider is in step with its chain when its requests are numbered, its
/// counter is an index of the chain, and the last value it revealed is the
/// chain's element at that index.
pub open spec fn in_step(p: ProviderState, seed: Seq<u8>, length: nat) -> bool {
    &&& requests_numbered(p)
    &&& p.sequence_number < length
    &&& p.last_revealed_hash == chain_element(seed, length, p.sequence_number as nat)
}

/// A provider that registers element 0 of its chain is in step with it.
pub proof fn lemma_registered_is_in_step(seed: Seq<u8>, length: nat)
    requires
        length >= 1,
    ensures
        in_step(registered(chain_element(seed, length, 0)), seed, length),
{
}

/// While the provider is in step with its chain and the chain has an
/// element left, a round succeeds, takes the next number, and leaves the
/// provider in step: an honest run never fails before the chain is used up.
pub proof fn lemma_honest_round_succeeds(
    before: Map<Seq<char>, ProviderState>,
    after: Map<Seq<char>, ProviderState>,
    provider: Seq<char>,
    requester: Seq<char>,
    user_secret: Seq<u8>,
    seed: Seq<u8>,
    length: nat,
    outcome: Result<Sample, EntropyError>,
)
    requires
        before.dom().contains(provider),
        in_step(before[provider], seed, length),
        before[provider].sequence_number + 1 < length,
        length <= u64::MAX,
        round_outcome(before, after, provider, requester, user_secret, seed, length, outcome),
    ensures
        outcome.is_ok(),
        outcome.unwrap().sequence_number == before[provider].sequence_number + 1,
        after.dom().contains(provider),
        after[provider].sequence_number == before[provider].sequence_number + 1,
        in_step(after[provider], seed, length),
{
    let p = before[provider];
    let n = (p.sequence_number + 1) as u64;
    let asked = with_request(p, requester, keccak256_spec(user_secret));
    let revelation = chain_element(seed, length, n as nat);
    lemma_digest_of_next_is_previous(seed, length, p.sequence_number as nat);
    assert(has_request(asked, n));
    assert(asked.requests[n - 1].user_commitment == keccak256_spec(user_secret));
    assert(refusal(asked, n, keccak256_spec(user_secret), keccak256_spec(revelation)) is None);
    let done = with_fulfilled(asked, n, revelation);
    assert(requests_numbered(done));
}

} // verus!
