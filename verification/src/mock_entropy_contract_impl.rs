use std::collections::HashMap;
use vstd::prelude::*;
use crate::assoc::{
    assoc_map, keys_distinct, lemma_assoc_absent, lemma_assoc_lookup, lemma_assoc_push,
    lemma_assoc_update,
};
use crate::digest::{combine, combined_spec, digest_of, digests_equal, keccak256_spec};
use crate::error::EntropyError;
use crate::hash_chain::chain_element;

verus! {

broadcast use vstd::std_specs::hash::group_hash_axioms;

/// What the contract keeps for each provider.
#[derive(Debug, Clone, Copy)]
pub struct ProviderInfo {
    /// The provider's request counter: the number of the last request made.
    pub sequence_number: u64,
    /// The hash the provider initially committed to.
    pub commitment: [u8; 32],
    /// The last value the provider revealed; the commitment before any reveal.
    pub last_revealed_hash: [u8; 32],
}

/// One request for a random value.
#[derive(Debug, Clone)]
pub struct Request {
    /// The number the request was given, counted from 1 for each provider.
    pub sequence_number: u64,
    /// The digest of the secret that the user will later disclose.
    pub user_commitment: [u8; 32],
    /// Who asked.
    pub requester: String,
    /// Whether the request has been fulfilled.
    pub fulfilled: bool,
}

/// A request as contracts speak of it.
pub ghost struct RequestView {
    pub sequence_number: u64,
    pub user_commitment: Seq<u8>,
    pub requester: Seq<char>,
    pub fulfilled: bool,
}

/// All that the contract holds for one provider, as contracts speak of it.
pub ghost struct ProviderState {
    pub sequence_number: u64,
    pub commitment: Seq<u8>,
    pub last_revealed_hash: Seq<u8>,
    pub requests: Seq<RequestView>,
}

impl View for Request {
    type V = RequestView;

    open spec fn view(&self) -> RequestView {
        RequestView {
            sequence_number: self.sequence_number,
            user_commitment: self.user_commitment@,
            requester: self.requester@,
            fulfilled: self.fulfilled,
        }
    }
}

/// The state of a provider that has just registered `commitment`.
pub open spec fn registered(commitment: Seq<u8>) -> ProviderState {
    ProviderState {
        sequence_number: 0,
        commitment,
        last_revealed_hash: commitment,
        requests: Seq::empty(),
    }
}

/// What a registration leaves behind: a new address is added as just
/// registered; a known address keeps all that is held for it.
pub open spec fn after_register(
    before: Map<Seq<char>, ProviderState>,
    provider: Seq<char>,
    commitment: Seq<u8>,
) -> Map<Seq<char>, ProviderState> {
    if before.dom().contains(provider) {
        before
    } else {
        before.insert(provider, registered(commitment))
    }
}

/// The requests of a provider are numbered 1, 2, 3, ... up to its counter.
pub open spec fn requests_numbered(p: ProviderState) -> bool {
    &&& p.requests.len() == p.sequence_number
    &&& forall|k: int|
        0 <= k < p.requests.len() ==> (#[trigger] p.requests[k]).sequence_number == k + 1
}

/// The state after one more request: the counter goes up by one and the new
/// request, open, carries the new number.
pub open spec fn with_request(
    p: ProviderState,
    requester: Seq<char>,
    user_commitment: Seq<u8>,
) -> ProviderState
    recommends
        p.sequence_number < u64::MAX,
{
    let number = (p.sequence_number + 1) as u64;
    ProviderState {
        sequence_number: number,
        requests: p.requests.push(
            RequestView { sequence_number: number, user_commitment, requester, fulfilled: false },
        ),
        ..p
    }
}

/// Whether the provider has a request with this number.
pub open spec fn has_request(p: ProviderState, sequence_number: u64) -> bool {
    1 <= sequence_number <= p.requests.len()
}

/// Why a fulfillment is turned down, or `None` where it is accepted. The
/// checks come in this order: the request exists, it is still open, the
/// user's digest is the stored commitment, the revelation's digest is the
/// last revealed value.
pub open spec fn refusal(
    p: ProviderState,
    sequence_number: u64,
    user_digest: Seq<u8>,
    revelation_digest: Seq<u8>,
) -> Option<EntropyError> {
    if !has_request(p, sequence_number) {
        Some(EntropyError::ProviderOrRequestNotFound)
    } else if p.requests[sequence_number - 1].fulfilled {
        Some(EntropyError::DoubleFulfillment)
    } else if p.requests[sequence_number - 1].user_commitment != user_digest {
        Some(EntropyError::UserCommitmentMismatch)
    } else if p.last_revealed_hash != revelation_digest {
        Some(EntropyError::ProviderChainBroken)
    } else {
        None
    }
}

/// The state after an accepted fulfillment: the revelation becomes the last
/// revealed value and the request is marked fulfilled.
pub open spec fn with_fulfilled(
    p: ProviderState,
    sequence_number: u64,
    provider_revelation: Seq<u8>,
) -> ProviderState
    recommends
        has_request(p, sequence_number),
{
    let k = sequence_number - 1;
    ProviderState {
        last_revealed_hash: provider_revelation,
        requests: p.requests.update(k, RequestView { fulfilled: true, ..p.requests[k] }),
        ..p
    }
}

/// What a fulfillment returns and leaves behind, given the three digests it
/// computes: of the user's secret, of the revelation, and of both joined.
pub open spec fn fulfillment(
    before: Map<Seq<char>, ProviderState>,
    after: Map<Seq<char>, ProviderState>,
    provider: Seq<char>,
    sequence_number: u64,
    user_digest: Seq<u8>,
    revelation_digest: Seq<u8>,
    provider_revelation: Seq<u8>,
    combined: Seq<u8>,
    outcome: Result<[u8; 32], EntropyError>,
) -> bool {
    if !before.dom().contains(provider) {
        after == before && outcome == Err::<[u8; 32], EntropyError>(
            EntropyError::ProviderOrRequestNotFound,
        )
    } else {
        match refusal(before[provider], sequence_number, user_digest, revelation_digest) {
            Some(e) => after == before && outcome == Err::<[u8; 32], EntropyError>(e),
            None => {
                &&& outcome.is_ok()
                &&& outcome.unwrap()@ == combined
                &&& after == before.insert(
                    provider,
                    with_fulfilled(before[provider], sequence_number, provider_revelation),
                )
            },
        }
    }
}

/// What a request returns and leaves behind: an unknown provider and a
/// counter that cannot go further are turned down and change nothing;
/// otherwise the next number is assigned and the request is stored.
pub open spec fn request_outcome(
    before: Map<Seq<char>, ProviderState>,
    after: Map<Seq<char>, ProviderState>,
    provider: Seq<char>,
    requester: Seq<char>,
    user_commitment: Seq<u8>,
    assigned: Result<u64, EntropyError>,
) -> bool {
    if !before.dom().contains(provider) {
        after == before && assigned == Err::<u64, EntropyError>(
            EntropyError::ProviderOrRequestNotFound,
        )
    } else if before[provider].sequence_number == u64::MAX {
        after == before && assigned == Err::<u64, EntropyError>(EntropyError::InternalUnknown)
    } else {
        &&& assigned == Ok::<u64, EntropyError>((before[provider].sequence_number + 1) as u64)
        &&& after == before.insert(
            provider,
            with_request(before[provider], requester, user_commitment),
        )
    }
}

struct ProviderEntry {
    address: String,
    info: ProviderInfo,
    requests: HashMap<u64, Request>,
}

impl ProviderEntry {
    spec fn state(&self) -> ProviderState {
        ProviderState {
            sequence_number: self.info.sequence_number,
            commitment: self.info.commitment@,
            last_revealed_hash: self.info.last_revealed_hash@,
            requests: Seq::new(
                self.info.sequence_number as nat,
                |k: int| self.requests@[(k + 1) as u64]@,
            ),
        }
    }

    /// The requests held are those with the numbers from 1 to the counter.
    spec fn holds_each_number(&self) -> bool {
        forall|n: u64| #[trigger]
            self.requests@.contains_key(n) <==> 1 <= n <= self.info.sequence_number
    }
}

/// The verifier: for each provider its counter, its last revealed value and
/// its requests, held in memory.
pub struct MockEntropyContract {
    providers: Vec<ProviderEntry>,
}

impl View for MockEntropyContract {
    type V = Map<Seq<char>, ProviderState>;

    closed spec fn view(&self) -> Map<Seq<char>, ProviderState> {
        assoc_map(self.keys(), self.states())
    }
}

impl MockEntropyContract {
    spec fn keys(&self) -> Seq<Seq<char>> {
        Seq::new(self.providers@.len(), |i: int| self.providers@[i].address@)
    }

    spec fn states(&self) -> Seq<ProviderState> {
        Seq::new(self.providers@.len(), |i: int| self.providers@[i].state())
    }

    /// No provider is held twice, and each provider's requests are numbered
    /// from 1 up to its counter.
    pub closed spec fn wf(&self) -> bool {
        &&& keys_distinct(self.keys())
        &&& forall|i: int|
            0 <= i < self.providers@.len() ==> requests_numbered(#[trigger] self.states()[i])
        &&& forall|i: int|
            0 <= i < self.providers@.len() ==> (#[trigger] self.providers@[i]).holds_each_number()
    }

    /// A contract that knows no provider.
    pub fn new() -> (contract: Self)
        ensures
            contract.wf(),
            contract@ == Map::<Seq<char>, ProviderState>::empty(),
    {
        let contract = MockEntropyContract { providers: Vec::new() };
        assert(contract@ =~= Map::<Seq<char>, ProviderState>::empty());
        contract
    }

    fn find(&self, address: &String) -> (found: Option<usize>)
        ensures
            match found {
                Some(i) => i < self.providers@.len() && self.keys()[i as int] == address@,
                None => forall|i: int| 0 <= i < self.keys().len() ==> self.keys()[i] != address@,
            },
    {
        let mut i: usize = 0;
        while i < self.providers.len()
            invariant
                i <= self.providers@.len(),
                forall|j: int| 0 <= j < i ==> self.keys()[j] != address@,
            decreases self.providers@.len() - i,
        {
            if self.providers[i].address == *address {
                return Some(i);
            }
            i = i + 1;
        }
        None
    }

    /// Registers a new provider with its commitment: the counter starts at
    /// 0, the last revealed value is the commitment, and no request is held.
    /// An address that is registered already keeps all that is held for it:
    /// its counter, its last revealed value and its requests, open and
    /// fulfilled; the commitment offered is not taken.
    pub fn register(&mut self, provider_address: String, commitment: [u8; 32])
        requires
            old(self).wf(),
        ensures
            final(self).wf(),
            final(self)@ == after_register(old(self)@, provider_address@, commitment@),
    {
        let found = self.find(&provider_address);
        match found {
            Some(i) => {
                proof {
                    lemma_assoc_lookup(self.keys(), self.states(), i as int);
                }
            },
            None => {
                let ghost addr = provider_address@;
                proof {
                    lemma_assoc_absent(self.keys(), self.states(), addr);
                }
                let info = ProviderInfo {
                    sequence_number: 0,
                    commitment,
                    last_revealed_hash: commitment,
                };
                let entry = ProviderEntry {
                    address: provider_address,
                    info,
                    requests: HashMap::new(),
                };
                assert(entry.state().requests =~= Seq::<RequestView>::empty());
                assert(entry.state() == registered(commitment@));
                self.providers.push(entry);
                proof {
                    assert(self.keys() =~= old(self).keys().push(addr));
                    assert(self.states() =~= old(self).states().push(registered(commitment@)));
                    lemma_assoc_push(
                        old(self).keys(),
                        old(self).states(),
                        addr,
                        registered(commitment@),
                    );
                }
            },
        }
    }

    /// Takes a user's commitment for the named provider, gives the request
    /// the provider's next sequence number and stores it, open.
    pub fn request_randomness(
        &mut self,
        provider_address: &str,
        user_address: String,
        user_commitment: [u8; 32],
    ) -> (assigned: Result<u64, EntropyError>)
        requires
            old(self).wf(),
        ensures
            final(self).wf(),
            request_outcome(
                old(self)@,
                final(self)@,
                provider_address@,
                user_address@,
                user_commitment@,
                assigned,
            ),
    {
        let key = provider_address.to_owned();
        let found = self.find(&key);
        match found {
            None => {
                proof {
                    lemma_assoc_absent(self.keys(), self.states(), key@);
                }
                Err(EntropyError::ProviderOrRequestNotFound)
            },
            Some(i) => {
                proof {
                    lemma_assoc_lookup(self.keys(), self.states(), i as int);
                }
                let current = self.providers[i].info.sequence_number;
                if current == u64::MAX {
                    return Err(EntropyError::InternalUnknown);
                }
                let number: u64 = current + 1;
                let ghost requester = user_address@;
                let ghost next = with_request(
                    old(self).states()[i as int],
                    requester,
                    user_commitment@,
                );
                self.providers[i].requests.insert(
                    number,
                    Request {
                        sequence_number: number,
                        user_commitment,
                        requester: user_address,
                        fulfilled: false,
                    },
                );
                self.providers[i].info.sequence_number = number;
                proof {
                    assert(self.keys() =~= old(self).keys());
                    assert(self.providers@[i as int].state().requests =~= next.requests);
                    assert(self.states() =~= old(self).states().update(i as int, next));
                    lemma_assoc_update(old(self).keys(), old(self).states(), i as int, next);
                }
                Ok(number)
            },
        }
    }

    /// `request_randomness` for a requester without a name.
    pub fn request(
        &mut self,
        provider_address: &str,
        user_commitment: [u8; 32],
    ) -> (assigned: Result<u64, EntropyError>)
        requires
            old(self).wf(),
        ensures
            final(self).wf(),
            request_outcome(
                old(self)@,
                final(self)@,
                provider_address@,
                Seq::<char>::empty(),
                user_commitment@,
                assigned,
            ),
    {
        self.request_randomness(provider_address, String::new(), user_commitment)
    }

    /// Decides a fulfillment from the digests already computed, and carries
    /// it out: `user_digest` is held against the request's commitment,
    /// `revelation_digest` against the last revealed value; where both agree
    /// the revelation becomes the last revealed value, the request is marked
    /// fulfilled and `combined` is returned. A refusal changes nothing.
    pub fn fulfill_with_digests(
        &mut self,
        provider_address: &str,
        sequence_number: u64,
        user_digest: [u8; 32],
        revelation_digest: [u8; 32],
        provider_revelation: [u8; 32],
        combined: [u8; 32],
    ) -> (outcome: Result<[u8; 32], EntropyError>)
        requires
            old(self).wf(),
        ensures
            final(self).wf(),
            fulfillment(
                old(self)@,
                final(self)@,
                provider_address@,
                sequence_number,
                user_digest@,
                revelation_digest@,
                provider_revelation@,
                combined@,
                outcome,
            ),
    {
        let key = provider_address.to_owned();
        let found = self.find(&key);
        match found {
            None => {
                proof {
                    lemma_assoc_absent(self.keys(), self.states(), key@);
                }
                Err(EntropyError::ProviderOrRequestNotFound)
            },
            Some(i) => {
                proof {
                    lemma_assoc_lookup(self.keys(), self.states(), i as int);
                }
                let ghost before = old(self).states()[i as int];
                assert(requests_numbered(before));
                assert(self.providers@[i as int].holds_each_number());
                if sequence_number < 1 || sequence_number > self.providers[i].info.sequence_number {
                    return Err(EntropyError::ProviderOrRequestNotFound);
                }
                let request = match self.providers[i].requests.get(&sequence_number) {
                    Some(request) => request,
                    None => {
                        return Err(EntropyError::ProviderOrRequestNotFound);
                    },
                };
                assert(before.requests[sequence_number - 1] == request@);
                if request.fulfilled {
                    return Err(EntropyError::DoubleFulfillment);
                }
                if !digests_equal(&request.user_commitment, &user_digest) {
                    return Err(EntropyError::UserCommitmentMismatch);
                }
                if !digests_equal(&self.providers[i].info.last_revealed_hash, &revelation_digest) {
                    return Err(EntropyError::ProviderChainBroken);
                }
                let fulfilled = Request {
                    sequence_number: request.sequence_number,
                    user_commitment: request.user_commitment,
                    requester: request.requester.clone(),
                    fulfilled: true,
                };
                let ghost next = with_fulfilled(before, sequence_number, provider_revelation@);
                self.providers[i].info.last_revealed_hash = provider_revelation;
                self.providers[i].requests.insert(sequence_number, fulfilled);
                proof {
                    assert(self.keys() =~= old(self).keys());
                    assert(self.providers@[i as int].state().requests =~= next.requests);
                    assert(self.states() =~= old(self).states().update(i as int, next));
                    lemma_assoc_update(old(self).keys(), old(self).states(), i as int, next);
                }
                Ok(combined)
            },
        }
    }

    /// Fulfills a request: hashes the user's secret and the provider's
    /// revelation, holds them against what is stored, and on success returns
    /// the digest of the secret followed by the revelation.
    pub fn fulfill_request(
        &mut self,
        provider_address: &str,
        sequence_number: u64,
        user_secret: [u8; 32],
        provider_revelation: [u8; 32],
    ) -> (outcome: Result<[u8; 32], EntropyError>)
        requires
            old(self).wf(),
        ensures
            final(self).wf(),
            fulfillment(
                old(self)@,
                final(self)@,
                provider_address@,
                sequence_number,
                keccak256_spec(user_secret@),
                keccak256_spec(provider_revelation@),
                provider_revelation@,
                combined_spec(user_secret@, provider_revelation@),
                outcome,
            ),
    {
        let user_digest = digest_of(&user_secret);
        let revelation_digest = digest_of(&provider_revelation);
        let combined = combine(&user_secret, &provider_revelation);
        self.fulfill_with_digests(
            provider_address,
            sequence_number,
            user_digest,
            revelation_digest,
            provider_revelation,
            combined,
        )
    }

    /// What is held for the named provider, if it is registered.
    pub fn provider_info(&self, provider_address: &str) -> (info: Option<ProviderInfo>)
        requires
            self.wf(),
        ensures
            info.is_some() == self@.dom().contains(provider_address@),
            info.is_some() ==> {
                &&& info.unwrap().sequence_number == self@[provider_address@].sequence_number
                &&& info.unwrap().commitment@ == self@[provider_address@].commitment
                &&& info.unwrap().last_revealed_hash@ == self@[provider_address@].last_revealed_hash
            },
    {
        let key = provider_address.to_owned();
        match self.find(&key) {
            None => {
                proof {
                    lemma_assoc_absent(self.keys(), self.states(), key@);
                }
                None
            },
            Some(i) => {
                proof {
                    lemma_assoc_lookup(self.keys(), self.states(), i as int);
                }
                Some(self.providers[i].info)
            },
        }
    }

    /// The request with the given number under the named provider, if there
    /// is one.
    pub fn get_request(
        &self,
        provider_address: &str,
        sequence_number: u64,
    ) -> (request: Option<&Request>)
        requires
            self.wf(),
        ensures
            request.is_some() == (self@.dom().contains(provider_address@) && has_request(
                self@[provider_address@],
                sequence_number,
            )),
            request.is_some() ==> request.unwrap()@ == self@[provider_address@].requests[
                sequence_number - 1],
    {
        let key = provider_address.to_owned();
        match self.find(&key) {
            None => {
                proof {
                    lemma_assoc_absent(self.keys(), self.states(), key@);
                }
                None
            },
            Some(i) => {
                proof {
                    lemma_assoc_lookup(self.keys(), self.states(), i as int);
                }
                let ghost held = self.states()[i as int];
                assert(requests_numbered(held));
                assert(self.providers@[i as int].holds_each_number());
                if sequence_number < 1 || sequence_number > self.providers[i].info.sequence_number {
                    return None;
                }
                let request = self.providers[i].requests.get(&sequence_number);
                assert(request.is_some());
                assert(held.requests[sequence_number - 1] == request.unwrap()@);
                request
            },
        }
    }
}

/// In every state of the contract, each provider's requests carry the
/// numbers 1, 2, 3, ... up to the provider's counter: none is missing and
/// none is used twice.
pub proof fn lemma_requests_are_numbered(contract: MockEntropyContract, provider: Seq<char>)
    requires
        contract.wf(),
        contract@.dom().contains(provider),
    ensures
        requests_numbered(contract@[provider]),
{
    let i = contract.keys().index_of(provider);
    assert(contract.keys().contains(provider));
    lemma_assoc_lookup(contract.keys(), contract.states(), i);
    assert(requests_numbered(contract.states()[i]));
}

/// Two requests made one after the other for the same provider get
/// consecutive numbers.
pub proof fn lemma_successive_requests_are_consecutive(
    p: ProviderState,
    first_requester: Seq<char>,
    first_commitment: Seq<u8>,
    second_requester: Seq<char>,
    second_commitment: Seq<u8>,
)
    requires
        p.sequence_number + 2 <= u64::MAX,
    ensures
        with_request(p, first_requester, first_commitment).sequence_number == p.sequence_number
            + 1,
        with_request(
            with_request(p, first_requester, first_commitment),
            second_requester,
            second_commitment,
        ).sequence_number == with_request(p, first_requester, first_commitment).sequence_number
            + 1,
{
}

/// A fulfillment whose user digest is not the stored commitment of an open
/// request is refused as a mismatch, and one whose user digest agrees but
/// whose revelation digest is not the last revealed value is refused as a
/// broken chain; a refusal leaves every provider as it was, and only an
/// accepted fulfillment moves the last revealed value and closes the request.
pub proof fn lemma_failed_checks_change_nothing(
    before: Map<Seq<char>, ProviderState>,
    after: Map<Seq<char>, ProviderState>,
    provider: Seq<char>,
    sequence_number: u64,
    user_digest: Seq<u8>,
    revelation_digest: Seq<u8>,
    provider_revelation: Seq<u8>,
    combined: Seq<u8>,
    outcome: Result<[u8; 32], EntropyError>,
)
    requires
        before.dom().contains(provider),
        has_request(before[provider], sequence_number),
        !before[provider].requests[sequence_number - 1].fulfilled,
        fulfillment(
            before,
            after,
            provider,
            sequence_number,
            user_digest,
            revelation_digest,
            provider_revelation,
            combined,
            outcome,
        ),
    ensures
        user_digest != before[provider].requests[sequence_number - 1].user_commitment ==> outcome
            == Err::<[u8; 32], EntropyError>(EntropyError::UserCommitmentMismatch) && after
            == before,
        user_digest == before[provider].requests[sequence_number - 1].user_commitment
            && revelation_digest != before[provider].last_revealed_hash ==> outcome == Err::<
            [u8; 32],
            EntropyError,
        >(EntropyError::ProviderChainBroken) && after == before,
        outcome.is_err() ==> after == before,
        outcome.is_ok() ==> after[provider].last_revealed_hash == provider_revelation
            && after[provider].requests[sequence_number - 1].fulfilled,
{
}

/// A request that has been fulfilled cannot be fulfilled again, whatever
/// digests are offered.
pub proof fn lemma_no_second_fulfillment(
    p: ProviderState,
    sequence_number: u64,
    provider_revelation: Seq<u8>,
    user_digest: Seq<u8>,
    revelation_digest: Seq<u8>,
)
    requires
        has_request(p, sequence_number),
    ensures
        refusal(
            with_fulfilled(p, sequence_number, provider_revelation),
            sequence_number,
            user_digest,
            revelation_digest,
        ) == Some(EntropyError::DoubleFulfillment),
{
}

/// A provider that published element 0 of its chain and has revealed the
/// elements up to `n - 1` is accepted when it answers request `n` with
/// element `n`, and element `n` is then the last revealed value: sequence
/// numbers and chain indices are the same numbers.
pub proof fn lemma_next_element_is_accepted(
    p: ProviderState,
    seed: Seq<u8>,
    length: nat,
    n: u64,
    user_digest: Seq<u8>,
)
    requires
        has_request(p, n),
        !p.requests[n - 1].fulfilled,
        p.requests[n - 1].user_commitment == user_digest,
        n < length,
        p.last_revealed_hash == chain_element(seed, length, (n - 1) as nat),
    ensures
        refusal(p, n, user_digest, keccak256_spec(chain_element(seed, length, n as nat))) is None,
        with_fulfilled(p, n, chain_element(seed, length, n as nat)).last_revealed_hash
            == chain_element(seed, length, n as nat),
{
    crate::hash_chain::lemma_digest_of_next_is_previous(seed, length, (n - 1) as nat);
}

/// An accepted fulfillment moves the last revealed value one step along
/// the chain and no other way: the new value hashes to the old one.
pub proof fn lemma_accepted_revelation_hashes_to_last(
    p: ProviderState,
    sequence_number: u64,
    user_digest: Seq<u8>,
    provider_revelation: Seq<u8>,
)
    requires
        refusal(p, sequence_number, user_digest, keccak256_spec(provider_revelation)) is None,
    ensures
        keccak256_spec(
            with_fulfilled(p, sequence_number, provider_revelation).last_revealed_hash,
        ) == p.last_revealed_hash,
        with_fulfilled(p, sequence_number, provider_revelation).commitment == p.commitment,
        with_fulfilled(p, sequence_number, provider_revelation).sequence_number
            == p.sequence_number,
{
}

/// Each value of the list hashes to the one before it, the first to `start`.
pub open spec fn each_hashes_to_previous(start: Seq<u8>, revelations: Seq<Seq<u8>>) -> bool {
    forall|i: int|
        0 <= i < revelations.len() ==> keccak256_spec(#[trigger] revelations[i]) == (if i == 0 {
            start
        } else {
            revelations[i - 1]
        })
}

/// However many revelations have been accepted one after the other, the
/// last of them, hashed as many times as there were revelations, is the
/// value that the provider started from: the last revealed value only ever
/// moves forward along the one chain behind the commitment.
pub proof fn lemma_revelations_lead_back(start: Seq<u8>, revelations: Seq<Seq<u8>>)
    requires
        revelations.len() > 0,
        each_hashes_to_previous(start, revelations),
    ensures
        crate::hash_chain::iterate_hash(revelations.last(), revelations.len()) == start,
    decreases revelations.len(),
{
    let n = revelations.len();
    let last = revelations.last();
    assert(keccak256_spec(revelations[n - 1]) == (if n == 1 {
        start
    } else {
        revelations[n - 2]
    }));
    assert(crate::hash_chain::iterate_hash(last, 1) == keccak256_spec(
        crate::hash_chain::iterate_hash(last, 0),
    ));
    if n > 1 {
        let earlier = revelations.drop_last();
        assert forall|i: int| 0 <= i < earlier.len() implies keccak256_spec(
            #[trigger] earlier[i],
        ) == (if i == 0 {
            start
        } else {
            earlier[i - 1]
        }) by {
            assert(earlier[i] == revelations[i]);
        }
        lemma_revelations_lead_back(start, earlier);
        crate::hash_chain::lemma_iterate_hash_add(last, 1, (n - 1) as nat);
    }
}

/// Registering a known provider again resets nothing. The next request
/// gets the number after the last one issued, so no number is issued twice;
/// every request held before is held as it was, and one that was fulfilled
/// is still refused as fulfilled; the last revealed value has not moved.
pub proof fn lemma_register_again_resets_nothing(
    before: Map<Seq<char>, ProviderState>,
    after: Map<Seq<char>, ProviderState>,
    provider: Seq<char>,
    commitment: Seq<u8>,
    requester: Seq<char>,
    user_commitment: Seq<u8>,
    assigned: Result<u64, EntropyError>,
)
    requires
        before.dom().contains(provider),
        requests_numbered(before[provider]),
        request_outcome(
            after_register(before, provider, commitment),
            after,
            provider,
            requester,
            user_commitment,
            assigned,
        ),
    ensures
        after_register(before, provider, commitment) == before,
        assigned.is_ok() ==> assigned.unwrap() == before[provider].sequence_number + 1,
        after[provider].last_revealed_hash == before[provider].last_revealed_hash,
        after[provider].commitment == before[provider].commitment,
        forall|k: int|
            0 <= k < before[provider].requests.len() ==> #[trigger] after[provider].requests[k]
                == before[provider].requests[k],
        forall|n: u64, user_digest: Seq<u8>, revelation_digest: Seq<u8>|
            has_request(before[provider], n) && before[provider].requests[n - 1].fulfilled
                ==> #[trigger] refusal(after[provider], n, user_digest, revelation_digest)
                == Some(EntropyError::DoubleFulfillment),
{
    assert forall|n: u64, user_digest: Seq<u8>, revelation_digest: Seq<u8>|
        has_request(before[provider], n) && before[provider].requests[n - 1].fulfilled implies
        #[trigger] refusal(after[provider], n, user_digest, revelation_digest) == Some(
        EntropyError::DoubleFulfillment,
    ) by {
        assert(after[provider].requests[n - 1] == before[provider].requests[n - 1]);
    }
}

} // verus!
