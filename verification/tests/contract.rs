use fortuna::error::EntropyError;
use fortuna::hash_chain::PebbleHashChain;
use fortuna::mock_entropy_contract_impl::MockEntropyContract;
use sha3::{Digest, Keccak256};

fn hash(data: &[u8]) -> [u8; 32] {
    Keccak256::digest(data).into()
}

const PROVIDER: &str = "0xprovider";

fn setup() -> (MockEntropyContract, PebbleHashChain) {
    let chain = PebbleHashChain::new([1u8; 32], 4, 2);
    let mut contract = MockEntropyContract::new();
    contract.register(PROVIDER.to_string(), chain.reveal_ith(0).unwrap());
    (contract, chain)
}

#[test]
fn two_requests_then_a_second_fulfillment_of_the_first() {
    let seed = [1u8; 32];
    let d3 = hash(&seed);
    let d2 = hash(&d3);
    let d1 = hash(&d2);
    let d0 = hash(&d1);
    let chain = PebbleHashChain::new(seed, 4, 10);
    assert_eq!(chain.reveal_ith(0), Ok(d0));
    assert_eq!(chain.reveal_ith(1), Ok(d1));
    assert_eq!(chain.reveal_ith(2), Ok(d2));
    assert_eq!(chain.reveal_ith(3), Ok(d3));

    let mut contract = MockEntropyContract::new();
    contract.register(PROVIDER.to_string(), d0);
    assert_eq!(contract.provider_info(PROVIDER).unwrap().last_revealed_hash, d0);

    let user_secret = hash(&0u64.to_be_bytes());
    let user_commitment = hash(&user_secret);
    assert_eq!(contract.request(PROVIDER, user_commitment), Ok(1));
    let revelation = chain.reveal_ith(1).unwrap();
    let output = contract.fulfill_request(PROVIDER, 1, user_secret, revelation);
    assert_eq!(output, Ok(hash(&[user_secret, d1].concat())));
    assert_eq!(contract.provider_info(PROVIDER).unwrap().last_revealed_hash, d1);

    let user_secret2 = hash(&1u64.to_be_bytes());
    assert_eq!(contract.request(PROVIDER, hash(&user_secret2)), Ok(2));
    let revelation2 = chain.reveal_ith(2).unwrap();
    let output2 = contract.fulfill_request(PROVIDER, 2, user_secret2, revelation2);
    assert_eq!(output2, Ok(hash(&[user_secret2, d2].concat())));
    assert_eq!(contract.provider_info(PROVIDER).unwrap().last_revealed_hash, d2);

    assert_eq!(
        contract.fulfill_request(PROVIDER, 1, user_secret, revelation),
        Err(EntropyError::DoubleFulfillment)
    );
    assert_eq!(contract.provider_info(PROVIDER).unwrap().last_revealed_hash, d2);
}

#[test]
fn register_starts_at_zero_with_the_commitment() {
    let (contract, chain) = setup();
    let info = contract.provider_info(PROVIDER).unwrap();
    assert_eq!(info.sequence_number, 0);
    assert_eq!(info.commitment, chain.reveal_ith(0).unwrap());
    assert_eq!(info.last_revealed_hash, info.commitment);
    assert!(contract.provider_info("nobody").is_none());
    assert!(contract.get_request(PROVIDER, 1).is_none());
}

#[test]
fn sequence_numbers_count_up_from_one_for_each_provider() {
    let (mut contract, _) = setup();
    contract.register("other".to_string(), [9u8; 32]);
    for expected in 1..=10u64 {
        assert_eq!(contract.request(PROVIDER, [expected as u8; 32]), Ok(expected));
        assert_eq!(contract.provider_info(PROVIDER).unwrap().sequence_number, expected);
    }
    assert_eq!(contract.request("other", [0u8; 32]), Ok(1));
    assert_eq!(contract.request(PROVIDER, [0u8; 32]), Ok(11));
    assert_eq!(contract.request("other", [0u8; 32]), Ok(2));
    for number in 1..=10u64 {
        let request = contract.get_request(PROVIDER, number).unwrap();
        assert_eq!(request.sequence_number, number);
        assert_eq!(request.user_commitment, [number as u8; 32]);
        assert!(!request.fulfilled);
    }
    assert!(contract.get_request(PROVIDER, 0).is_none());
    assert!(contract.get_request(PROVIDER, 12).is_none());
}

#[test]
fn request_randomness_records_the_requester() {
    let (mut contract, _) = setup();
    let assigned = contract.request_randomness(PROVIDER, "alice".to_string(), [4u8; 32]);
    assert_eq!(assigned, Ok(1));
    let request = contract.get_request(PROVIDER, 1).unwrap();
    assert_eq!(request.requester, "alice");
    assert_eq!(request.user_commitment, [4u8; 32]);
}

#[test]
fn request_for_an_unknown_provider_is_not_found() {
    let (mut contract, _) = setup();
    assert_eq!(
        contract.request("nobody", [0u8; 32]),
        Err(EntropyError::ProviderOrRequestNotFound)
    );
    assert_eq!(contract.provider_info(PROVIDER).unwrap().sequence_number, 0);
}

#[test]
fn wrong_user_secret_is_a_mismatch_and_changes_nothing() {
    let (mut contract, chain) = setup();
    let secret = [7u8; 32];
    contract.request(PROVIDER, hash(&secret)).unwrap();
    let before = contract.provider_info(PROVIDER).unwrap();
    let outcome =
        contract.fulfill_request(PROVIDER, 1, [8u8; 32], chain.reveal_ith(1).unwrap());
    assert_eq!(outcome, Err(EntropyError::UserCommitmentMismatch));
    let after = contract.provider_info(PROVIDER).unwrap();
    assert_eq!(after.last_revealed_hash, before.last_revealed_hash);
    assert_eq!(after.sequence_number, before.sequence_number);
    assert!(!contract.get_request(PROVIDER, 1).unwrap().fulfilled);
    // The same request can still be fulfilled with the right secret.
    assert!(contract
        .fulfill_request(PROVIDER, 1, secret, chain.reveal_ith(1).unwrap())
        .is_ok());
}

#[test]
fn wrong_revelation_is_a_broken_chain_and_changes_nothing() {
    let (mut contract, chain) = setup();
    let secret = [7u8; 32];
    contract.request(PROVIDER, hash(&secret)).unwrap();
    let before = contract.provider_info(PROVIDER).unwrap();
    // One step too far along the chain: the offset between sequence numbers
    // and chain indices must be exact.
    let outcome = contract.fulfill_request(PROVIDER, 1, secret, chain.reveal_ith(2).unwrap());
    assert_eq!(outcome, Err(EntropyError::ProviderChainBroken));
    let outcome = contract.fulfill_request(PROVIDER, 1, secret, chain.reveal_ith(0).unwrap());
    assert_eq!(outcome, Err(EntropyError::ProviderChainBroken));
    let after = contract.provider_info(PROVIDER).unwrap();
    assert_eq!(after.last_revealed_hash, before.last_revealed_hash);
    assert!(!contract.get_request(PROVIDER, 1).unwrap().fulfilled);
}

#[test]
fn user_check_comes_before_provider_check() {
    let (mut contract, _) = setup();
    contract.request(PROVIDER, hash(&[7u8; 32])).unwrap();
    let outcome = contract.fulfill_request(PROVIDER, 1, [8u8; 32], [0u8; 32]);
    assert_eq!(outcome, Err(EntropyError::UserCommitmentMismatch));
}

#[test]
fn unknown_provider_or_request_is_not_found() {
    let (mut contract, chain) = setup();
    let secret = [7u8; 32];
    let revelation = chain.reveal_ith(1).unwrap();
    assert_eq!(
        contract.fulfill_request(PROVIDER, 1, secret, revelation),
        Err(EntropyError::ProviderOrRequestNotFound)
    );
    contract.request(PROVIDER, hash(&secret)).unwrap();
    assert_eq!(
        contract.fulfill_request(PROVIDER, 0, secret, revelation),
        Err(EntropyError::ProviderOrRequestNotFound)
    );
    assert_eq!(
        contract.fulfill_request(PROVIDER, 2, secret, revelation),
        Err(EntropyError::ProviderOrRequestNotFound)
    );
    assert_eq!(
        contract.fulfill_request("nobody", 1, secret, revelation),
        Err(EntropyError::ProviderOrRequestNotFound)
    );
}

#[test]
fn fulfill_with_digests_uses_the_digests_it_is_given() {
    let (mut contract, chain) = setup();
    let d0 = chain.reveal_ith(0).unwrap();
    contract.request(PROVIDER, [5u8; 32]).unwrap();
    assert_eq!(
        contract.fulfill_with_digests(PROVIDER, 1, [6u8; 32], d0, [1u8; 32], [2u8; 32]),
        Err(EntropyError::UserCommitmentMismatch)
    );
    assert_eq!(
        contract.fulfill_with_digests(PROVIDER, 1, [5u8; 32], [0u8; 32], [1u8; 32], [2u8; 32]),
        Err(EntropyError::ProviderChainBroken)
    );
    assert_eq!(
        contract.fulfill_with_digests(PROVIDER, 1, [5u8; 32], d0, [1u8; 32], [2u8; 32]),
        Ok([2u8; 32])
    );
    assert_eq!(contract.provider_info(PROVIDER).unwrap().last_revealed_hash, [1u8; 32]);
    assert!(contract.get_request(PROVIDER, 1).unwrap().fulfilled);
    assert_eq!(
        contract.fulfill_with_digests(PROVIDER, 1, [5u8; 32], [1u8; 32], [1u8; 32], [2u8; 32]),
        Err(EntropyError::DoubleFulfillment)
    );
}

#[test]
fn registering_again_changes_nothing() {
    let (mut contract, chain) = setup();
    let commitment = chain.reveal_ith(0).unwrap();
    let secret = [7u8; 32];
    let revelation = chain.reveal_ith(1).unwrap();
    assert_eq!(contract.request(PROVIDER, hash(&secret)), Ok(1));
    assert_eq!(contract.request(PROVIDER, [2u8; 32]), Ok(2));
    let output = contract.fulfill_request(PROVIDER, 1, secret, revelation).unwrap();

    // Neither another commitment nor the first one over again resets anything.
    for offered in [[3u8; 32], commitment] {
        contract.register(PROVIDER.to_string(), offered);
        let info = contract.provider_info(PROVIDER).unwrap();
        assert_eq!(info.sequence_number, 2);
        assert_eq!(info.commitment, commitment);
        assert_eq!(info.last_revealed_hash, revelation);
        assert!(contract.get_request(PROVIDER, 1).unwrap().fulfilled);
        let open = contract.get_request(PROVIDER, 2).unwrap();
        assert!(!open.fulfilled);
        assert_eq!(open.user_commitment, [2u8; 32]);
        // The fulfilled request cannot be replayed.
        assert_eq!(
            contract.fulfill_request(PROVIDER, 1, secret, revelation),
            Err(EntropyError::DoubleFulfillment)
        );
    }
    // No number is issued again.
    assert_eq!(contract.request(PROVIDER, hash(&secret)), Ok(3));
    assert_eq!(
        contract.fulfill_request(PROVIDER, 3, secret, revelation),
        Err(EntropyError::ProviderChainBroken)
    );
    assert_eq!(output, hash(&[secret, revelation].concat()));
}

#[test]
fn registering_a_second_provider_leaves_the_first_alone() {
    let (mut contract, chain) = setup();
    contract.request(PROVIDER, [1u8; 32]).unwrap();
    contract.register("other".to_string(), [9u8; 32]);
    let other = contract.provider_info("other").unwrap();
    assert_eq!(other.sequence_number, 0);
    assert_eq!(other.commitment, [9u8; 32]);
    assert_eq!(other.last_revealed_hash, [9u8; 32]);
    let first = contract.provider_info(PROVIDER).unwrap();
    assert_eq!(first.sequence_number, 1);
    assert_eq!(first.commitment, chain.reveal_ith(0).unwrap());
}

#[test]
fn a_whole_chain_is_accepted_in_order() {
    let length = 40usize;
    let chain = PebbleHashChain::new([1u8; 32], length, 6);
    let mut contract = MockEntropyContract::new();
    contract.register(PROVIDER.to_string(), chain.reveal_ith(0).unwrap());
    for i in 0..(length as u64 - 1) {
        let secret = hash(&i.to_be_bytes());
        let number = contract.request(PROVIDER, hash(&secret)).unwrap();
        assert_eq!(number, i + 1);
        let revelation = chain.reveal_sequence(number).unwrap();
        let output = contract.fulfill_request(PROVIDER, number, secret, revelation).unwrap();
        assert_eq!(output, hash(&[secret, revelation].concat()));
    }
}
