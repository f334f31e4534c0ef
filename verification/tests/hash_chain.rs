use fortuna::digest::{combine, concat_digests, digest_of, digest_of_bytes, digests_equal};
use fortuna::error::EntropyError;
use fortuna::hash_chain::PebbleHashChain;
use sha3::{Digest, Keccak256};

fn keccak(data: &[u8]) -> [u8; 32] {
    Keccak256::digest(data).into()
}

fn full_chain(seed: [u8; 32], length: usize) -> Vec<[u8; 32]> {
    let mut forward = Vec::new();
    let mut current = seed;
    for _ in 0..length {
        current = keccak(&current);
        forward.push(current);
    }
    forward.reverse();
    forward
}

#[test]
fn digest_of_zero_word_is_the_known_keccak_value() {
    let expected: [u8; 32] = [
        0x29, 0x0d, 0xec, 0xd9, 0x54, 0x8b, 0x62, 0xa8, 0xd6, 0x03, 0x45, 0xa9, 0x88, 0x38, 0x6f,
        0xc8, 0x4b, 0xa6, 0xbc, 0x95, 0x48, 0x40, 0x08, 0xf6, 0x36, 0x2f, 0x93, 0x16, 0x0e, 0xf3,
        0xe5, 0x63,
    ];
    assert_eq!(digest_of(&[0u8; 32]), expected);
}

#[test]
fn digest_of_one_word_is_the_known_keccak_value() {
    let mut word = [0u8; 32];
    word[31] = 1;
    assert_eq!(
        hex::encode(digest_of(&word)),
        "b10e2d527612073b26eecdfd717e6a320cf44b4afac2b0732d9fcbe2b7fa0cf6"
    );
}

#[test]
fn chain_of_one_element_reveals_the_digest_of_the_seed() {
    let chain = PebbleHashChain::new([0u8; 32], 1, 1);
    assert_eq!(
        hex::encode(chain.reveal_ith(0).unwrap()),
        "290decd9548b62a8d60345a988386fc84ba6bc95484008f6362f93160ef3e563"
    );
}

#[test]
fn digests_equal_tells_equal_from_different() {
    let a = [7u8; 32];
    let mut b = [7u8; 32];
    assert!(digests_equal(&a, &b));
    b[31] = 8;
    assert!(!digests_equal(&a, &b));
    b[31] = 7;
    b[0] = 0;
    assert!(!digests_equal(&a, &b));
}

#[test]
fn concat_puts_the_first_value_first() {
    let joined = concat_digests(&[1u8; 32], &[2u8; 32]);
    assert_eq!(joined.len(), 64);
    assert_eq!(&joined[..32], &[1u8; 32]);
    assert_eq!(&joined[32..], &[2u8; 32]);
}

#[test]
fn combine_hashes_secret_then_revelation() {
    let secret = [3u8; 32];
    let revelation = [9u8; 32];
    let expected = keccak(&[secret, revelation].concat());
    assert_eq!(combine(&secret, &revelation), expected);
    assert_ne!(combine(&revelation, &secret), expected);
}

#[test]
fn combine_of_two_zero_words_is_the_known_keccak_value() {
    assert_eq!(
        hex::encode(combine(&[0u8; 32], &[0u8; 32])),
        "ad3228b676f7d3cd4284a5443f17f1962b36e491b30a40b2405849e597ba5fb5"
    );
}

#[test]
fn pebbled_reveal_equals_full_materialization() {
    let seed = [5u8; 32];
    for length in 1..=20usize {
        let full = full_chain(seed, length);
        for stride in 1..=25usize {
            let chain = PebbleHashChain::new(seed, length, stride);
            assert_eq!(chain.len(), length);
            assert_eq!(chain.sample_interval(), stride);
            for i in 0..length {
                assert_eq!(chain.reveal_ith(i), Ok(full[i]));
                assert_eq!(chain.reveal_sequence(i as u64), Ok(full[i]));
            }
        }
    }
}

#[test]
fn materialize_gives_every_element() {
    let seed = [5u8; 32];
    assert_eq!(PebbleHashChain::materialize(seed, 0), Vec::<[u8; 32]>::new());
    assert_eq!(PebbleHashChain::materialize(seed, 7), full_chain(seed, 7));
    let chain = PebbleHashChain::new(seed, 7, 3);
    let held = PebbleHashChain::materialize(seed, 7);
    for i in 0..7usize {
        assert_eq!(chain.reveal_ith(i).unwrap(), held[i]);
    }
}

#[test]
fn digest_of_next_element_is_the_previous_one() {
    let chain = PebbleHashChain::new([0xabu8; 32], 50, 7);
    for i in 0..49usize {
        let next = chain.reveal_ith(i + 1).unwrap();
        assert_eq!(digest_of(&next), chain.reveal_ith(i).unwrap());
    }
}

#[test]
fn last_element_is_the_digest_of_the_seed() {
    let seed = [0x11u8; 32];
    let chain = PebbleHashChain::new(seed, 10, 4);
    assert_eq!(chain.reveal_ith(9).unwrap(), keccak(&seed));
}

#[test]
fn reveal_from_the_length_on_is_chain_exhausted() {
    let chain = PebbleHashChain::new([1u8; 32], 4, 2);
    assert_eq!(chain.reveal_ith(4), Err(EntropyError::ChainExhausted));
    assert_eq!(chain.reveal_ith(5), Err(EntropyError::ChainExhausted));
    assert_eq!(chain.reveal_ith(usize::MAX), Err(EntropyError::ChainExhausted));
    assert_eq!(chain.reveal_sequence(4), Err(EntropyError::ChainExhausted));
    assert_eq!(chain.reveal_sequence(u64::MAX), Err(EntropyError::ChainExhausted));
    assert!(chain.reveal_ith(3).is_ok());
}

#[test]
fn empty_chain_reveals_nothing() {
    let chain = PebbleHashChain::new([1u8; 32], 0, 3);
    assert!(chain.is_empty());
    assert_eq!(chain.len(), 0);
    assert_eq!(chain.reveal_ith(0), Err(EntropyError::ChainExhausted));
}

#[test]
fn reveal_is_repeatable() {
    let chain = PebbleHashChain::new([2u8; 32], 30, 6);
    assert_eq!(chain.reveal_ith(13), chain.reveal_ith(13));
    assert!(!chain.is_empty());
}

#[test]
fn error_messages_are_distinct() {
    let all = [
        EntropyError::InvalidChainId,
        EntropyError::Uninitialized,
        EntropyError::AlreadyInitialized,
        EntropyError::ChainExhausted,
        EntropyError::UserCommitmentMismatch,
        EntropyError::ProviderChainBroken,
        EntropyError::DoubleFulfillment,
        EntropyError::ProviderOrRequestNotFound,
        EntropyError::InternalUnknown,
    ];
    for (i, a) in all.iter().enumerate() {
        for (j, b) in all.iter().enumerate() {
            assert_eq!(i == j, a.message() == b.message());
        }
    }
    assert_eq!(
        EntropyError::UserCommitmentMismatch.message(),
        "User commitment verification failed"
    );
}

#[test]
fn digest_of_bytes_takes_any_length() {
    assert_eq!(
        hex::encode(digest_of_bytes(&[])),
        "c5d2460186f7233c927e7db2dcc703c0e500b653ca82273b7bfad8045d85a470"
    );
    assert_eq!(digest_of_bytes(&[0u8; 32]), digest_of(&[0u8; 32]));
    assert_eq!(digest_of_bytes(b"user_ethereum1"), keccak(b"user_ethereum1"));
}
