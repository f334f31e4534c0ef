use vstd::prelude::*;
use crate::digest::{keccak256, keccak256_spec};
use crate::error::EntropyError;

verus! {

/// The seed hashed `n` times.
pub open spec fn iterate_hash(seed: Seq<u8>, n: nat) -> Seq<u8>
    decreases n,
{
    if n == 0 {
        seed
    } else {
        keccak256_spec(iterate_hash(seed, (n - 1) as nat))
    }
}

/// Element `i` of the chain of `length` digests grown from `seed`: the last
/// element is the digest of the seed, and every element is the digest of the
/// one after it.
pub open spec fn chain_element(seed: Seq<u8>, length: nat, i: nat) -> Seq<u8> {
    iterate_hash(seed, (length - i) as nat)
}

/// The whole chain, every element held.
pub open spec fn materialized_chain(seed: Seq<u8>, length: nat) -> Seq<Seq<u8>> {
    Seq::new(length, |i: int| chain_element(seed, length, i as nat))
}

/// How many pebbles a chain of `length` elements keeps at the given stride.
pub open spec fn pebble_count(length: nat, stride: nat) -> nat {
    if length == 0 {
        0
    } else {
        ((length - 1) / (stride as int) + 1) as nat
    }
}

/// Hashing `m` more times after `n` times is hashing `n + m` times.
pub proof fn lemma_iterate_hash_add(seed: Seq<u8>, n: nat, m: nat)
    ensures
        iterate_hash(iterate_hash(seed, n), m) == iterate_hash(seed, n + m),
    decreases m,
{
    if m > 0 {
        lemma_iterate_hash_add(seed, n, (m - 1) as nat);
    }
}

/// A hash chain that keeps one digest in every `sample_interval` and derives
/// the others on demand.
pub struct PebbleHashChain {
    seed: [u8; 32],
    length: usize,
    sample_interval: usize,
    pebbles: Vec<[u8; 32]>,
}

impl PebbleHashChain {
    /// The secret that the chain grows from.
    pub closed spec fn seed(&self) -> Seq<u8> {
        self.seed@
    }

    /// The number of elements in the chain.
    pub closed spec fn spec_len(&self) -> nat {
        self.length as nat
    }

    /// The distance between two pebbles.
    pub closed spec fn stride(&self) -> nat {
        self.sample_interval as nat
    }

    /// The digests that are kept, in the order in which hashing produced them.
    pub closed spec fn pebbles(&self) -> Seq<Seq<u8>> {
        Seq::new(self.pebbles@.len(), |j: int| self.pebbles@[j]@)
    }

    /// Pebble `j` is the seed hashed `j * stride + 1` times, and there is one
    /// pebble for each multiple of the stride below the length.
    #[verifier::type_invariant]
    pub open spec fn wf(&self) -> bool {
        &&& self.stride() >= 1
        &&& self.pebbles().len() == pebble_count(self.spec_len(), self.stride())
        &&& forall|j: int|
            0 <= j < self.pebbles().len() ==> #[trigger] self.pebbles()[j] == iterate_hash(
                self.seed(),
                (j * self.stride() + 1) as nat,
            )
    }

    /// Element `i` as the pebbles give it: the nearest pebble that hashing
    /// reached before that element, hashed the remaining number of times.
    pub open spec fn pebbled_value(&self, i: nat) -> Seq<u8>
        recommends
            i < self.spec_len(),
    {
        let steps = (self.spec_len() - 1 - i) as nat;
        let j = steps / self.stride();
        iterate_hash(self.pebbles()[j as int], self.hashes_from_pebble(i))
    }

    /// How many times the nearest pebble is hashed to reach element `i`.
    pub open spec fn hashes_from_pebble(&self, i: nat) -> nat
        recommends
            i < self.spec_len(),
    {
        let steps = (self.spec_len() - 1 - i) as nat;
        (steps - (steps / self.stride()) * self.stride()) as nat
    }

    /// Builds the chain of `length` elements from `secret`, keeping a pebble
    /// every `sample_interval` elements.
    pub fn new(secret: [u8; 32], length: usize, sample_interval: usize) -> (chain: Self)
        requires
            sample_interval >= 1,
        ensures
            chain.wf(),
            chain.seed() == secret@,
            chain.spec_len() == length,
            chain.stride() == sample_interval,
    {
        let mut pebbles: Vec<[u8; 32]> = Vec::new();
        let mut current: [u8; 32] = secret;
        let mut done: usize = 0;
        let mut since: usize = 0;
        while done < length
            invariant
                sample_interval >= 1,
                done <= length,
                current@ == iterate_hash(secret@, done as nat),
                done == 0 ==> pebbles@.len() == 0 && since == 0,
                done > 0 ==> {
                    &&& pebbles@.len() >= 1
                    &&& 1 <= since <= sample_interval
                    &&& done == (pebbles@.len() - 1) * sample_interval + since
                },
                forall|j: int|
                    0 <= j < pebbles@.len() ==> (#[trigger] pebbles@[j])@ == iterate_hash(
                        secret@,
                        (j * sample_interval + 1) as nat,
                    ),
            decreases length - done,
        {
            current = keccak256(current.as_slice());
            if done == 0 || since == sample_interval {
                proof {
                    let n = pebbles@.len() as int;
                    let k = sample_interval as int;
                    assert(n * k == (n - 1) * k + k) by (nonlinear_arith);
                    assert(n >= 0 && k >= 1 ==> n * k >= 0) by (nonlinear_arith);
                }
                pebbles.push(current);
                since = 1;
            } else {
                since = since + 1;
            }
            done = done + 1;
        }
        proof {
            if length > 0 {
                let n = pebbles@.len() as int;
                let k = sample_interval as int;
                vstd::arithmetic::div_mod::lemma_fundamental_div_mod_converse(
                    length - 1,
                    k,
                    n - 1,
                    since - 1,
                );
            }
        }
        let chain = PebbleHashChain { seed: secret, length, sample_interval, pebbles };
        assert(chain.pebbles().len() == pebble_count(length as nat, sample_interval as nat));
        chain
    }

    /// The number of elements in the chain.
    pub fn len(&self) -> (n: usize)
        ensures
            n == self.spec_len(),
    {
        self.length
    }

    /// Whether the chain has no element.
    pub fn is_empty(&self) -> (empty: bool)
        ensures
            empty == (self.spec_len() == 0),
    {
        self.length == 0
    }

    /// The distance between two pebbles.
    pub fn sample_interval(&self) -> (k: usize)
        ensures
            k == self.stride(),
    {
        self.sample_interval
    }

    /// Element `i` of the chain, derived from the nearest pebble with fewer
    /// than `stride` hashes; `ChainExhausted` from the length on.
    pub fn reveal_ith(&self, i: usize) -> (revealed: Result<[u8; 32], EntropyError>)
        ensures
            i < self.spec_len() ==> revealed.is_ok() && revealed.unwrap()@ == chain_element(
                self.seed(),
                self.spec_len(),
                i as nat,
            ),
            i < self.spec_len() ==> revealed.unwrap()@ == self.pebbled_value(i as nat),
            i >= self.spec_len() ==> revealed == Err::<[u8; 32], EntropyError>(
                EntropyError::ChainExhausted,
            ),
    {
        proof {
            use_type_invariant(self);
        }
        if i >= self.length {
            return Err(EntropyError::ChainExhausted);
        }
        let steps: usize = self.length - 1 - i;
        let j: usize = steps / self.sample_interval;
        proof {
            let k = self.sample_interval as int;
            vstd::arithmetic::div_mod::lemma_div_is_ordered(steps as int, self.length - 1, k);
            vstd::arithmetic::div_mod::lemma_fundamental_div_mod(steps as int, k);
            vstd::arithmetic::div_mod::lemma_mod_bound(steps as int, k);
            assert(k * (steps as int / k) == (steps as int / k) * k) by (nonlinear_arith);
            assert(self.pebbles()[j as int] == self.pebbles@[j as int]@);
        }
        let remaining: usize = steps - j * self.sample_interval;
        let mut value: [u8; 32] = self.pebbles[j];
        let mut hashed: usize = 0;
        while hashed < remaining
            invariant
                hashed <= remaining,
                value@ == iterate_hash(self.pebbles@[j as int]@, hashed as nat),
            decreases remaining - hashed,
        {
            value = keccak256(value.as_slice());
            hashed = hashed + 1;
        }
        proof {
            lemma_iterate_hash_add(
                self.seed(),
                (j * self.sample_interval + 1) as nat,
                remaining as nat,
            );
        }
        Ok(value)
    }

    /// Element `sequence` of the chain, for callers that count in `u64`.
    pub fn reveal_sequence(&self, sequence: u64) -> (revealed: Result<[u8; 32], EntropyError>)
        ensures
            sequence < self.spec_len() ==> revealed.is_ok() && revealed.unwrap()@
                == chain_element(self.seed(), self.spec_len(), sequence as nat),
            sequence >= self.spec_len() ==> revealed == Err::<[u8; 32], EntropyError>(
                EntropyError::ChainExhausted,
            ),
    {
        if sequence > usize::MAX as u64 {
            return Err(EntropyError::ChainExhausted);
        }
        self.reveal_ith(sequence as usize)
    }

    /// The whole chain, every element held: element `i` at position `i`.
    pub fn materialize(secret: [u8; 32], length: usize) -> (chain: Vec<[u8; 32]>)
        ensures
            chain@.len() == length,
            forall|i: int|
                0 <= i < length ==> (#[trigger] chain@[i])@ == materialized_chain(
                    secret@,
                    length as nat,
                )[i],
    {
        let mut forward: Vec<[u8; 32]> = Vec::new();
        let mut current: [u8; 32] = secret;
        let mut done: usize = 0;
        while done < length
            invariant
                done <= length,
                forward@.len() == done,
                current@ == iterate_hash(secret@, done as nat),
                forall|j: int|
                    0 <= j < done ==> (#[trigger] forward@[j])@ == iterate_hash(
                        secret@,
                        (j + 1) as nat,
                    ),
            decreases length - done,
        {
            current = keccak256(current.as_slice());
            forward.push(current);
            done = done + 1;
        }
        let mut chain: Vec<[u8; 32]> = Vec::new();
        let mut i: usize = 0;
        while i < length
            invariant
                i <= length,
                forward@.len() == length,
                chain@.len() == i,
                forall|j: int|
                    0 <= j < length ==> (#[trigger] forward@[j])@ == iterate_hash(
                        secret@,
                        (j + 1) as nat,
                    ),
                forall|j: int|
                    0 <= j < i ==> (#[trigger] chain@[j])@ == chain_element(
                        secret@,
                        length as nat,
                        j as nat,
                    ),
            decreases length - i,
        {
            chain.push(forward[length - 1 - i]);
            i = i + 1;
        }
        chain
    }
}

/// Revealing through the pebbles gives the element that the fully held chain
/// has at the same index.
pub proof fn lemma_pebbled_matches_materialized(chain: PebbleHashChain, i: nat)
    requires
        chain.wf(),
        i < chain.spec_len(),
    ensures
        chain.pebbled_value(i) == materialized_chain(chain.seed(), chain.spec_len())[i as int],
        chain.pebbled_value(i) == chain_element(chain.seed(), chain.spec_len(), i),
{
    let k = chain.stride() as int;
    let steps = chain.spec_len() - 1 - i;
    let j = steps / k;
    vstd::arithmetic::div_mod::lemma_div_is_ordered(steps, chain.spec_len() - 1, k);
    vstd::arithmetic::div_mod::lemma_fundamental_div_mod(steps, k);
    vstd::arithmetic::div_mod::lemma_mod_bound(steps, k);
    vstd::arithmetic::div_mod::lemma_div_pos_is_pos(steps, k);
    assert(k * j == j * k) by (nonlinear_arith);
    assert(chain.pebbles()[j] == iterate_hash(chain.seed(), (j * k + 1) as nat));
    lemma_iterate_hash_add(chain.seed(), (j * k + 1) as nat, (steps - j * k) as nat);
}

/// Deriving an element from its nearest pebble takes fewer hashes than the
/// stride, however long the chain is.
pub proof fn lemma_fewer_hashes_than_stride(chain: PebbleHashChain, i: nat)
    requires
        chain.wf(),
        i < chain.spec_len(),
    ensures
        chain.hashes_from_pebble(i) < chain.stride(),
{
    let k = chain.stride() as int;
    let steps = chain.spec_len() - 1 - i;
    vstd::arithmetic::div_mod::lemma_fundamental_div_mod(steps, k);
    vstd::arithmetic::div_mod::lemma_mod_bound(steps, k);
    assert(k * (steps / k) == (steps / k) * k) by (nonlinear_arith);
}

/// Every element of the chain is the digest of the element after it.
pub proof fn lemma_digest_of_next_is_previous(seed: Seq<u8>, length: nat, i: nat)
    requires
        i + 1 < length,
    ensures
        keccak256_spec(chain_element(seed, length, i + 1)) == chain_element(seed, length, i),
{
}

/// Two chains grown from the same seed to the same length reveal the same
/// element at every index, whatever their strides.
pub proof fn lemma_stride_does_not_matter(a: PebbleHashChain, b: PebbleHashChain, i: nat)
    requires
        a.wf(),
        b.wf(),
        a.seed() == b.seed(),
        a.spec_len() == b.spec_len(),
        i < a.spec_len(),
    ensures
        a.pebbled_value(i) == b.pebbled_value(i),
{
    lemma_pebbled_matches_materialized(a, i);
    lemma_pebbled_matches_materialized(b, i);
}

} // verus!
