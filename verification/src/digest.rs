use vstd::prelude::*;

verus! {

/// The Keccak-256 digest of a byte string, as a function of the bytes alone.
pub uninterp spec fn keccak256_spec(data: Seq<u8>) -> Seq<u8>;

/// Calls `sha3::Keccak256::digest` (the `Digest::digest` one-shot function)
/// on `data` and copies the 32 output bytes into an array. Trusted: the
/// output is the Keccak-256 digest of exactly the bytes of `data`.
#[verifier::external_body]
pub(crate) fn keccak256(data: &[u8]) -> (out: [u8; 32])
    ensures
        out@ == keccak256_spec(data@),
{
    let hashed = <sha3::Keccak256 as sha3::Digest>::digest(data);
    hashed.into()
}

/// The digest of a byte string of any length.
pub fn digest_of_bytes(data: &[u8]) -> (out: [u8; 32])
    ensures
        out@ == keccak256_spec(data@),
{
    keccak256(data)
}

/// The digest of a 32-byte value.
pub fn digest_of(value: &[u8; 32]) -> (out: [u8; 32])
    ensures
        out@ == keccak256_spec(value@),
{
    keccak256(value.as_slice())
}

/// Whether two 32-byte values hold the same bytes.
pub fn digests_equal(a: &[u8; 32], b: &[u8; 32]) -> (same: bool)
    ensures
        same == (a@ == b@),
{
    let mut i: usize = 0;
    while i < 32
        invariant
            i <= 32,
            forall|j: int| 0 <= j < i ==> a@[j] == b@[j],
        decreases 32 - i,
    {
        if a[i] != b[i] {
            return false;
        }
        i += 1;
    }
    assert(a@ =~= b@);
    true
}

/// The 64 bytes made of `first` followed by `second`.
pub fn concat_digests(first: &[u8; 32], second: &[u8; 32]) -> (joined: Vec<u8>)
    ensures
        joined@ == first@ + second@,
{
    let mut joined: Vec<u8> = Vec::new();
    let mut i: usize = 0;
    while i < 32
        invariant
            i <= 32,
            joined@ == first@.subrange(0, i as int),
        decreases 32 - i,
    {
        joined.push(first[i]);
        assert(joined@ =~= first@.subrange(0, i + 1));
        i += 1;
    }
    assert(joined@ =~= first@);
    let mut k: usize = 0;
    while k < 32
        invariant
            k <= 32,
            joined@ == first@ + second@.subrange(0, k as int),
        decreases 32 - k,
    {
        joined.push(second[k]);
        assert(joined@ =~= first@ + second@.subrange(0, k + 1));
        k += 1;
    }
    assert(joined@ =~= first@ + second@);
    joined
}

/// The value that a user's secret and a provider's revelation combine to:
/// the digest of the secret's bytes followed by the revelation's.
pub open spec fn combined_spec(user_secret: Seq<u8>, provider_revelation: Seq<u8>) -> Seq<u8> {
    keccak256_spec(user_secret + provider_revelation)
}

/// Combines a user's secret with a provider's revelation, in that order.
pub fn combine(user_secret: &[u8; 32], provider_revelation: &[u8; 32]) -> (out: [u8; 32])
    ensures
        out@ == combined_spec(user_secret@, provider_revelation@),
{
    let joined = concat_digests(user_secret, provider_revelation);
    keccak256(joined.as_slice())
}

} // verus!
