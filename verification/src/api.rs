use vstd::prelude::*;
use crate::error::EntropyError;
use crate::hash_chain::chain_element;
use crate::registry::{ChainRegistry, ChainState};

verus! {

/// The hexadecimal digit, in lower case, of a number below 16.
pub open spec fn hex_digit(n: int) -> char {
    seq!['0', '1', '2', '3', '4', '5', '6', '7', '8', '9', 'a', 'b', 'c', 'd', 'e', 'f'][n]
}

/// Bytes written in hexadecimal: two lower-case digits for each byte, the
/// high half first.
pub open spec fn hex_encode_spec(bytes: Seq<u8>) -> Seq<char> {
    Seq::new(
        2 * bytes.len(),
        |i: int|
            if i % 2 == 0 {
                hex_digit(bytes[i / 2] as int / 16)
            } else {
                hex_digit(bytes[i / 2] as int % 16)
            },
    )
}

/// The number that a hexadecimal digit of either case stands for.
pub open spec fn hex_value(c: char) -> Option<int> {
    let code = c as int;
    if 48 <= code <= 57 {
        Some(code - 48)
    } else if 97 <= code <= 102 {
        Some(code - 97 + 10)
    } else if 65 <= code <= 70 {
        Some(code - 65 + 10)
    } else {
        None
    }
}

/// Whether the text is 64 hexadecimal digits.
pub open spec fn is_hex_32(text: Seq<char>) -> bool {
    &&& text.len() == 64
    &&& forall|i: int| 0 <= i < text.len() ==> (#[trigger] hex_value(text[i])).is_some()
}

/// The 32 bytes that 64 hexadecimal digits stand for.
pub open spec fn hex_decode_spec(text: Seq<char>) -> Seq<u8> {
    Seq::new(
        32,
        |i: int| (hex_value(text[2 * i]).unwrap() * 16 + hex_value(text[2 * i + 1]).unwrap()) as u8,
    )
}

/// Whether the text begins with the pattern.
pub open spec fn starts_with(text: Seq<char>, pattern: Seq<char>) -> bool {
    pattern.len() <= text.len() && text.subrange(0, pattern.len() as int) == pattern
}

/// The text without the pattern at its start, however often it is repeated
/// there.
pub open spec fn without_leading(text: Seq<char>, pattern: Seq<char>) -> Seq<char>
    decreases text.len(),
{
    if pattern.len() > 0 && starts_with(text, pattern) {
        without_leading(text.skip(pattern.len() as int), pattern)
    } else {
        text
    }
}

/// The text without any `0x` at its start.
pub open spec fn without_hex_prefix(text: Seq<char>) -> Seq<char> {
    without_leading(text, seq!['0', 'x'])
}

/// The standard padded base64 text of a byte string.
pub uninterp spec fn base64_spec(bytes: Seq<u8>) -> Seq<char>;

/// The bytes that a standard padded base64 text stands for, if it is one.
pub uninterp spec fn base64_decode_spec(text: Seq<char>) -> Option<Seq<u8>>;

/// `hex::FromHexError`, the error of `hex::decode_to_slice`: carried from
/// the call to the place that turns it into an error of this library, and
/// never looked into.
#[verifier::external_type_specification]
#[verifier::external_body]
pub struct ExFromHexError(hex::FromHexError);

/// `base64::DecodeError`, the error of the base64 engine's `decode`:
/// carried through in the same way.
#[verifier::external_type_specification]
#[verifier::external_body]
pub struct ExDecodeError(base64::DecodeError);

/// Calls `hex::encode`. Trusted: the text holds two lower-case hexadecimal
/// digits for each byte, in order, the high half of the byte first.
#[verifier::external_body]
fn hex_encode(bytes: &[u8; 32]) -> (text: String)
    ensures
        text@ == hex_encode_spec(bytes@),
{
    hex::encode(bytes)
}

/// Calls `hex::decode_to_slice` with a buffer of 32 bytes. Trusted: it
/// succeeds exactly on 64 hexadecimal digits of either case, and then each
/// byte is sixteen times the first digit of its pair plus the second.
#[verifier::external_body]
fn hex_decode_32(text: &str) -> (decoded: Result<[u8; 32], hex::FromHexError>)
    ensures
        decoded.is_ok() <==> is_hex_32(text@),
        decoded.is_ok() ==> decoded.unwrap()@ == hex_decode_spec(text@),
{
    let mut bytes = [0u8; 32];
    match hex::decode_to_slice(text, &mut bytes) {
        Ok(()) => Ok(bytes),
        Err(e) => Err(e),
    }
}

/// Calls `str::trim_start_matches`. Trusted: the result is the text after
/// every leading repetition of the pattern.
#[verifier::external_body]
fn trim_start_matches<'a>(text: &'a str, pattern: &str) -> (rest: &'a str)
    requires
        pattern@.len() > 0,
    ensures
        rest@ == without_leading(text@, pattern@),
{
    text.trim_start_matches(pattern)
}

/// Calls `encode` of `base64::engine::general_purpose::STANDARD`. Trusted:
/// the text depends on the bytes alone, and it is text that the same
/// engine's `decode` reads back as those bytes.
#[verifier::external_body]
fn base64_encode(bytes: &[u8; 32]) -> (text: String)
    ensures
        text@ == base64_spec(bytes@),
        base64_decode_spec(text@) == Some(bytes@),
{
    base64::Engine::encode(&base64::engine::general_purpose::STANDARD, bytes)
}

/// Calls `decode` of `base64::engine::general_purpose::STANDARD`. Trusted:
/// whether it succeeds, and the bytes it gives, depend on the text alone.
#[verifier::external_body]
fn base64_decode(text: &str) -> (decoded: Result<Vec<u8>, base64::DecodeError>)
    ensures
        decoded.is_ok() <==> base64_decode_spec(text@).is_some(),
        decoded.is_ok() ==> base64_decode_spec(text@) == Some(decoded.unwrap()@),
{
    base64::Engine::decode(&base64::engine::general_purpose::STANDARD, text)
}

/// The ways in which a 32-byte value can be written in a response.
#[derive(Clone, Copy, Debug, PartialEq, Eq, Structural)]
pub enum BinaryEncoding {
    Hex,
    Base64,
    Array,
}

/// A 32-byte value written in one of the encodings.
#[derive(Debug)]
#[allow(inconsistent_fields)]
pub enum Blob {
    Hex { data: String },
    Base64 { data: String },
    Array { data: [u8; 32] },
}

/// Whether the blob is the given bytes written in the given encoding.
pub open spec fn blob_encodes(blob: Blob, encoding: BinaryEncoding, bytes: Seq<u8>) -> bool {
    match encoding {
        BinaryEncoding::Hex => blob is Hex && blob->Hex_data@ == hex_encode_spec(bytes),
        BinaryEncoding::Base64 => {
            &&& blob is Base64
            &&& blob->Base64_data@ == base64_spec(bytes)
            &&& base64_decode_spec(blob->Base64_data@) == Some(bytes)
        },
        BinaryEncoding::Array => blob is Array && blob->Array_data@ == bytes,
    }
}

/// The 32 bytes that a blob stands for, if it stands for any: hexadecimal
/// text may begin with `0x`, and base64 text must decode to 32 bytes.
pub open spec fn blob_bytes(blob: Blob) -> Option<Seq<u8>> {
    match blob {
        Blob::Hex { data } => {
            let digits = without_hex_prefix(data@);
            if is_hex_32(digits) {
                Some(hex_decode_spec(digits))
            } else {
                None
            }
        },
        Blob::Base64 { data } => bytes_if_32(base64_decode_spec(data@)),
        Blob::Array { data } => Some(data@),
    }
}

/// The decoded bytes where there are exactly 32 of them.
pub open spec fn bytes_if_32(decoded: Option<Seq<u8>>) -> Option<Seq<u8>> {
    match decoded {
        Some(bytes) => if bytes.len() == 32 {
            Some(bytes)
        } else {
            None
        },
        None => None,
    }
}

/// The 32 bytes of `bytes` as an array, where there are exactly 32.
pub fn to_bytes32(bytes: &Vec<u8>) -> (array: Option<[u8; 32]>)
    ensures
        array.is_some() == (bytes@.len() == 32),
        array.is_some() ==> array.unwrap()@ == bytes@,
{
    if bytes.len() != 32 {
        return None;
    }
    let mut array: [u8; 32] = [0u8; 32];
    let mut i: usize = 0;
    while i < 32
        invariant
            i <= 32,
            bytes@.len() == 32,
            forall|j: int| 0 <= j < i ==> array@[j] == bytes@[j],
        decreases 32 - i,
    {
        array[i] = bytes[i];
        i = i + 1;
    }
    assert(array@ =~= bytes@);
    Some(array)
}

/// Reads 32 bytes from 64 hexadecimal digits of either case;
/// `InternalUnknown` for any other text.
pub fn bytes32_from_hex(text: &str) -> (bytes: Result<[u8; 32], EntropyError>)
    ensures
        is_hex_32(text@) ==> bytes.is_ok() && bytes.unwrap()@ == hex_decode_spec(text@),
        !is_hex_32(text@) ==> bytes == Err::<[u8; 32], EntropyError>(
            EntropyError::InternalUnknown,
        ),
{
    match hex_decode_32(text) {
        Ok(bytes) => Ok(bytes),
        Err(_) => Err(EntropyError::InternalUnknown),
    }
}

impl Blob {
    /// Writes `bytes` in the given encoding.
    pub fn new(encoding: BinaryEncoding, bytes: [u8; 32]) -> (blob: Blob)
        ensures
            blob_encodes(blob, encoding, bytes@),
    {
        match encoding {
            BinaryEncoding::Hex => Blob::Hex { data: hex_encode(&bytes) },
            BinaryEncoding::Base64 => Blob::Base64 { data: base64_encode(&bytes) },
            BinaryEncoding::Array => Blob::Array { data: bytes },
        }
    }

    /// Reads the 32 bytes back; `InternalUnknown` where the blob does not
    /// hold 32 bytes in its encoding.
    pub fn into_bytes32(self) -> (bytes: Result<[u8; 32], EntropyError>)
        ensures
            match blob_bytes(self) {
                Some(b) => bytes.is_ok() && bytes.unwrap()@ == b,
                None => bytes == Err::<[u8; 32], EntropyError>(EntropyError::InternalUnknown),
            },
    {
        match self {
            Blob::Hex { data } => {
                proof {
                    reveal_strlit("0x");
                    assert("0x"@ =~= seq!['0', 'x']);
                }
                bytes32_from_hex(trim_start_matches(data.as_str(), "0x"))
            },
            Blob::Base64 { data } => {
                match base64_decode(data.as_str()) {
                    Ok(decoded) => match to_bytes32(&decoded) {
                        Some(bytes) => Ok(bytes),
                        None => Err(EntropyError::InternalUnknown),
                    },
                    Err(_) => Err(EntropyError::InternalUnknown),
                }
            },
            Blob::Array { data } => Ok(data),
        }
    }
}

/// The answer to a question for a provider's commitment.
#[derive(Debug)]
pub struct GetCommitmentResponse {
    pub commitment: String,
}

/// The answer to a question for a revealed value.
#[derive(Debug)]
pub struct GetRandomValueResponse {
    pub value: Blob,
}

/// What a caller may choose about the answer to a revelation.
#[derive(Debug, Clone, Copy)]
pub struct MockRevelationQueryParams {
    pub encoding: Option<BinaryEncoding>,
}

/// The encoding that a caller gets: the one asked for, hexadecimal where
/// none is.
pub open spec fn chosen_encoding(params: MockRevelationQueryParams) -> BinaryEncoding {
    match params.encoding {
        Some(encoding) => encoding,
        None => BinaryEncoding::Hex,
    }
}

/// The provider's commitment for a chain: element 0 of its hash chain, in
/// hexadecimal. An unknown identifier is `InvalidChainId`; a chain that is
/// not built, or has no element, is `Uninitialized`.
pub fn commitment(registry: &ChainRegistry, chain_id: &str) -> (response: Result<
    GetCommitmentResponse,
    EntropyError,
>)
    requires
        registry.wf(),
    ensures
        !registry@.dom().contains(chain_id@) ==> response == Err::<
            GetCommitmentResponse,
            EntropyError,
        >(EntropyError::InvalidChainId),
        registry@.dom().contains(chain_id@) ==> match registry@[chain_id@] {
            ChainState::Uninitialized => response == Err::<GetCommitmentResponse, EntropyError>(
                EntropyError::Uninitialized,
            ),
            ChainState::Initialized(chain) => if chain.spec_len() == 0 {
                response == Err::<GetCommitmentResponse, EntropyError>(
                    EntropyError::Uninitialized,
                )
            } else {
                response.is_ok() && response.unwrap().commitment@ == hex_encode_spec(
                    chain_element(chain.seed(), chain.spec_len(), 0),
                )
            },
        },
{
    let state = match registry.get(chain_id) {
        Ok(state) => state,
        Err(_) => {
            return Err(EntropyError::InvalidChainId);
        },
    };
    let chain = match state {
        ChainState::Initialized(chain) => chain,
        ChainState::Uninitialized => {
            return Err(EntropyError::Uninitialized);
        },
    };
    match chain.reveal_ith(0) {
        Ok(value) => Ok(GetCommitmentResponse { commitment: hex_encode(&value) }),
        Err(_) => Err(EntropyError::Uninitialized),
    }
}

/// Element `sequence` of a chain, written in the encoding asked for. An
/// unknown identifier is `InvalidChainId`, a chain that is not built is
/// `Uninitialized`, an index from the chain's length on is `ChainExhausted`.
pub fn mock_revelation(
    registry: &ChainRegistry,
    chain_id: &str,
    sequence: u64,
    params: MockRevelationQueryParams,
) -> (response: Result<GetRandomValueResponse, EntropyError>)
    requires
        registry.wf(),
    ensures
        !registry@.dom().contains(chain_id@) ==> response == Err::<
            GetRandomValueResponse,
            EntropyError,
        >(EntropyError::InvalidChainId),
        registry@.dom().contains(chain_id@) ==> match registry@[chain_id@] {
            ChainState::Uninitialized => response == Err::<GetRandomValueResponse, EntropyError>(
                EntropyError::Uninitialized,
            ),
            ChainState::Initialized(chain) => if sequence >= chain.spec_len() {
                response == Err::<GetRandomValueResponse, EntropyError>(
                    EntropyError::ChainExhausted,
                )
            } else {
                response.is_ok() && blob_encodes(
                    response.unwrap().value,
                    chosen_encoding(params),
                    chain_element(chain.seed(), chain.spec_len(), sequence as nat),
                )
            },
        },
{
    let state = match registry.get(chain_id) {
        Ok(state) => state,
        Err(_) => {
            return Err(EntropyError::InvalidChainId);
        },
    };
    let chain = match state {
        ChainState::Initialized(chain) => chain,
        ChainState::Uninitialized => {
            return Err(EntropyError::Uninitialized);
        },
    };
    let value = match chain.reveal_sequence(sequence) {
        Ok(value) => value,
        Err(_) => {
            return Err(EntropyError::ChainExhausted);
        },
    };
    let encoding = match params.encoding {
        Some(encoding) => encoding,
        None => BinaryEncoding::Hex,
    };
    Ok(GetRandomValueResponse { value: Blob::new(encoding, value) })
}

/// Each hexadecimal digit stands for the number it was written for.
pub proof fn lemma_hex_digit_value(n: int)
    requires
        0 <= n < 16,
    ensures
        hex_value(hex_digit(n)) == Some(n),
{
    let digits = seq![
        '0',
        '1',
        '2',
        '3',
        '4',
        '5',
        '6',
        '7',
        '8',
        '9',
        'a',
        'b',
        'c',
        'd',
        'e',
        'f',
    ];
    assert(digits[0] == '0' && digits[1] == '1' && digits[2] == '2' && digits[3] == '3');
    assert(digits[4] == '4' && digits[5] == '5' && digits[6] == '6' && digits[7] == '7');
    assert(digits[8] == '8' && digits[9] == '9' && digits[10] == 'a' && digits[11] == 'b');
    assert(digits[12] == 'c' && digits[13] == 'd' && digits[14] == 'e' && digits[15] == 'f');
}

/// Thirty-two bytes written in hexadecimal are 64 digits that do not begin
/// with `0x` and that read back as the same bytes.
pub proof fn lemma_hex_round_trip(bytes: Seq<u8>)
    requires
        bytes.len() == 32,
    ensures
        is_hex_32(hex_encode_spec(bytes)),
        without_hex_prefix(hex_encode_spec(bytes)) == hex_encode_spec(bytes),
        hex_decode_spec(hex_encode_spec(bytes)) == bytes,
{
    let text = hex_encode_spec(bytes);
    assert forall|i: int| 0 <= i < text.len() implies (#[trigger] hex_value(text[i])).is_some() by {
        lemma_hex_digit_value(bytes[i / 2] as int / 16);
        lemma_hex_digit_value(bytes[i / 2] as int % 16);
    }
    lemma_hex_digit_value(bytes[0] as int % 16);
    assert(text[1] == hex_digit(bytes[0] as int % 16));
    assert(text[1] != 'x');
    assert(text.subrange(0, 2)[1] == text[1]);
    assert(seq!['0', 'x'][1] == 'x');
    assert forall|i: int| 0 <= i < 32 implies hex_decode_spec(text)[i] == bytes[i] by {
        lemma_hex_digit_value(bytes[i] as int / 16);
        lemma_hex_digit_value(bytes[i] as int % 16);
        assert(text[2 * i] == hex_digit(bytes[i] as int / 16));
        assert(text[2 * i + 1] == hex_digit(bytes[i] as int % 16));
    }
    assert(hex_decode_spec(text) =~= bytes);
}

/// A blob stands for the bytes it was written from, in every encoding.
pub proof fn lemma_blob_round_trip(blob: Blob, encoding: BinaryEncoding, bytes: Seq<u8>)
    requires
        bytes.len() == 32,
        blob_encodes(blob, encoding, bytes),
    ensures
        blob_bytes(blob) == Some(bytes),
{
    lemma_hex_round_trip(bytes);
}

} // verus!
