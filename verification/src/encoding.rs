//! Trusted boundary to the outside encoding and hashing crates, to
//! `String::from_utf8`, and to the system clock. Everything else in the
//! library is verified against the contracts stated here.

use vstd::prelude::*;
use vstd::string::StringSliceAdditionalSpecFns;
use vstd::utf8::is_ascii_chars;
use vstd::utf8::valid_utf8;
use vstd::utf8::encode_utf8;

verus! {

/// The text that `data_encoding::BASE64` produces for the given data.
pub uninterp spec fn base64_chars_of(data: Seq<u8>) -> Seq<char>;

/// What `data_encoding::BASE64` decodes the given text to: `None` exactly
/// when the text is not canonical padded base64.
pub uninterp spec fn base64_decoded(text: Seq<char>) -> Option<Seq<u8>>;

/// The SHA-256 digest of the given bytes.
pub uninterp spec fn sha256_of(data: Seq<u8>) -> Seq<u8>;

/// Number of `=` padding characters base64 appends for `n` bytes of data.
pub open spec fn base64_pad_len(n: int) -> int {
    if n % 3 == 1 {
        2
    } else if n % 3 == 2 {
        1
    } else {
        0
    }
}

/// Relies on data_encoding::BASE64.encode: padded RFC 4648 base64, a
/// function of the input alone. The output is 4·⌈n/3⌉ characters from the
/// 64-symbol ASCII alphabet followed by the documented amount of `=`
/// padding, and decoding it gives back the input. The length bound keeps
/// the call below the crate's documented panic threshold.
#[verifier::external_body]
pub fn base64_encode(data: &[u8]) -> (r: String)
    requires
        data@.len() <= usize::MAX / 512,
    ensures
        r@ == base64_chars_of(data@),
        r@.len() == 4 * ((data@.len() + 2) / 3),
        is_ascii_chars(r@),
        forall|i: int|
            0 <= i < r@.len() - base64_pad_len(data@.len() as int) ==> r@[i] != '=',
        forall|i: int|
            r@.len() - base64_pad_len(data@.len() as int) <= i < r@.len() ==> r@[i] == '=',
        base64_decoded(r@) == Some(data@),
{
    data_encoding::BASE64.encode(data)
}

/// Relies on data_encoding::BASE64.decode: succeeds exactly on canonical
/// padded base64 text and returns the bytes it encodes. The length bound
/// keeps the call below the crate's documented panic threshold.
#[verifier::external_body]
pub fn base64_decode(input: &str) -> (r: Result<Vec<u8>, data_encoding::DecodeError>)
    requires
        input.spec_bytes().len() <= usize::MAX / 8,
    ensures
        r is Ok <==> base64_decoded(input@) is Some,
        r is Ok ==> r.unwrap()@ == base64_decoded(input@).unwrap(),
{
    data_encoding::BASE64.decode(input.as_bytes())
}

/// Relies on hmac_sha256::Hash::hash: the 32-byte SHA-256 digest, a
/// function of the input bytes alone.
#[verifier::external_body]
pub(crate) fn sha256(data: &[u8]) -> (r: Vec<u8>)
    ensures
        r@ == sha256_of(data@),
        r@.len() == 32,
{
    hmac_sha256::Hash::hash(data).to_vec()
}

/// Relies on String::from_utf8: bytes that are valid UTF-8 become the
/// string they encode.
#[verifier::external_body]
pub(crate) fn string_from_utf8(v: Vec<u8>) -> (r: String)
    requires
        valid_utf8(v@),
    ensures
        encode_utf8(r@) == v@,
{
    String::from_utf8(v).unwrap_or_default()
}

/// Relies on std::time::SystemTime::now: the wall clock, read as whole
/// seconds since the Unix epoch, degrading to 0 when the clock cannot be
/// read or reads before the epoch. Nothing is promised of the value.
#[verifier::external_body]
pub(crate) fn unix_time_seconds() -> (r: u64) {
    match std::time::SystemTime::now().duration_since(std::time::UNIX_EPOCH) {
        Ok(d) => d.as_secs(),
        Err(_) => 0,
    }
}

} // verus!
