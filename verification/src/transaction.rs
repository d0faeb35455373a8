//! The client session object: holds the derived key material and produces
//! one transaction token per request.

use vstd::prelude::*;
use vstd::utf8::encode_utf8;
use vstd::utf8::is_ascii_chars;
use vstd::utf8::is_ascii_chars_encode_utf8;
use vstd::utf8::valid_utf8;
use vstd::utf8::is_char_boundary;
use vstd::string::StringSliceAdditionalSpecFns;
use crate::encoding::base64_chars_of;
use crate::encoding::base64_decoded;
use crate::encoding::base64_pad_len;
use crate::encoding::base64_encode;
use crate::encoding::base64_decode;
use crate::encoding::sha256_of;
use crate::encoding::sha256;
use crate::encoding::unix_time_seconds;
use crate::error::Error;

verus! {

/// The platform's reference epoch: 2023-05-01 00:00:00 UTC, in seconds
/// since the Unix epoch.
pub const REFERENCE_EPOCH: u64 = 1682924400;

/// Generates per-request transaction tokens from key material extracted
/// out of the platform's entry page and script bundle.
///
/// `key_bytes` is the decoded site-verification key; `animation_key` is the
/// string derived once from the page's animation data. Both are fixed at
/// construction and reused for every token.
pub struct ClientTransaction {
    pub key_bytes: Vec<u8>,
    pub animation_key: String,
}

/// The four little-endian bytes of a 32-bit time value.
pub open spec fn le4(t: u32) -> Seq<u8> {
    seq![(t & 0xff) as u8, ((t >> 8) & 0xff) as u8, ((t >> 16) & 0xff) as u8, (
    (t >> 24) & 0xff) as u8]
}

/// The decimal digits of `n`, most significant first, as ASCII bytes.
pub open spec fn dec_digits(n: nat) -> Seq<u8>
    decreases n,
{
    if n < 10 {
        seq![(48 + n) as u8]
    } else {
        dec_digits(n / 10).push((48 + n % 10) as u8)
    }
}

/// The hashed text: `{method}!{path}!{time}` followed by the fixed salt and
/// the animation key (33 is `!`).
pub open spec fn spec_hash_input(method: Seq<u8>, path: Seq<u8>, time: u32, anim: Seq<u8>) -> Seq<
    u8,
> {
    method + seq![33u8] + path + seq![33u8] + dec_digits(time as nat)
        + "obfiowerehiring".spec_bytes() + anim
}

/// The token payload before masking: key bytes, the time little-endian,
/// the first half of the digest, and the protocol-version byte 3.
pub open spec fn spec_payload(key: Seq<u8>, time: u32, digest: Seq<u8>) -> Seq<u8> {
    key + le4(time) + digest.take(16) + seq![3u8]
}

/// The mask byte followed by every payload byte XORed with it.
pub open spec fn spec_masked(payload: Seq<u8>, mask: u8) -> Seq<u8> {
    seq![mask] + payload.map_values(|b: u8| b ^ mask)
}

/// The finished token text for the given key material, request and time:
/// base64 of the masked payload, with the `=` padding removed.
pub open spec fn spec_transaction_id(
    key: Seq<u8>,
    anim: Seq<u8>,
    method: Seq<u8>,
    path: Seq<u8>,
    time: u32,
) -> Seq<char> {
    let digest = sha256_of(spec_hash_input(method, path, time, anim));
    let encoded = spec_masked(spec_payload(key, time, digest), digest[16]);
    base64_chars_of(encoded).take(
        4 * ((encoded.len() + 2) / 3) - base64_pad_len(encoded.len() as int),
    )
}

/// Appends the decimal rendering of `n` to `out`.
fn push_decimal(n: u32, out: &mut Vec<u8>)
    ensures
        final(out)@ == old(out)@ + dec_digits(n as nat),
    decreases n,
{
    if n < 10 {
        out.push(48 + (n as u8));
        proof {
            assert(out@ =~= old(out)@ + dec_digits(n as nat));
        }
    } else {
        push_decimal(n / 10, out);
        out.push(48 + ((n % 10) as u8));
        proof {
            assert(out@ =~= old(out)@ + dec_digits(n as nat));
        }
    }
}

impl ClientTransaction {
    /// Creates a client from already-derived key material: the decoded
    /// verification key and the animation key replayed from the page's
    /// animation data.
    pub fn new(key_bytes: Vec<u8>, animation_key: String) -> (r: Self)
        ensures
            r.key_bytes@ == key_bytes@,
            r.animation_key@ == animation_key@,
    {
        ClientTransaction { key_bytes, animation_key }
    }

    /// Decodes the base64 site-verification key into key bytes.
    pub fn decode_key(key: &str) -> (r: Result<Vec<u8>, Error>)
        requires
            key.spec_bytes().len() <= usize::MAX / 8,
        ensures
            r is Ok <==> base64_decoded(key@) is Some,
            r is Ok ==> r.unwrap()@ == base64_decoded(key@).unwrap(),
            r is Err ==> r.unwrap_err() is Base64,
    {
        match base64_decode(key) {
            Ok(v) => Ok(v),
            Err(e) => Err(Error::from(e)),
        }
    }

    /// Seconds since [`REFERENCE_EPOCH`], saturating to 0 before it and
    /// truncated to 32 bits (which overflows only in the 22nd century).
    fn current_time() -> u32 {
        let s = unix_time_seconds();
        let d: u64 = if s >= REFERENCE_EPOCH {
            s - REFERENCE_EPOCH
        } else {
            0
        };
        #[verifier::truncate]
        (d as u32)
    }

    /// Generates the transaction token for a request at the current time.
    pub fn generate_transaction_id(&self, method: &str, path: &str) -> (r: String)
        requires
            self.key_bytes@.len() <= usize::MAX / 512 - 32,
        ensures
            exists|t: u32|
                r@ == spec_transaction_id(
                    self.key_bytes@,
                    encode_utf8(self.animation_key@),
                    method.spec_bytes(),
                    path.spec_bytes(),
                    t,
                ),
    {
        let time = Self::current_time();
        let r = self.generate_transaction_id_at(method, path, time);
        proof {
            assert(r@ == spec_transaction_id(
                self.key_bytes@,
                encode_utf8(self.animation_key@),
                method.spec_bytes(),
                path.spec_bytes(),
                time,
            ));
        }
        r
    }

    /// Generates the transaction token for a request at the given time
    /// (seconds since [`REFERENCE_EPOCH`]). Pure: the token is a function
    /// of the key material, the request and the time alone.
    pub fn generate_transaction_id_at(&self, method: &str, path: &str, time: u32) -> (r: String)
        requires
            self.key_bytes@.len() <= usize::MAX / 512 - 32,
        ensures
            r@ == spec_transaction_id(
                self.key_bytes@,
                encode_utf8(self.animation_key@),
                method.spec_bytes(),
                path.spec_bytes(),
                time,
            ),
    {
        let ghost keyg = self.key_bytes@;
        let ghost animg = encode_utf8(self.animation_key@);
        let ghost methodg = method.spec_bytes();
        let ghost pathg = path.spec_bytes();

        // The hashed text.
        let mut input: Vec<u8> = Vec::new();
        input.extend_from_slice(method.as_bytes());
        input.push(33);
        input.extend_from_slice(path.as_bytes());
        input.push(33);
        push_decimal(time, &mut input);
        input.extend_from_slice("obfiowerehiring".as_bytes());
        input.extend_from_slice(self.animation_key.as_str().as_bytes());
        proof {
            assert(input@ =~= spec_hash_input(methodg, pathg, time, animg));
        }

        let digest = sha256(input.as_slice());
        let mask = digest[16];
        let ghost digestg = digest@;

        // The payload: key bytes, time, half the digest, version byte.
        proof {
            assert(time & 0xff < 256 && (time >> 8) & 0xff < 256 && (time >> 16) & 0xff < 256 && (
            time >> 24) & 0xff < 256) by (bit_vector);
        }
        let mut payload: Vec<u8> = Vec::new();
        payload.extend_from_slice(self.key_bytes.as_slice());
        payload.push((time & 0xff) as u8);
        payload.push(((time >> 8) & 0xff) as u8);
        payload.push(((time >> 16) & 0xff) as u8);
        payload.push(((time >> 24) & 0xff) as u8);
        let mut i: usize = 0;
        while i < 16
            invariant
                i <= 16,
                digestg == digest@,
                digestg.len() == 32,
                payload@ == keyg + le4(time) + digestg.subrange(0, i as int),
            decreases 16 - i,
        {
            let b = digest[i];
            payload.push(b);
            proof {
                assert(payload@ =~= keyg + le4(time) + digestg.subrange(0, i + 1));
            }
            i = i + 1;
        }
        payload.push(3);
        proof {
            assert(digestg.subrange(0, 16) =~= digestg.take(16));
            assert(payload@ =~= spec_payload(keyg, time, digestg));
        }

        // Mask every payload byte and prepend the mask.
        let mut encoded: Vec<u8> = Vec::new();
        encoded.push(mask);
        let mut j: usize = 0;
        let plen = payload.len();
        while j < plen
            invariant
                j <= plen,
                plen == payload@.len(),
                encoded@ == seq![digestg[16]] + payload@.subrange(0, j as int).map_values(
                    |b: u8| b ^ digestg[16],
                ),
                mask == digestg[16],
            decreases plen - j,
        {
            let b = payload[j];
            encoded.push(b ^ mask);
            proof {
                assert(payload@.subrange(0, j + 1).map_values(|b: u8| b ^ digestg[16]) =~= payload@
                    .subrange(0, j as int).map_values(|b: u8| b ^ digestg[16]).push(
                    payload@[j as int] ^ digestg[16],
                ));
                assert(encoded@ =~= seq![digestg[16]] + payload@.subrange(0, j + 1).map_values(
                    |b: u8| b ^ digestg[16],
                ));
            }
            j = j + 1;
        }
        proof {
            assert(payload@.subrange(0, plen as int) =~= payload@);
            assert(encoded@ =~= spec_masked(spec_payload(keyg, time, digestg), digestg[16]));
        }

        // Base64, with the padding trimmed.
        let ghost encg = encoded@;
        let n = encoded.len();
        let pad: usize = if n % 3 == 1 {
            2
        } else if n % 3 == 2 {
            1
        } else {
            0
        };
        let token = base64_encode(encoded.as_slice());
        let tok = token.as_str();
        proof {
            broadcast use vstd::utf8::is_ascii_chars_encode_utf8;
            broadcast use vstd::utf8::encode_utf8_valid_utf8;
            broadcast use vstd::utf8::is_char_boundary_iff_not_is_continuation_byte;
            broadcast use vstd::utf8::is_char_boundary_start_end_of_seq;
            broadcast use vstd::utf8::decode_utf8_encode_utf8;

            assert(tok.spec_bytes() =~= Seq::new(tok@.len(), |i: int| tok@[i] as u8));
        }
        let keep = tok.len() - pad;
        proof {
            broadcast use vstd::utf8::encode_utf8_valid_utf8;
            broadcast use vstd::utf8::is_char_boundary_iff_not_is_continuation_byte;
            broadcast use vstd::utf8::is_char_boundary_start_end_of_seq;

            let bytes = tok.spec_bytes();
            assert(valid_utf8(bytes));
            if keep < tok@.len() {
                assert(tok@[keep as int] == '=');
                assert(bytes[keep as int] == 61);
                assert(!vstd::utf8::is_continuation_byte(bytes[keep as int]));
            }
            assert(is_char_boundary(bytes, keep as int));
        }
        let (head, _) = tok.split_at(keep);
        let r = head.to_owned();
        proof {
            broadcast use vstd::utf8::is_ascii_chars_encode_utf8;
            broadcast use vstd::utf8::decode_utf8_encode_utf8;

            let want = tok@.take(keep as int);
            assert(is_ascii_chars(want)) by {
                assert(forall|i: int| 0 <= i < want.len() ==> want[i] == tok@[i]);
            }
            is_ascii_chars_encode_utf8(want);
            assert(encode_utf8(want) =~= Seq::new(want.len(), |i: int| want[i] as u8));
            assert(encode_utf8(want) =~= tok.spec_bytes().subrange(0, keep as int));
            assert(encode_utf8(r@) == encode_utf8(want));
            vstd::utf8::encode_utf8_decode_utf8(r@);
            vstd::utf8::encode_utf8_decode_utf8(want);
            assert(r@ == want);
            assert(r@ == spec_transaction_id(keyg, animg, methodg, pathg, time));
        }
        r
    }
}

} // verus!
