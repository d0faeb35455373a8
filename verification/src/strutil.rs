//! Slicing text by byte positions: character-boundary lemmas and an owned
//! substring helper, built on vstd's UTF-8 theory.

use vstd::prelude::*;
use vstd::string::StringSliceAdditionalSpecFns;
use vstd::utf8::encode_utf8;
use vstd::utf8::is_char_boundary;
use vstd::utf8::is_continuation_byte;
use vstd::utf8::is_leading_byte_width_1;
use vstd::utf8::length_of_first_scalar;
use vstd::utf8::pop_first_scalar;
use vstd::utf8::valid_first_scalar;
use vstd::utf8::valid_utf8;

verus! {

/// In valid UTF-8, the position after an ASCII byte that sits on a
/// character boundary is itself on a character boundary.
pub proof fn lemma_boundary_after_ascii(bytes: Seq<u8>, i: int)
    requires
        valid_utf8(bytes),
        0 <= i < bytes.len(),
        bytes[i] < 128,
        is_char_boundary(bytes, i),
    ensures
        is_char_boundary(bytes, i + 1),
{
    broadcast use vstd::utf8::valid_utf8_split;
    broadcast use vstd::utf8::is_char_boundary_start_end_of_seq;
    broadcast use vstd::utf8::is_char_boundary_iff_not_is_continuation_byte;

    let right = bytes.subrange(i, bytes.len() as int);
    assert(valid_utf8(right));
    assert(right.len() > 0 && right[0] == bytes[i]);
    assert(is_leading_byte_width_1(right[0]));
    assert(valid_first_scalar(right));
    assert(length_of_first_scalar(right) == 1);
    if i + 1 < bytes.len() {
        let rest = pop_first_scalar(right);
        assert(valid_utf8(rest));
        assert(rest =~= bytes.subrange(i + 1, bytes.len() as int));
        assert(rest.len() > 0 && rest[0] == bytes[i + 1]);
        assert(valid_first_scalar(rest));
        assert(!is_continuation_byte(bytes[i + 1]));
        assert(is_char_boundary(bytes, i + 1));
    } else {
        assert(is_char_boundary(bytes, bytes.len() as int));
    }
}

/// A sequence of bytes all below 128 is valid UTF-8.
pub proof fn lemma_ascii_bytes_valid(bytes: Seq<u8>)
    requires
        forall|i: int| 0 <= i < bytes.len() ==> bytes[i] < 128,
    ensures
        valid_utf8(bytes),
    decreases bytes.len(),
{
    if bytes.len() > 0 {
        assert(is_leading_byte_width_1(bytes[0]));
        let b0 = bytes[0];
        assert((b0 & 0x7f) == b0) by (bit_vector)
            requires
                b0 < 128,
        ;
        assert(valid_first_scalar(bytes));
        assert(length_of_first_scalar(bytes) == 1);
        let rest = pop_first_scalar(bytes);
        assert(rest =~= bytes.subrange(1, bytes.len() as int));
        lemma_ascii_bytes_valid(rest);
    }
}

/// Returns `s[start..end]` as an owned string, given byte bounds that lie
/// on character boundaries.
pub fn substr(s: &str, start: usize, end: usize) -> (r: String)
    requires
        start <= end <= s.spec_bytes().len(),
        is_char_boundary(s.spec_bytes(), start as int),
        is_char_boundary(s.spec_bytes(), end as int),
    ensures
        encode_utf8(r@) == s.spec_bytes().subrange(start as int, end as int),
{
    proof {
        broadcast use vstd::utf8::encode_utf8_valid_utf8;

        assert(valid_utf8(s.spec_bytes()));
    }
    let (_, right) = s.split_at(start);
    proof {
        broadcast use vstd::utf8::valid_utf8_split;
        broadcast use vstd::utf8::is_char_boundary_start_end_of_seq;
        broadcast use vstd::utf8::is_char_boundary_iff_not_is_continuation_byte;
        broadcast use vstd::utf8::encode_utf8_valid_utf8;

        let bytes = s.spec_bytes();
        let rb = right.spec_bytes();
        assert(rb =~= bytes.subrange(start as int, bytes.len() as int));
        assert(valid_utf8(bytes.subrange(start as int, bytes.len() as int)));
        if (end as int) < bytes.len() {
            assert(!is_continuation_byte(bytes[end as int]));
            assert(rb[end - start] == bytes[end as int]);
            assert(is_char_boundary(rb, end - start));
        } else {
            assert(end - start == rb.len());
            assert(is_char_boundary(rb, end - start));
        }
    }
    let (mid, _) = right.split_at(end - start);
    let r = mid.to_owned();
    proof {
        assert(mid.spec_bytes() =~= s.spec_bytes().subrange(start as int, end as int));
        assert(encode_utf8(r@) == mid.spec_bytes());
    }
    r
}

} // verus!
