//! Byte-level text scanning: substring search, byte search, whitespace and
//! digit runs, with matching specification functions.
//!
//! The extraction routines of this library work on the UTF-8 bytes of the
//! input text, exactly as the byte offsets returned by `str` searches do.

use vstd::prelude::*;

verus! {

/// The needle `n` occurs in `h` starting at position `i`.
pub open spec fn match_at(h: Seq<u8>, n: Seq<u8>, i: int) -> bool {
    0 <= i && i + n.len() <= h.len() && h.subrange(i, i + n.len() as int) == n
}

/// Position of the first occurrence of `n` in `h` at or after `from`.
pub open spec fn find_from(h: Seq<u8>, n: Seq<u8>, from: int) -> Option<int>
    decreases h.len() - from,
{
    if from < 0 || from + n.len() > h.len() {
        None
    } else if n.len() == 0 || match_at(h, n, from) {
        Some(from)
    } else {
        find_from(h, n, from + 1)
    }
}

/// `find_from` returns the first match: a match at the returned position and
/// none earlier, or no match at all.
pub proof fn lemma_find_from_first(h: Seq<u8>, n: Seq<u8>, from: int)
    requires
        0 <= from,
    ensures
        match find_from(h, n, from) {
            Some(i) => from <= i && match_at(h, n, i) && (forall|j: int|
                from <= j < i ==> !match_at(h, n, j)),
            None => forall|j: int| from <= j ==> !match_at(h, n, j),
        },
    decreases h.len() - from,
{
    if from + n.len() > h.len() {
    } else if n.len() == 0 || match_at(h, n, from) {
        assert(h.subrange(from, from + n.len()) =~= n);
    } else {
        lemma_find_from_first(h, n, from + 1);
    }
}

/// Position of the first occurrence of the byte `b` in `h` at or after `from`.
pub open spec fn find_byte_from(h: Seq<u8>, b: u8, from: int) -> Option<int>
    decreases h.len() - from,
{
    if from < 0 || from >= h.len() {
        None
    } else if h[from] == b {
        Some(from)
    } else {
        find_byte_from(h, b, from + 1)
    }
}

/// Bounds of a successful byte search.
pub proof fn lemma_find_byte_from_range(h: Seq<u8>, b: u8, from: int)
    requires
        find_byte_from(h, b, from) is Some,
    ensures
        from <= find_byte_from(h, b, from).unwrap() < h.len(),
        h[find_byte_from(h, b, from).unwrap()] == b,
    decreases h.len() - from,
{
    if 0 <= from < h.len() && h[from] != b {
        lemma_find_byte_from_range(h, b, from + 1);
    }
}

/// Position of the last occurrence of the byte `b` in `h` strictly before `end`.
pub open spec fn rfind_byte_before(h: Seq<u8>, b: u8, end: int) -> Option<int>
    decreases end,
{
    if end <= 0 || end > h.len() {
        None
    } else if h[end - 1] == b {
        Some(end - 1)
    } else {
        rfind_byte_before(h, b, end - 1)
    }
}

/// Bounds of a successful backward byte search.
pub proof fn lemma_rfind_byte_before_range(h: Seq<u8>, b: u8, end: int)
    requires
        rfind_byte_before(h, b, end) is Some,
    ensures
        0 <= rfind_byte_before(h, b, end).unwrap() < end,
        rfind_byte_before(h, b, end).unwrap() < h.len(),
        h[rfind_byte_before(h, b, end).unwrap()] == b,
    decreases end,
{
    if 0 < end <= h.len() && h[end - 1] != b {
        lemma_rfind_byte_before_range(h, b, end - 1);
    }
}

/// An ASCII whitespace byte: space, tab, line feed, vertical tab, form feed
/// or carriage return.
pub open spec fn is_space(b: u8) -> bool {
    b == 32 || (9 <= b && b <= 13)
}

/// An ASCII decimal digit.
pub open spec fn is_digit(b: u8) -> bool {
    48 <= b && b <= 57
}

/// Position of the first non-whitespace byte at or after `from`, or the end
/// of the sequence.
pub open spec fn skip_spaces(h: Seq<u8>, from: int) -> int
    decreases h.len() - from,
{
    if from < 0 || from >= h.len() {
        h.len() as int
    } else if is_space(h[from]) {
        skip_spaces(h, from + 1)
    } else {
        from
    }
}

/// Position of the first non-digit byte at or after `from`, or the end of
/// the sequence.
pub open spec fn digits_end(h: Seq<u8>, from: int) -> int
    decreases h.len() - from,
{
    if from < 0 || from >= h.len() {
        h.len() as int
    } else if is_digit(h[from]) {
        digits_end(h, from + 1)
    } else {
        from
    }
}

/// Every byte of the run scanned by `digits_end` is a digit.
pub proof fn lemma_digits_end_digits(h: Seq<u8>, from: int)
    requires
        0 <= from <= h.len(),
    ensures
        forall|k: int| from <= k < digits_end(h, from) ==> is_digit(#[trigger] h[k]),
    decreases h.len() - from,
{
    if from < h.len() && is_digit(h[from]) {
        lemma_digits_end_digits(h, from + 1);
    }
}

/// Numeric value of a run of ASCII digit bytes, most significant first.
pub open spec fn digits_value(s: Seq<u8>) -> nat
    decreases s.len(),
{
    if s.len() == 0 {
        0
    } else {
        digits_value(s.drop_last()) * 10 + (if s.last() >= 48 {
            (s.last() - 48) as nat
        } else {
            0
        })
    }
}

/// Whether the needle `n` occurs at position `i` of `h`.
pub fn is_match_at(h: &[u8], n: &[u8], i: usize) -> (r: bool)
    requires
        i + n@.len() <= h@.len(),
    ensures
        r == match_at(h@, n@, i as int),
{
    let nl = n.len();
    let hl = h.len();
    let mut k: usize = 0;
    while k < nl
        invariant
            nl == n@.len(),
            hl == h@.len(),
            i + nl <= hl,
            k <= nl,
            forall|t: int| 0 <= t < k ==> h@[i + t] == n@[t],
        decreases nl - k,
    {
        if h[i + k] != n[k] {
            proof {
                assert(h@.subrange(i as int, i + n@.len())[k as int] == h@[i + k]);
            }
            return false;
        }
        k = k + 1;
    }
    proof {
        assert(h@.subrange(i as int, i + n@.len()) =~= n@);
    }
    true
}

/// First occurrence of `n` in `h` at or after `from`.
pub fn find(h: &[u8], n: &[u8], from: usize) -> (r: Option<usize>)
    ensures
        r is Some <==> find_from(h@, n@, from as int) is Some,
        r is Some ==> find_from(h@, n@, from as int) == Some(r.unwrap() as int),
{
    if from > h.len() {
        return None;
    }
    if n.len() == 0 {
        proof {
            assert(h@.subrange(from as int, from as int) =~= n@);
        }
        return Some(from);
    }
    if n.len() > h.len() || from > h.len() - n.len() {
        return None;
    }
    let hl = h.len();
    let last = hl - n.len();
    let mut i: usize = from;
    while i <= last
        invariant
            1 <= n@.len() <= hl,
            hl == h@.len(),
            last == hl - n@.len(),
            from <= i <= last + 1,
            find_from(h@, n@, from as int) == find_from(h@, n@, i as int),
        decreases last + 1 - i,
    {
        if is_match_at(h, n, i) {
            return Some(i);
        }
        i = i + 1;
    }
    None
}

/// First occurrence of the byte `b` in `h` at or after `from`.
pub fn find_byte(h: &[u8], b: u8, from: usize) -> (r: Option<usize>)
    ensures
        r is Some <==> find_byte_from(h@, b, from as int) is Some,
        r is Some ==> find_byte_from(h@, b, from as int) == Some(r.unwrap() as int),
{
    let mut i: usize = from;
    while i < h.len()
        invariant
            from <= i,
            find_byte_from(h@, b, from as int) == find_byte_from(h@, b, i as int),
        decreases h@.len() - i,
    {
        if h[i] == b {
            return Some(i);
        }
        i = i + 1;
    }
    None
}

/// Last occurrence of the byte `b` in `h` strictly before `end`.
pub fn rfind_byte(h: &[u8], b: u8, end: usize) -> (r: Option<usize>)
    requires
        end <= h@.len(),
    ensures
        r is Some <==> rfind_byte_before(h@, b, end as int) is Some,
        r is Some ==> rfind_byte_before(h@, b, end as int) == Some(r.unwrap() as int),
{
    let mut i: usize = end;
    while i > 0
        invariant
            i <= end <= h@.len(),
            rfind_byte_before(h@, b, end as int) == rfind_byte_before(h@, b, i as int),
        decreases i,
    {
        if h[i - 1] == b {
            return Some(i - 1);
        }
        i = i - 1;
    }
    None
}

/// First non-whitespace position at or after `from`.
pub fn skip_whitespace(h: &[u8], from: usize) -> (r: usize)
    requires
        from <= h@.len(),
    ensures
        r == skip_spaces(h@, from as int),
        from <= r <= h@.len(),
{
    let mut i: usize = from;
    while i < h.len() && (h[i] == 32 || (9 <= h[i] && h[i] <= 13))
        invariant
            from <= i <= h@.len(),
            skip_spaces(h@, from as int) == skip_spaces(h@, i as int),
        decreases h@.len() - i,
    {
        i = i + 1;
    }
    i
}

/// First non-digit position at or after `from`.
pub fn scan_digits(h: &[u8], from: usize) -> (r: usize)
    requires
        from <= h@.len(),
    ensures
        r == digits_end(h@, from as int),
        from <= r <= h@.len(),
{
    let mut i: usize = from;
    while i < h.len() && 48 <= h[i] && h[i] <= 57
        invariant
            from <= i <= h@.len(),
            digits_end(h@, from as int) == digits_end(h@, i as int),
        decreases h@.len() - i,
    {
        i = i + 1;
    }
    i
}

/// The value of `h[start..end]` grows as the run of digits grows.
proof fn lemma_digits_value_step(s: Seq<u8>, k: int)
    requires
        0 <= k < s.len(),
    ensures
        digits_value(s.subrange(0, k + 1)) == digits_value(s.subrange(0, k)) * 10 + (if s[k] >= 48 {
            (s[k] - 48) as nat
        } else {
            0
        }),
{
    assert(s.subrange(0, k + 1).drop_last() =~= s.subrange(0, k));
}

proof fn lemma_digits_value_monotone(s: Seq<u8>, k: int)
    requires
        0 <= k <= s.len(),
    ensures
        digits_value(s.subrange(0, k)) <= digits_value(s),
    decreases s.len() - k,
{
    if k == s.len() {
        assert(s.subrange(0, k) =~= s);
    } else {
        lemma_digits_value_step(s, k);
        lemma_digits_value_monotone(s, k + 1);
    }
}

/// Parses the decimal digits `h[start..end]` as a `usize`; `None` exactly
/// when the value overflows.
pub fn parse_usize(h: &[u8], start: usize, end: usize) -> (r: Option<usize>)
    requires
        start <= end <= h@.len(),
        forall|k: int| start <= k < end ==> is_digit(h@[k]),
    ensures
        r is Some <==> digits_value(h@.subrange(start as int, end as int)) <= usize::MAX,
        r is Some ==> r.unwrap() == digits_value(h@.subrange(start as int, end as int)),
{
    let ghost s = h@.subrange(start as int, end as int);
    let mut acc: usize = 0;
    let mut i: usize = start;
    while i < end
        invariant
            start <= i <= end <= h@.len(),
            forall|k: int| start <= k < end ==> is_digit(h@[k]),
            s == h@.subrange(start as int, end as int),
            acc == digits_value(s.subrange(0, i - start)),
        decreases end - i,
    {
        let b = h[i];
        let d: usize = if b >= 48 {
            (b - 48) as usize
        } else {
            0
        };
        proof {
            lemma_digits_value_step(s, i - start);
        }
        if acc > usize::MAX / 10 || (acc == usize::MAX / 10 && d > usize::MAX % 10) {
            proof {
                lemma_digits_value_monotone(s, i - start + 1);
            }
            return None;
        }
        acc = acc * 10 + d;
        i = i + 1;
    }
    proof {
        assert(s.subrange(0, end - start) =~= s);
    }
    Some(acc)
}

} // verus!
