//! Marker scanning over the platform's HTML and JavaScript: the
//! site-verification key, the script-bundle URL, and the key-byte index
//! constants. Cursor-based byte scanning, not a grammar parser, because the
//! source markup offers only fixed textual markers.

use vstd::prelude::*;
use vstd::slice::slice_subrange;
use vstd::string::StringSliceAdditionalSpecFns;
use vstd::utf8::encode_utf8;
use vstd::utf8::is_ascii_chars;
use vstd::utf8::is_ascii_chars_encode_utf8;
use vstd::utf8::is_char_boundary;
use vstd::utf8::is_continuation_byte;
use vstd::utf8::valid_utf8;
use crate::error::Error;
use crate::scan;
use crate::scan::digits_end;
use crate::scan::digits_value;
use crate::scan::find_byte_from;
use crate::scan::find_from;
use crate::scan::match_at;
use crate::scan::rfind_byte_before;
use crate::scan::skip_spaces;
use crate::strutil;
use crate::transaction::ClientTransaction;

verus! {

/// What scanning for the site-verification key finds in the page bytes.
pub enum VkOutcome {
    /// The bytes of the `content` attribute value.
    Key(Seq<u8>),
    /// The meta-tag marker is absent.
    NoTag,
    /// The tag has no `content` attribute.
    NoContent,
    /// The attribute value has no closing quote.
    NoQuote,
}

/// Start of the meta tag: the last `<` before the marker, or 0.
pub open spec fn vk_tag_start(h: Seq<u8>, pos: int) -> int {
    match rfind_byte_before(h, 60, pos) {
        Some(i) => i,
        None => 0,
    }
}

/// End of the meta tag: the first `>` at or after the marker, or the end.
pub open spec fn vk_tag_end(h: Seq<u8>, pos: int) -> int {
    match find_byte_from(h, 62, pos) {
        Some(i) => i,
        None => h.len() as int,
    }
}

/// The site-verification key: locate the meta-tag marker, back-scan to the
/// enclosing `<`, forward-scan to the matching `>`, and take the value of
/// the `content="..."` attribute inside that tag.
pub open spec fn spec_verification_key(h: Seq<u8>) -> VkOutcome {
    match find_from(h, "name=\"twitter-site-verification\"".spec_bytes(), 0) {
        None => VkOutcome::NoTag,
        Some(pos) => {
            let tag = h.subrange(vk_tag_start(h, pos), vk_tag_end(h, pos));
            match find_from(tag, "content=\"".spec_bytes(), 0) {
                None => VkOutcome::NoContent,
                Some(cpos) => {
                    let vstart = cpos + "content=\"".spec_bytes().len();
                    match find_byte_from(tag, 34, vstart) {
                        None => VkOutcome::NoQuote,
                        Some(vend) => VkOutcome::Key(tag.subrange(vstart, vend)),
                    }
                },
            }
        },
    }
}

/// An ASCII digit or letter.
pub open spec fn is_ascii_alnum(b: u8) -> bool {
    (48 <= b && b <= 57) || (65 <= b && b <= 90) || (97 <= b && b <= 122)
}

pub open spec fn ascii_alnum_seq(s: Seq<u8>) -> bool {
    forall|i: int| 0 <= i < s.len() ==> is_ascii_alnum(#[trigger] s[i])
}

/// The script-bundle hash named after one marker: past the marker, skip
/// ASCII whitespace, expect `:`, skip whitespace, expect a quote, and take
/// the non-empty alphanumeric text up to the matching quote.
pub open spec fn spec_hash_after_marker(h: Seq<u8>, marker: Seq<u8>) -> Option<Seq<u8>> {
    match find_from(h, marker, 0) {
        None => None,
        Some(pos) => {
            let c = skip_spaces(h, pos + marker.len());
            if c < h.len() && h[c] == 58 {
                let q = skip_spaces(h, c + 1);
                if q < h.len() && (h[q] == 34 || h[q] == 39) {
                    match find_byte_from(h, h[q], q + 1) {
                        None => None,
                        Some(end) => {
                            let hash = h.subrange(q + 1, end);
                            if hash.len() > 0 && ascii_alnum_seq(hash) {
                                Some(hash)
                            } else {
                                None
                            }
                        },
                    }
                } else {
                    None
                }
            } else {
                None
            }
        },
    }
}

/// The script-bundle hash: the double-quoted marker is tried first, then
/// the single-quoted one.
pub open spec fn spec_ondemand_hash(h: Seq<u8>) -> Option<Seq<u8>> {
    match spec_hash_after_marker(h, "\"ondemand.s\"".spec_bytes()) {
        Some(x) => Some(x),
        None => spec_hash_after_marker(h, "'ondemand.s'".spec_bytes()),
    }
}

/// The script-asset URL built around the extracted hash.
pub open spec fn spec_url_bytes(hash: Seq<u8>) -> Seq<u8> {
    "https://abs.twimg.com/responsive-web/client-web/ondemand.s.".spec_bytes() + hash
        + "a.js".spec_bytes()
}

/// The diagnostic attached to a missing script-bundle hash, chosen by
/// heuristics over the received page.
pub open spec fn spec_ondemand_hint(h: Seq<u8>) -> Seq<char> {
    if find_from(h, "login".spec_bytes(), 0) is Some || find_from(
        h,
        "LoginForm".spec_bytes(),
        0,
    ) is Some {
        "ondemand file hash (received login page - may need cookies)"@
    } else if h.len() < 10000 {
        "ondemand file hash (response too small - may be rate limited or blocked)"@
    } else {
        "ondemand file hash (X may have changed their page structure)"@
    }
}

/// Scan bound for the key-byte index patterns: the shortest pattern needs
/// 10 bytes after its start.
pub open spec fn spec_scan_limit(j: Seq<u8>) -> int {
    if j.len() >= 10 {
        j.len() - 10
    } else {
        0
    }
}

/// The integer of a `(e[<digits>], 16)` pattern starting at `i`, tolerating
/// a missing space; `None` when no pattern starts there or its value
/// overflows `usize`.
pub open spec fn index_value_at(j: Seq<u8>, i: int) -> Option<usize> {
    if 0 <= i && i + 3 <= j.len() && j[i] == 40 && j[i + 2] == 91 {
        let ds = i + 3;
        let de = digits_end(j, ds);
        if de > ds && (match_at(j, "], 16)".spec_bytes(), de) || match_at(
            j,
            "],16)".spec_bytes(),
            de,
        )) && digits_value(j.subrange(ds, de)) <= usize::MAX {
            Some(digits_value(j.subrange(ds, de)) as usize)
        } else {
            None
        }
    } else {
        None
    }
}

/// Every pattern integer at or after position `i`, in order of appearance.
pub open spec fn spec_indices_from(j: Seq<u8>, i: int) -> Seq<usize>
    decreases spec_scan_limit(j) - i,
{
    if i < 0 || i >= spec_scan_limit(j) {
        Seq::empty()
    } else {
        let rest = spec_indices_from(j, i + 1);
        match index_value_at(j, i) {
            Some(v) => seq![v] + rest,
            None => rest,
        }
    }
}

/// Every pattern integer in the script text, in order of appearance.
pub open spec fn spec_indices(j: Seq<u8>) -> Seq<usize> {
    spec_indices_from(j, 0)
}

/// The byte lengths of the two index-pattern tails.
proof fn lemma_pattern_marker_lens()
    ensures
        "], 16)".spec_bytes().len() == 6,
        "],16)".spec_bytes().len() == 5,
{
    reveal_strlit("], 16)");
    reveal_strlit("],16)");
    assert(is_ascii_chars("], 16)"@));
    assert(is_ascii_chars("],16)"@));
    is_ascii_chars_encode_utf8("], 16)"@);
    is_ascii_chars_encode_utf8("],16)"@);
}

impl ClientTransaction {
    /// Extracts the value of the `twitter-site-verification` meta tag.
    pub fn verification_key(html: &str) -> (r: Result<String, Error>)
        ensures
            ({
                let o = spec_verification_key(html.spec_bytes());
                match r {
                    Ok(k) => o == VkOutcome::Key(encode_utf8(k@)) && encode_utf8(k@).len()
                        <= html.spec_bytes().len(),
                    Err(e) => match e {
                        Error::MissingKey(m) => (o is NoTag && m@
                            == "twitter-site-verification meta tag"@) || (o is NoContent && m@
                            == "content attribute"@),
                        Error::Parse(m) => o is NoQuote && m@ == "malformed content attribute"@,
                        _ => false,
                    },
                }
            }),
    {
        let hb = html.as_bytes();
        let ghost h = html.spec_bytes();
        let marker = "name=\"twitter-site-verification\"";
        let pos = match scan::find(hb, marker.as_bytes(), 0) {
            Some(p) => p,
            None => {
                return Err(Error::MissingKey("twitter-site-verification meta tag".to_owned()));
            },
        };
        proof {
            scan::lemma_find_from_first(h, marker.spec_bytes(), 0);
        }
        let tag_start = match scan::rfind_byte(hb, 60, pos) {
            Some(i) => i,
            None => 0,
        };
        let tag_end = match scan::find_byte(hb, 62, pos) {
            Some(i) => i,
            None => hb.len(),
        };
        proof {
            if rfind_byte_before(h, 60, pos as int) is Some {
                scan::lemma_rfind_byte_before_range(h, 60, pos as int);
            }
            if find_byte_from(h, 62, pos as int) is Some {
                scan::lemma_find_byte_from_range(h, 62, pos as int);
            }
            assert(tag_start == vk_tag_start(h, pos as int));
            assert(tag_end == vk_tag_end(h, pos as int));
            assert(tag_start <= tag_end <= h.len());
        }
        let tag = slice_subrange(hb, tag_start, tag_end);
        let ghost tg = h.subrange(tag_start as int, tag_end as int);
        let cmark = "content=\"";
        let cpos = match scan::find(tag, cmark.as_bytes(), 0) {
            Some(p) => p,
            None => {
                return Err(Error::MissingKey("content attribute".to_owned()));
            },
        };
        proof {
            scan::lemma_find_from_first(tg, cmark.spec_bytes(), 0);
        }
        let vstart = cpos + cmark.len();
        let vend = match scan::find_byte(tag, 34, vstart) {
            Some(p) => p,
            None => {
                return Err(Error::Parse("malformed content attribute".to_owned()));
            },
        };
        proof {
            scan::lemma_find_byte_from_range(tg, 34, vstart as int);
        }
        let astart = tag_start + vstart;
        let aend = tag_start + vend;
        proof {
            broadcast use vstd::utf8::encode_utf8_valid_utf8;
            broadcast use vstd::utf8::is_char_boundary_iff_not_is_continuation_byte;

            assert(valid_utf8(h));
            // The byte before the value is the closing quote of `content="`.
            reveal_strlit("content=\"");
            let cb = cmark.spec_bytes();
            assert(is_ascii_chars(cmark@));
            is_ascii_chars_encode_utf8(cmark@);
            assert(cb.len() == 9);
            assert(cb[8] == 34);
            assert(tg.subrange(cpos as int, cpos + 9)[8] == tg[cpos + 8]);
            assert(tg[cpos + 8] == 34);
            assert(h[astart - 1] == tg[vstart - 1]);
            assert(!is_continuation_byte(h[astart - 1]));
            assert(is_char_boundary(h, astart - 1));
            strutil::lemma_boundary_after_ascii(h, astart - 1);
            // The end of the value is the closing quote itself.
            assert(h[aend as int] == tg[vend as int]);
            assert(h[aend as int] == 34);
            assert(is_char_boundary(h, aend as int));
        }
        let k = strutil::substr(html, astart, aend);
        proof {
            assert(h.subrange(astart as int, aend as int) =~= tg.subrange(
                vstart as int,
                vend as int,
            ));
        }
        Ok(k)
    }

    /// Byte bounds of the script-bundle hash named after one marker.
    fn hash_bounds(h: &[u8], marker: &str) -> (r: Option<(usize, usize)>)
        ensures
            r is Some <==> spec_hash_after_marker(h@, marker.spec_bytes()) is Some,
            r is Some ==> ({
                let (s, e) = r.unwrap();
                &&& 0 < s <= e < h@.len()
                &&& spec_hash_after_marker(h@, marker.spec_bytes()) == Some(
                    h@.subrange(s as int, e as int),
                )
                &&& ascii_alnum_seq(h@.subrange(s as int, e as int))
            }),
    {
        let ghost mb = marker.spec_bytes();
        let pos = match scan::find(h, marker.as_bytes(), 0) {
            Some(p) => p,
            None => {
                return None;
            },
        };
        proof {
            scan::lemma_find_from_first(h@, mb, 0);
        }
        let hl = h.len();
        proof {
            assert(pos + marker.spec_bytes().len() <= hl);
        }
        let c = scan::skip_whitespace(h, pos + marker.len());
        if c >= h.len() || h[c] != 58 {
            return None;
        }
        let q = scan::skip_whitespace(h, c + 1);
        if q >= h.len() || (h[q] != 34 && h[q] != 39) {
            return None;
        }
        let quote = h[q];
        let end = match scan::find_byte(h, quote, q + 1) {
            Some(e) => e,
            None => {
                return None;
            },
        };
        proof {
            scan::lemma_find_byte_from_range(h@, quote, q + 1);
        }
        if end == q + 1 {
            return None;
        }
        let ghost hash = h@.subrange(q + 1, end as int);
        let mut i: usize = q + 1;
        #[verifier::loop_isolation(false)]
        while i < end
            invariant
                q + 1 <= i <= end < h@.len(),
                hash == h@.subrange(q + 1, end as int),
                forall|k: int| q + 1 <= k < i ==> is_ascii_alnum(#[trigger] h@[k]),
            decreases end - i,
        {
            let b = h[i];
            if !((48 <= b && b <= 57) || (65 <= b && b <= 90) || (97 <= b && b <= 122)) {
                proof {
                    assert(hash[i - (q + 1)] == h@[i as int]);
                    assert(!ascii_alnum_seq(hash));
                }
                return None;
            }
            i = i + 1;
        }
        proof {
            assert(forall|k: int|
                0 <= k < hash.len() ==> hash[k] == #[trigger] h@[k + q + 1]);
            assert(ascii_alnum_seq(hash));
        }
        Some((q + 1, end))
    }

    /// Computes the script-bundle URL from the entry page: the hash named
    /// by the `ondemand.s` marker (in either quote style), wrapped into the
    /// fixed asset path. A missing or malformed marker yields `MissingKey`
    /// with a diagnostic chosen from the received page.
    pub fn extract_ondemand_url(home_page_html: &str) -> (r: Result<String, Error>)
        ensures
            ({
                let o = spec_ondemand_hash(home_page_html.spec_bytes());
                match r {
                    Ok(url) => o is Some && encode_utf8(url@) == spec_url_bytes(o.unwrap()),
                    Err(e) => match e {
                        Error::MissingKey(m) => o is None && m@ == spec_ondemand_hint(
                            home_page_html.spec_bytes(),
                        ),
                        _ => false,
                    },
                }
            }),
    {
        let hb = home_page_html.as_bytes();
        let ghost h = home_page_html.spec_bytes();
        let bounds = match Self::hash_bounds(hb, "\"ondemand.s\"") {
            Some(b) => Some(b),
            None => Self::hash_bounds(hb, "'ondemand.s'"),
        };
        match bounds {
            Some((s, e)) => {
                let mut v: Vec<u8> = Vec::new();
                let prefix = "https://abs.twimg.com/responsive-web/client-web/ondemand.s.";
                let suffix = "a.js";
                v.extend_from_slice(prefix.as_bytes());
                let hs = slice_subrange(hb, s, e);
                v.extend_from_slice(hs);
                v.extend_from_slice(suffix.as_bytes());
                proof {
                    broadcast use vstd::utf8::encode_utf8_valid_utf8;
                    broadcast use vstd::utf8::valid_utf8_concat;

                    let hash = h.subrange(s as int, e as int);
                    assert(forall|i: int| 0 <= i < hash.len() ==> hash[i] < 128) by {
                        assert(ascii_alnum_seq(hash));
                    }
                    strutil::lemma_ascii_bytes_valid(hash);
                    assert(v@ =~= prefix.spec_bytes() + hash + suffix.spec_bytes());
                    assert(v@ =~= (prefix.spec_bytes() + hash) + suffix.spec_bytes());
                    assert(valid_utf8(prefix.spec_bytes() + hash));
                    assert(valid_utf8((prefix.spec_bytes() + hash) + suffix.spec_bytes()));
                    assert(v@ =~= spec_url_bytes(hash));
                }
                let url = crate::encoding::string_from_utf8(v);
                Ok(url)
            },
            None => {
                let msg: String = if scan::find(hb, "login".as_bytes(), 0).is_some() || scan::find(
                    hb,
                    "LoginForm".as_bytes(),
                    0,
                ).is_some() {
                    "ondemand file hash (received login page - may need cookies)".to_owned()
                } else if hb.len() < 10000 {
                    "ondemand file hash (response too small - may be rate limited or blocked)".to_owned()
                } else {
                    "ondemand file hash (X may have changed their page structure)".to_owned()
                };
                Err(Error::MissingKey(msg))
            },
        }
    }

    /// Collects every `(e[<digits>], 16)` integer in the script text: the
    /// first is the row index, the rest are the key-byte indices.
    pub fn parse_indices(ondemand_js: &str) -> (r: Result<(usize, Vec<usize>), Error>)
        ensures
            ({
                let ids = spec_indices(ondemand_js.spec_bytes());
                match r {
                    Ok(p) => ids.len() > 0 && p.0 == ids[0] && p.1@ == ids.drop_first(),
                    Err(e) => match e {
                        Error::MissingKey(m) => ids.len() == 0 && m@ == "key byte indices"@,
                        _ => false,
                    },
                }
            }),
    {
        let jb = ondemand_js.as_bytes();
        let ghost j = ondemand_js.spec_bytes();
        let limit = if jb.len() >= 10 {
            jb.len() - 10
        } else {
            0
        };
        let mut found: Vec<usize> = Vec::new();
        let mut i: usize = 0;
        while i < limit
            invariant
                j == jb@,
                limit == spec_scan_limit(j),
                limit <= j.len(),
                i <= limit,
                spec_indices(j) == found@ + spec_indices_from(j, i as int),
            decreases limit - i,
        {
            let ghost before = found@;
            if jb[i] == 40 && jb[i + 2] == 91 {
                let ds = i + 3;
                let de = scan::scan_digits(jb, ds);
                if de > ds {
                    proof {
                        lemma_pattern_marker_lens();
                    }
                    let m1 = if jb.len() - de >= 6 {
                        scan::is_match_at(jb, "], 16)".as_bytes(), de)
                    } else {
                        false
                    };
                    let m2 = if jb.len() - de >= 5 {
                        scan::is_match_at(jb, "],16)".as_bytes(), de)
                    } else {
                        false
                    };
                    if m1 || m2 {
                        proof {
                            scan::lemma_digits_end_digits(j, ds as int);
                        }
                        match scan::parse_usize(jb, ds, de) {
                            Some(v) => {
                                found.push(v);
                            },
                            None => {},
                        }
                    }
                }
            }
            proof {
                match index_value_at(j, i as int) {
                    Some(v) => {
                        assert(found@ =~= before + seq![v]);
                        assert(before + (seq![v] + spec_indices_from(j, i + 1)) =~= (before + seq![
                            v,
                        ]) + spec_indices_from(j, i + 1));
                    },
                    None => {
                        assert(found@ == before);
                    },
                }
            }
            i = i + 1;
        }
        if found.len() == 0 {
            proof {
                assert(spec_indices(j) =~= found@);
            }
            return Err(Error::MissingKey("key byte indices".to_owned()));
        }
        let row = found[0];
        let mut rest: Vec<usize> = Vec::new();
        let flen = found.len();
        let mut k: usize = 1;
        while k < flen
            invariant
                1 <= k <= flen,
                flen == found@.len(),
                rest@ == found@.subrange(1, k as int),
            decreases flen - k,
        {
            let x = found[k];
            rest.push(x);
            proof {
                assert(rest@ =~= found@.subrange(1, k + 1));
            }
            k = k + 1;
        }
        proof {
            assert(spec_indices(j) =~= found@);
            assert(rest@ =~= spec_indices(j).drop_first());
        }
        Ok((row, rest))
    }
}

} // verus!
