//! Animation path data: isolating the SVG blocks behind the loading
//! animation's anchor id, picking each block's first cubic-bezier path, and
//! parsing a path's `d` attribute into integer coordinate segments.

use vstd::prelude::*;
use vstd::slice::slice_subrange;
use vstd::string::StringSliceAdditionalSpecFns;
use vstd::utf8::encode_utf8;
use vstd::utf8::is_ascii_chars;
use vstd::utf8::is_ascii_chars_encode_utf8;
use vstd::utf8::is_char_boundary;
use vstd::utf8::is_continuation_byte;
use vstd::utf8::valid_utf8;
use crate::error::Error;
use crate::scan;
use crate::scan::digits_value;
use crate::scan::find_byte_from;
use crate::scan::find_from;
use crate::scan::is_digit;
use crate::strutil;
use crate::transaction::ClientTransaction;

verus! {

/// A digit or the minus sign: the bytes that make up a coordinate token.
pub open spec fn is_tok_byte(b: u8) -> bool {
    is_digit(b) || b == 45
}

/// Position of the first non-token byte at or after `from`, or the end.
pub open spec fn tok_end(s: Seq<u8>, from: int) -> int
    decreases s.len() - from,
{
    if from < 0 || from >= s.len() {
        s.len() as int
    } else if is_tok_byte(s[from]) {
        tok_end(s, from + 1)
    } else {
        from
    }
}

pub proof fn lemma_tok_end_range(s: Seq<u8>, from: int)
    requires
        0 <= from <= s.len(),
    ensures
        from <= tok_end(s, from) <= s.len(),
    decreases s.len() - from,
{
    if from < s.len() && is_tok_byte(s[from]) {
        lemma_tok_end_range(s, from + 1);
    }
}

pub open spec fn all_digits(s: Seq<u8>) -> bool {
    forall|i: int| 0 <= i < s.len() ==> is_digit(#[trigger] s[i])
}

/// The signed 32-bit integer a token denotes: an optional minus sign, then
/// digits; `None` on any other shape or on overflow.
pub open spec fn parse_i32_tok(t: Seq<u8>) -> Option<i32> {
    if t.len() > 0 && t[0] == 45 {
        let d = t.subrange(1, t.len() as int);
        if d.len() > 0 && all_digits(d) && digits_value(d) <= 0x80000000 {
            Some((-(digits_value(d) as int)) as i32)
        } else {
            None
        }
    } else if t.len() > 0 && all_digits(t) && digits_value(t) <= 0x7fffffff {
        Some(digits_value(t) as i32)
    } else {
        None
    }
}

/// The integers of the tokens at or after `from`, in order.
pub open spec fn spec_segment_ints(s: Seq<u8>, from: int) -> Seq<i32>
    decreases s.len() - from,
    when 0 <= from <= s.len()
    via spec_segment_ints_dec
{
    if from >= s.len() {
        Seq::empty()
    } else if !is_tok_byte(s[from]) {
        spec_segment_ints(s, from + 1)
    } else {
        let e = tok_end(s, from);
        let rest = spec_segment_ints(s, e);
        match parse_i32_tok(s.subrange(from, e)) {
            Some(v) => seq![v] + rest,
            None => rest,
        }
    }
}

#[via_fn]
proof fn spec_segment_ints_dec(s: Seq<u8>, from: int) {
    if 0 <= from < s.len() && is_tok_byte(s[from]) {
        lemma_tok_end_range(s, from + 1);
    }
}

/// The coordinate lists of the cubic-command segments at or after `from`:
/// the text is split on `C` (67) and each piece is scanned for tokens.
pub open spec fn spec_segments_ints_from(s: Seq<u8>, from: int) -> Seq<Seq<i32>>
    decreases s.len() - from,
    when 0 <= from <= s.len()
    via spec_segments_ints_from_dec
{
    match find_byte_from(s, 67, from) {
        Some(c) => seq![spec_segment_ints(s.subrange(from, c), 0)] + spec_segments_ints_from(
            s,
            c + 1,
        ),
        None => seq![spec_segment_ints(s.subrange(from, s.len() as int), 0)],
    }
}

#[via_fn]
proof fn spec_segments_ints_from_dec(s: Seq<u8>, from: int) {
    if find_byte_from(s, 67, from) is Some {
        scan::lemma_find_byte_from_range(s, 67, from);
    }
}

/// Where the path content begins: byte 9, dropping the fixed-length leading
/// move command, unless that position cuts a character in half or the text
/// is shorter.
pub open spec fn spec_content_start(d: Seq<u8>) -> int {
    if 9 <= d.len() && (9 == d.len() || !is_continuation_byte(d[9])) {
        9
    } else {
        0
    }
}

/// The coordinate segments of a path's `d` attribute.
pub open spec fn spec_path_coords(d: Seq<u8>) -> Seq<Seq<i32>> {
    spec_segments_ints_from(d.subrange(spec_content_start(d), d.len() as int), 0)
}

/// The value of a path tag's `d` attribute.
pub open spec fn spec_path_d(tag: Seq<u8>) -> Option<Seq<u8>> {
    match find_from(tag, " d=\"".spec_bytes(), 0) {
        None => None,
        Some(p) => {
            let ds = p + " d=\"".spec_bytes().len();
            match find_byte_from(tag, 34, ds) {
                None => None,
                Some(e) => Some(tag.subrange(ds, e)),
            }
        },
    }
}

/// The `d` attribute of the first path in the SVG block, at or after `ps`,
/// whose tag can be delimited and whose data holds a cubic command.
pub open spec fn spec_first_curve_d(svg: Seq<u8>, ps: int) -> Option<Seq<u8>>
    decreases svg.len() + 5 - ps,
    when 0 <= ps
    via spec_first_curve_d_dec
{
    match find_from(svg, "<path".spec_bytes(), ps) {
        None => None,
        Some(pa) => {
            let endo = if find_from(svg, "/>".spec_bytes(), pa) is Some {
                find_from(svg, "/>".spec_bytes(), pa)
            } else {
                find_from(svg, "></path>".spec_bytes(), pa)
            };
            let next = spec_first_curve_d(svg, pa + 5);
            match endo {
                Some(e) => {
                    match spec_path_d(svg.subrange(pa, e)) {
                        Some(d) => if find_byte_from(d, 67, 0) is Some {
                            Some(d)
                        } else {
                            next
                        },
                        None => next,
                    }
                },
                None => next,
            }
        },
    }
}

#[via_fn]
proof fn spec_first_curve_d_dec(svg: Seq<u8>, ps: int) {
    if 0 <= ps && find_from(svg, "<path".spec_bytes(), ps) is Some {
        scan::lemma_find_from_first(svg, "<path".spec_bytes(), ps);
    }
}

/// The `d` attributes collected from every anchor-id SVG block at or after
/// `sp`: each block contributes its first cubic path, if it has one, and a
/// block with no closing `</svg>` stops the scan.
pub open spec fn spec_frames_from(h: Seq<u8>, sp: int) -> Seq<Seq<u8>>
    decreases h.len() + 1 - sp,
    when 0 <= sp
    via spec_frames_from_dec
{
    match find_from(h, "id=\"loading-x-anim".spec_bytes(), sp) {
        None => Seq::empty(),
        Some(pos) => {
            match find_from(h, "</svg>".spec_bytes(), pos) {
                None => Seq::empty(),
                Some(se) => {
                    let next = if se > pos {
                        se
                    } else {
                        pos + 1
                    };
                    let rest = spec_frames_from(h, next);
                    match spec_first_curve_d(h.subrange(pos, se), 0) {
                        Some(d) => seq![d] + rest,
                        None => rest,
                    }
                },
            }
        },
    }
}

#[via_fn]
proof fn spec_frames_from_dec(h: Seq<u8>, sp: int) {
    if 0 <= sp && find_from(h, "id=\"loading-x-anim".spec_bytes(), sp) is Some {
        scan::lemma_find_from_first(h, "id=\"loading-x-anim".spec_bytes(), sp);
        let pos = find_from(h, "id=\"loading-x-anim".spec_bytes(), sp).unwrap();
        if find_from(h, "</svg>".spec_bytes(), pos) is Some {
            scan::lemma_find_from_first(h, "</svg>".spec_bytes(), pos);
        }
    }
}

/// The frame strings of the whole page.
pub open spec fn spec_animation_frames(h: Seq<u8>) -> Seq<Seq<u8>> {
    spec_frames_from(h, 0)
}

/// What selecting and parsing a frame finds.
pub enum FrameOutcome {
    /// The coordinate segments of the selected frame.
    Frames(Seq<Seq<i32>>),
    /// The page has no animation frames.
    NoFrames,
    /// The key has no byte at the frame-selector index.
    KeyTooShort,
    /// The selected frame index is out of bounds.
    BadIndex,
}

/// Frame selection: byte 5 of the key, modulo the frame count of 4, picks
/// the frame whose path is parsed.
pub open spec fn spec_frame_data(key: Seq<u8>, h: Seq<u8>) -> FrameOutcome {
    let frames = spec_animation_frames(h);
    if frames.len() == 0 {
        FrameOutcome::NoFrames
    } else if key.len() <= 5 {
        FrameOutcome::KeyTooShort
    } else if key[5] % 4 >= frames.len() {
        FrameOutcome::BadIndex
    } else {
        FrameOutcome::Frames(spec_path_coords(frames[(key[5] % 4) as int]))
    }
}

/// Everything the animation replay needs from the page and the key: the
/// chosen frame's coordinates and the key-byte factors that set the frame
/// time.
#[derive(Debug)]
pub struct AnimationInputs {
    pub frame: Vec<i32>,
    pub factors: Vec<u8>,
}

/// The low half-byte of each key byte the indices select; an index past the
/// end of the key is skipped.
pub open spec fn spec_factors(key: Seq<u8>, idxs: Seq<usize>) -> Seq<u8>
    decreases idxs.len(),
{
    if idxs.len() == 0 {
        Seq::empty()
    } else {
        let rest = spec_factors(key, idxs.drop_first());
        if (idxs[0] as int) < key.len() {
            seq![(key[idxs[0] as int] % 16) as u8] + rest
        } else {
            rest
        }
    }
}

/// What assembling the animation inputs finds.
pub enum InputsOutcome {
    /// The chosen frame's coordinates and the frame-time factors.
    Inputs(Seq<i32>, Seq<u8>),
    /// The key has no byte at the row index.
    KeyTooShortRow,
    /// The page has no animation frames.
    NoFrames,
    /// The key has no byte at the frame-selector index.
    KeyTooShort,
    /// The selected frame index is out of bounds.
    BadIndex,
    /// The selected row is out of bounds.
    RowOutOfBounds,
}

/// Row selection and factor gathering: the key byte at the row index,
/// modulo 16, picks the coordinate segment of the selected frame.
pub open spec fn spec_animation_inputs(
    key: Seq<u8>,
    h: Seq<u8>,
    row_index: int,
    idxs: Seq<usize>,
) -> InputsOutcome {
    if !(0 <= row_index < key.len()) {
        InputsOutcome::KeyTooShortRow
    } else {
        let riv = (key[row_index] % 16) as int;
        match spec_frame_data(key, h) {
            FrameOutcome::NoFrames => InputsOutcome::NoFrames,
            FrameOutcome::KeyTooShort => InputsOutcome::KeyTooShort,
            FrameOutcome::BadIndex => InputsOutcome::BadIndex,
            FrameOutcome::Frames(arr) => if riv >= arr.len() {
                InputsOutcome::RowOutOfBounds
            } else {
                InputsOutcome::Inputs(arr[riv], spec_factors(key, idxs))
            },
        }
    }
}

/// The byte lengths of the frame-scanning markers, and the bytes of the
/// `d`-attribute marker.
proof fn lemma_frame_marker_lens()
    ensures
        "id=\"loading-x-anim".spec_bytes().len() == 18,
        "</svg>".spec_bytes().len() == 6,
        "<path".spec_bytes().len() == 5,
        "/>".spec_bytes().len() == 2,
        "></path>".spec_bytes().len() == 8,
        " d=\"".spec_bytes() =~= seq![32u8, 100u8, 61u8, 34u8],
{
    reveal_strlit("id=\"loading-x-anim");
    reveal_strlit("</svg>");
    reveal_strlit("<path");
    reveal_strlit("/>");
    reveal_strlit("></path>");
    reveal_strlit(" d=\"");
    assert(is_ascii_chars("id=\"loading-x-anim"@));
    assert(is_ascii_chars("</svg>"@));
    assert(is_ascii_chars("<path"@));
    assert(is_ascii_chars("/>"@));
    assert(is_ascii_chars("></path>"@));
    assert(is_ascii_chars(" d=\""@));
    is_ascii_chars_encode_utf8("id=\"loading-x-anim"@);
    is_ascii_chars_encode_utf8("</svg>"@);
    is_ascii_chars_encode_utf8("<path"@);
    is_ascii_chars_encode_utf8("/>"@);
    is_ascii_chars_encode_utf8("></path>"@);
    is_ascii_chars_encode_utf8(" d=\""@);
}

impl ClientTransaction {
    /// Byte bounds of a path tag's `d` attribute value.
    fn extract_path_d(tag: &[u8]) -> (r: Option<(usize, usize)>)
        ensures
            r is Some <==> spec_path_d(tag@) is Some,
            r is Some ==> ({
                let (s, e) = r.unwrap();
                &&& 0 < s <= e < tag@.len()
                &&& spec_path_d(tag@) == Some(tag@.subrange(s as int, e as int))
                &&& tag@[s - 1] == 34
                &&& tag@[e as int] == 34
            }),
    {
        let m = " d=\"";
        let tl = tag.len();
        let p = match scan::find(tag, m.as_bytes(), 0) {
            Some(p) => p,
            None => {
                return None;
            },
        };
        proof {
            scan::lemma_find_from_first(tag@, m.spec_bytes(), 0);
            lemma_frame_marker_lens();
        }
        let ds = p + m.len();
        let e = match scan::find_byte(tag, 34, ds) {
            Some(e) => e,
            None => {
                return None;
            },
        };
        proof {
            scan::lemma_find_byte_from_range(tag@, 34, ds as int);
            assert(tag@.subrange(p as int, p + 4)[3] == tag@[p + 3]);
            assert(tag@[ds - 1] == 34);
        }
        Some((ds, e))
    }

    /// Bounds, within the SVG block, of the first cubic path's `d` value.
    fn first_curve_d(svg: &[u8]) -> (r: Option<(usize, usize)>)
        ensures
            r is Some <==> spec_first_curve_d(svg@, 0) is Some,
            r is Some ==> ({
                let (s, e) = r.unwrap();
                &&& 0 < s <= e < svg@.len()
                &&& spec_first_curve_d(svg@, 0) == Some(svg@.subrange(s as int, e as int))
                &&& svg@[s - 1] == 34
                &&& svg@[e as int] == 34
            }),
    {
        let svgl = svg.len();
        let mut ps: usize = 0;
        #[verifier::loop_isolation(false)]
        loop
            invariant
                ps <= svgl + 5,
                spec_first_curve_d(svg@, 0) == spec_first_curve_d(svg@, ps as int),
            decreases svg@.len() + 5 - ps,
        {
            let pa = match scan::find(svg, "<path".as_bytes(), ps) {
                Some(p) => p,
                None => {
                    return None;
                },
            };
            proof {
                scan::lemma_find_from_first(svg@, "<path".spec_bytes(), ps as int);
                lemma_frame_marker_lens();
            }
            let endo = match scan::find(svg, "/>".as_bytes(), pa) {
                Some(x) => Some(x),
                None => scan::find(svg, "></path>".as_bytes(), pa),
            };
            proof {
                if find_from(svg@, "/>".spec_bytes(), pa as int) is Some {
                    scan::lemma_find_from_first(svg@, "/>".spec_bytes(), pa as int);
                } else if find_from(svg@, "></path>".spec_bytes(), pa as int) is Some {
                    scan::lemma_find_from_first(svg@, "></path>".spec_bytes(), pa as int);
                }
            }
            match endo {
                Some(e) => {
                    let tag = slice_subrange(svg, pa, e);
                    match Self::extract_path_d(tag) {
                        Some(b) => {
                            let ds = b.0;
                            let de = b.1;
                            let dsl = slice_subrange(tag, ds, de);
                            let has_curve = scan::find_byte(dsl, 67, 0);
                            if has_curve.is_some() {
                                proof {
                                    assert(svg@.subrange(pa + ds, pa + de) =~= tag@.subrange(
                                        ds as int,
                                        de as int,
                                    ));
                                }
                                return Some((pa + ds, pa + de));
                            }
                        },
                        None => {},
                    }
                },
                None => {},
            }
            ps = pa + 5;
        }
    }

    /// Collects, per anchor-id SVG block, the `d` attribute of the block's
    /// first cubic-bezier path.
    pub fn animation_frames(html: &str) -> (r: Vec<String>)
        ensures
            r@.map_values(|s: String| encode_utf8(s@)) == spec_animation_frames(
                html.spec_bytes(),
            ),
    {
        let hb = html.as_bytes();
        let hl = hb.len();
        let ghost h = html.spec_bytes();
        let mut frames: Vec<String> = Vec::new();
        let mut sp: usize = 0;
        #[verifier::loop_isolation(false)]
        loop
            invariant
                sp <= hl + 1,
                frames@.map_values(|s: String| encode_utf8(s@)) + spec_frames_from(h, sp as int)
                    =~= spec_animation_frames(h),
            decreases h.len() + 1 - sp,
        {
            let ghost done = frames@.map_values(|s: String| encode_utf8(s@));
            let pos = match scan::find(hb, "id=\"loading-x-anim".as_bytes(), sp) {
                Some(p) => p,
                None => {
                    proof {
                        assert(done + Seq::<Seq<u8>>::empty() =~= done);
                    }
                    return frames;
                },
            };
            let se = match scan::find(hb, "</svg>".as_bytes(), pos) {
                Some(p) => p,
                None => {
                    proof {
                        assert(done + Seq::<Seq<u8>>::empty() =~= done);
                    }
                    return frames;
                },
            };
            proof {
                scan::lemma_find_from_first(h, "id=\"loading-x-anim".spec_bytes(), sp as int);
                scan::lemma_find_from_first(h, "</svg>".spec_bytes(), pos as int);
                lemma_frame_marker_lens();
            }
            let svg = slice_subrange(hb, pos, se);
            let ghost next = if se > pos {
                se as int
            } else {
                pos + 1
            };
            match Self::first_curve_d(svg) {
                Some(b) => {
                    let s = b.0;
                    let e = b.1;
                    let astart = pos + s;
                    let aend = pos + e;
                    proof {
                        broadcast use vstd::utf8::encode_utf8_valid_utf8;
                        broadcast use vstd::utf8::is_char_boundary_iff_not_is_continuation_byte;

                        assert(valid_utf8(h));
                        assert(h[astart - 1] == svg@[s - 1]);
                        assert(h[aend as int] == svg@[e as int]);
                        assert(!is_continuation_byte(h[astart - 1]));
                        assert(is_char_boundary(h, astart - 1));
                        strutil::lemma_boundary_after_ascii(h, astart - 1);
                        assert(!is_continuation_byte(h[aend as int]));
                        assert(is_char_boundary(h, aend as int));
                    }
                    let d = strutil::substr(html, astart, aend);
                    frames.push(d);
                    proof {
                        let db = h.subrange(astart as int, aend as int);
                        assert(db =~= svg@.subrange(s as int, e as int));
                        assert(frames@.map_values(|s: String| encode_utf8(s@)) =~= done.push(db));
                        assert(done + (seq![db] + spec_frames_from(h, next)) =~= done.push(db)
                            + spec_frames_from(h, next));
                    }
                },
                None => {},
            }
            sp = if se > pos {
                se
            } else {
                pos + 1
            };
        }
    }

    /// Parses a path's `d` attribute into integer coordinate segments: the
    /// fixed-length move command is dropped, the rest is split on the cubic
    /// command `C`, and every signed integer of each piece is collected.
    pub fn parse_path_to_coordinates(path_d: &str) -> (r: Vec<Vec<i32>>)
        ensures
            r@.map_values(|v: Vec<i32>| v@) == spec_path_coords(path_d.spec_bytes()),
    {
        let db = path_d.as_bytes();
        let dl = db.len();
        let start: usize = if dl >= 9 {
            if dl == 9 {
                9
            } else {
                let b9 = db[9];
                if 128 <= b9 && b9 <= 191 {
                    0
                } else {
                    9
                }
            }
        } else {
            0
        };
        proof {
            assert(start == spec_content_start(path_d.spec_bytes()));
        }
        let content = slice_subrange(db, start, dl);
        let cl = content.len();
        let ghost cont = content@;
        let mut out: Vec<Vec<i32>> = Vec::new();
        let mut from: usize = 0;
        #[verifier::loop_isolation(false)]
        loop
            invariant
                from <= cl,
                spec_segments_ints_from(cont, 0) =~= out@.map_values(|v: Vec<i32>| v@)
                    + spec_segments_ints_from(cont, from as int),
            decreases cont.len() - from,
        {
            let ghost done = out@.map_values(|v: Vec<i32>| v@);
            match scan::find_byte(content, 67, from) {
                Some(c) => {
                    proof {
                        scan::lemma_find_byte_from_range(cont, 67, from as int);
                    }
                    let v = Self::segment_ints(content, from, c);
                    out.push(v);
                    proof {
                        let sv = spec_segment_ints(cont.subrange(from as int, c as int), 0);
                        assert(out@.map_values(|v: Vec<i32>| v@) =~= done.push(sv));
                        assert(done + (seq![sv] + spec_segments_ints_from(cont, c + 1)) =~= done
                            .push(sv) + spec_segments_ints_from(cont, c + 1));
                    }
                    from = c + 1;
                },
                None => {
                    let v = Self::segment_ints(content, from, cl);
                    out.push(v);
                    proof {
                        let sv = spec_segment_ints(cont.subrange(from as int, cont.len() as int), 0);
                        assert(out@.map_values(|v: Vec<i32>| v@) =~= done.push(sv));
                        assert(done + seq![sv] =~= done.push(sv));
                    }
                    return out;
                },
            }
        }
    }

    /// The integers of every token in `s[a..b]`.
    fn segment_ints(s: &[u8], a: usize, b: usize) -> (r: Vec<i32>)
        requires
            a <= b <= s@.len(),
        ensures
            r@ == spec_segment_ints(s@.subrange(a as int, b as int), 0),
    {
        let seg = slice_subrange(s, a, b);
        let ghost sg = seg@;
        let sl = seg.len();
        let mut out: Vec<i32> = Vec::new();
        let mut i: usize = 0;
        #[verifier::loop_isolation(false)]
        while i < sl
            invariant
                i <= sl,
                spec_segment_ints(sg, 0) =~= out@ + spec_segment_ints(sg, i as int),
            decreases sl - i,
        {
            let bch = seg[i];
            if (48 <= bch && bch <= 57) || bch == 45 {
                let e = Self::scan_tok(seg, i);
                proof {
                    lemma_tok_end_range(sg, i + 1);
                }
                let v = Self::parse_tok(seg, i, e);
                let ghost before = out@;
                match v {
                    Some(x) => {
                        out.push(x);
                        proof {
                            assert(before + (seq![x] + spec_segment_ints(sg, e as int)) =~= before
                                .push(x) + spec_segment_ints(sg, e as int));
                        }
                    },
                    None => {},
                }
                i = e;
            } else {
                i = i + 1;
            }
        }
        out
    }

    /// First non-token position at or after `from`.
    fn scan_tok(h: &[u8], from: usize) -> (r: usize)
        requires
            from <= h@.len(),
        ensures
            r == tok_end(h@, from as int),
            from <= r <= h@.len(),
    {
        let mut i: usize = from;
        while i < h.len() && ((48 <= h[i] && h[i] <= 57) || h[i] == 45)
            invariant
                from <= i <= h@.len(),
                tok_end(h@, from as int) == tok_end(h@, i as int),
            decreases h@.len() - i,
        {
            i = i + 1;
        }
        i
    }

    /// Parses the token `s[a..b]` as a signed 32-bit integer.
    fn parse_tok(s: &[u8], a: usize, b: usize) -> (r: Option<i32>)
        requires
            a <= b <= s@.len(),
        ensures
            r == parse_i32_tok(s@.subrange(a as int, b as int)),
    {
        let ghost t = s@.subrange(a as int, b as int);
        if a == b {
            return None;
        }
        let neg = s[a] == 45;
        let ds = if neg {
            a + 1
        } else {
            a
        };
        let ghost dseq = s@.subrange(ds as int, b as int);
        proof {
            if neg {
                assert(t.subrange(1, t.len() as int) =~= dseq);
            } else {
                assert(t =~= dseq);
            }
        }
        if ds == b {
            return None;
        }
        let mut k: usize = ds;
        #[verifier::loop_isolation(false)]
        while k < b
            invariant
                ds <= k <= b,
                forall|j: int| ds <= j < k ==> is_digit(#[trigger] s@[j]),
            decreases b - k,
        {
            let bch = s[k];
            if !(48 <= bch && bch <= 57) {
                proof {
                    assert(dseq[k - ds] == s@[k as int]);
                    assert(!all_digits(dseq));
                }
                return None;
            }
            k = k + 1;
        }
        proof {
            assert(forall|j: int| 0 <= j < dseq.len() ==> dseq[j] == #[trigger] s@[j + ds]);
            assert(all_digits(dseq));
        }
        match scan::parse_usize(s, ds, b) {
            None => {
                proof {
                    assert(usize::MAX >= 0x80000000);
                }
                None
            },
            Some(v) => {
                if neg {
                    if v <= 0x80000000 {
                        let w: i64 = -(v as i64);
                        Some(w as i32)
                    } else {
                        None
                    }
                } else {
                    if v <= 0x7fffffff {
                        Some(v as i32)
                    } else {
                        None
                    }
                }
            },
        }
    }

    /// For each frame selected by the key, the parsed coordinate segments:
    /// frames are extracted from the page, byte 5 of the key picks one
    /// modulo the frame count of 4, and its path is parsed.
    pub fn frame_data(key_bytes: &[u8], html: &str) -> (r: Result<Vec<Vec<i32>>, Error>)
        ensures
            ({
                let o = spec_frame_data(key_bytes@, html.spec_bytes());
                match r {
                    Ok(v) => o == FrameOutcome::Frames(v@.map_values(|x: Vec<i32>| x@)),
                    Err(e) => match e {
                        Error::MissingKey(m) => o is NoFrames && m@ == "animation frames"@,
                        Error::Parse(m) => (o is KeyTooShort && m@
                            == "key too short for frame selection"@) || (o is BadIndex && m@
                            == "frame index out of bounds"@),
                        _ => false,
                    },
                }
            }),
    {
        let frames = Self::animation_frames(html);
        if frames.len() == 0 {
            proof {
                assert(spec_animation_frames(html.spec_bytes()).len() == 0);
            }
            return Err(Error::MissingKey("animation frames".to_owned()));
        }
        if key_bytes.len() <= 5 {
            return Err(Error::Parse("key too short for frame selection".to_owned()));
        }
        let selector = key_bytes[5];
        let fi = (selector % 4) as usize;
        if fi >= frames.len() {
            return Err(Error::Parse("frame index out of bounds".to_owned()));
        }
        let frame = &frames[fi];
        let r = Self::parse_path_to_coordinates(frame.as_str());
        proof {
            let fseq = spec_animation_frames(html.spec_bytes());
            assert(frames@.map_values(|s: String| encode_utf8(s@))[fi as int] == encode_utf8(
                frames@[fi as int]@,
            ));
            assert(fseq[fi as int] == encode_utf8(frames@[fi as int]@));
        }
        Ok(r)
    }

    /// Gathers the inputs of the animation replay: the key byte at the row
    /// index, modulo 16, selects the coordinate segment of the frame that
    /// [`Self::frame_data`] picks, and each in-range key-byte index
    /// contributes its key byte's low half-byte as a frame-time factor.
    pub fn animation_key_inputs(
        key_bytes: &[u8],
        html: &str,
        row_index: usize,
        key_byte_indices: &[usize],
    ) -> (r: Result<AnimationInputs, Error>)
        ensures
            ({
                let o = spec_animation_inputs(
                    key_bytes@,
                    html.spec_bytes(),
                    row_index as int,
                    key_byte_indices@,
                );
                match r {
                    Ok(a) => o == InputsOutcome::Inputs(a.frame@, a.factors@),
                    Err(e) => match e {
                        Error::Parse(m) => (o is KeyTooShortRow && m@
                            == "key too short for row selection"@) || (o is KeyTooShort && m@
                            == "key too short for frame selection"@) || (o is BadIndex && m@
                            == "frame index out of bounds"@) || (o is RowOutOfBounds && m@
                            == "row index out of bounds"@),
                        Error::MissingKey(m) => o is NoFrames && m@ == "animation frames"@,
                        _ => false,
                    },
                }
            }),
    {
        if row_index >= key_bytes.len() {
            return Err(Error::Parse("key too short for row selection".to_owned()));
        }
        let riv = (key_bytes[row_index] % 16) as usize;
        let mut factors: Vec<u8> = Vec::new();
        let il = key_byte_indices.len();
        let mut i: usize = 0;
        proof {
            assert(key_byte_indices@.subrange(0, il as int) =~= key_byte_indices@);
        }
        #[verifier::loop_isolation(false)]
        while i < il
            invariant
                i <= il,
                spec_factors(key_bytes@, key_byte_indices@) =~= factors@ + spec_factors(
                    key_bytes@,
                    key_byte_indices@.subrange(i as int, il as int),
                ),
            decreases il - i,
        {
            let idx = key_byte_indices[i];
            let ghost suffix = key_byte_indices@.subrange(i as int, il as int);
            proof {
                assert(suffix.drop_first() =~= key_byte_indices@.subrange(i + 1, il as int));
                assert(suffix[0] == key_byte_indices@[i as int]);
            }
            if idx < key_bytes.len() {
                let f = key_bytes[idx] % 16;
                let ghost before = factors@;
                factors.push(f);
                proof {
                    assert(before + (seq![f] + spec_factors(key_bytes@, suffix.drop_first()))
                        =~= before.push(f) + spec_factors(key_bytes@, suffix.drop_first()));
                }
            }
            i = i + 1;
        }
        proof {
            assert(key_byte_indices@.subrange(il as int, il as int) =~= Seq::<usize>::empty());
        }
        let mut arr = match Self::frame_data(key_bytes, html) {
            Ok(v) => v,
            Err(e) => {
                return Err(e);
            },
        };
        if riv >= arr.len() {
            return Err(Error::Parse("row index out of bounds".to_owned()));
        }
        let frame = arr.swap_remove(riv);
        Ok(AnimationInputs { frame, factors })
    }
}

} // verus!
