//! Line representation with ANSI-aware plain/raw duality.
//!
//! Source lines may contain ANSI escape sequences. These must be preserved in
//! output but ignored for width calculation and search matching, so each
//! [`Line`] keeps two views:
//!
//! - **raw text**: the original text including escapes, used for rendering;
//! - **plain text**: the text without escapes, used for wrapping and search.
//!
//! The byte-level `plain_to_raw` mapping connects them: byte `i` of the plain
//! text is byte `plain_to_raw[i]` of the raw text.
//!
//! Example: raw `"\x1b[1mHi\x1b[0m, 😀"`, plain `"Hi, 😀"`,
//! plain_to_raw `[4, 5, 10, 11, 12, 13, 14, 15]`.

use std::ops::Range;

use vstd::prelude::*;

use crate::ansi::{
    lemma_segments_unique, parse_segments, segment_chars, segment_ok, segments_valid, Segment,
};
use crate::query::{regex_find_all, Query};
use crate::text::{
    byte_offset, bytes_len, char_len_utf8, chars_of, lemma_byte_offset_full,
    lemma_byte_offset_mono, lemma_byte_offset_step, lemma_bytes_len_concat, lemma_bytes_len_push,
    lemma_utf8_bytes_concat, lemma_utf8_bytes_len, string_from_chars, utf8_bytes, utf8_len,
};
use crate::width::{char_width, width_of};

verus! {

/// A single row produced by wrapping a [`Line`] at a given width: which line,
/// which wrap row of it, and the byte range of the raw text it covers.
#[derive(Debug, Clone, Copy, PartialEq, Eq, Structural, Hash, PartialOrd, Ord)]
pub struct Row {
    pub line_index: usize,
    pub wrap_index: usize,
    pub raw_start: usize,
    pub raw_end: usize,
}

impl Row {
    /// Index of the source line in the document.
    pub fn line_index(&self) -> (r: usize)
        ensures
            r == self.line_index,
    {
        self.line_index
    }

    /// Zero-based position of this row among the wrap rows of its line.
    pub fn wrap_index(&self) -> (r: usize)
        ensures
            r == self.wrap_index,
    {
        self.wrap_index
    }

    /// Byte range in the line's raw text covered by this row.
    pub fn raw_range(&self) -> (r: Range<usize>)
        ensures
            r.start == self.raw_start,
            r.end == self.raw_end,
    {
        self.raw_start..self.raw_end
    }
}

/// Position of a specific search match: line index and a byte range of the
/// line's plain text.
#[derive(Debug, Clone, Copy, PartialEq, Eq, Structural)]
pub struct MatchPosition {
    pub line_index: usize,
    pub plain_start: usize,
    pub plain_end: usize,
}

impl MatchPosition {
    pub fn new(line_index: usize, plain_range: Range<usize>) -> (r: MatchPosition)
        ensures
            r.line_index == line_index,
            r.plain_start == plain_range.start,
            r.plain_end == plain_range.end,
    {
        MatchPosition { line_index, plain_start: plain_range.start, plain_end: plain_range.end }
    }

    /// The match's byte range in the plain text.
    pub fn plain_range(&self) -> (r: Range<usize>)
        ensures
            r.start == self.plain_start,
            r.end == self.plain_end,
    {
        self.plain_start..self.plain_end
    }

    pub fn line_index(&self) -> (r: usize)
        ensures
            r == self.line_index,
    {
        self.line_index
    }

}

/// Where a search within a [`Line`] starts.
pub enum SearchLineFrom<'a> {
    Start,
    /// Matches from the given row onward.
    Row(&'a Row),
    /// Matches after the given one, which is excluded.
    NextOf(&'a MatchPosition),
    /// Matches before the given one, which is excluded.
    PrevOf(&'a MatchPosition),
}

/// The segments of `s`, i.e. its unique valid split.
pub open spec fn spec_segments(s: Seq<char>) -> Seq<Segment> {
    choose|segs: Seq<Segment>| segments_valid(s, segs)
}

/// The plain characters of the first segments of `s`.
pub open spec fn plain_of(s: Seq<char>, segs: Seq<Segment>) -> Seq<char>
    decreases segs.len(),
{
    if segs.len() == 0 {
        Seq::empty()
    } else {
        plain_of(s, segs.drop_last()) + if segs.last().control {
            Seq::empty()
        } else {
            segment_chars(s, segs.last())
        }
    }
}

/// The byte offsets `a..b`, in order.
pub open spec fn byte_run(a: nat, b: nat) -> Seq<usize> {
    Seq::new((b - a) as nat, |i: int| (a + i) as usize)
}

/// For each plain byte of the first segments of `s`, its byte offset in `s`.
pub open spec fn map_of(s: Seq<char>, segs: Seq<Segment>) -> Seq<usize>
    decreases segs.len(),
{
    if segs.len() == 0 {
        Seq::empty()
    } else {
        let last = segs.last();
        map_of(s, segs.drop_last()) + if last.control {
            Seq::<usize>::empty()
        } else {
            byte_run(byte_offset(s, last.start as int), byte_offset(s, last.end as int))
        }
    }
}

/// Text with its escape sequences and other controls removed.
pub open spec fn plain_text(raw: Seq<char>) -> Seq<char> {
    plain_of(raw, spec_segments(raw))
}

/// For each byte of `plain_text(raw)`, the byte offset it comes from in `raw`.
pub open spec fn plain_map(raw: Seq<char>) -> Seq<usize> {
    map_of(raw, spec_segments(raw))
}

/// The mapping covers every plain byte, points inside the raw text, and is
/// strictly increasing.
pub open spec fn map_facts(plain: Seq<char>, map: Seq<usize>, raw_len: nat) -> bool {
    &&& map.len() == bytes_len(plain)
    &&& forall|i: int| 0 <= i < map.len() ==> (#[trigger] map[i]) < raw_len
    &&& forall|i: int, j: int| 0 <= i < j < map.len() ==> map[i] < map[j]
}

/// The unique valid split is the one `spec_segments` picks.
pub proof fn lemma_spec_segments(s: Seq<char>, segs: Seq<Segment>)
    requires
        segments_valid(s, segs),
    ensures
        spec_segments(s) == segs,
{
    let chosen = spec_segments(s);
    assert(segments_valid(s, chosen));
    lemma_segments_unique(s, chosen, segs);
}

/// Byte offset `x` of `s` lies among the bytes of segment `seg`.
pub open spec fn in_segment_bytes(s: Seq<char>, seg: Segment, x: int) -> bool {
    byte_offset(s, seg.start as int) <= x < byte_offset(s, seg.end as int)
}

/// Byte offset `x` of `s` lies among the bytes of one of `segs`.
pub open spec fn covered_by_segments(s: Seq<char>, segs: Seq<Segment>, x: int) -> bool {
    exists|k: int| 0 <= k < segs.len() && #[trigger] in_segment_bytes(s, segs[k], x)
}

/// In a valid split, a segment ends no later than any later one starts.
proof fn lemma_segments_in_order(s: Seq<char>, segs: Seq<Segment>, k1: int, k2: int)
    requires
        segments_valid(s, segs),
        0 <= k1 < k2 < segs.len(),
    ensures
        segs[k1].end <= segs[k2].start,
    decreases k2 - k1,
{
    assert(segs[k1].end == segs[k1 + 1].start);
    if k1 + 1 < k2 {
        assert(segment_ok(s, segs[k1 + 1]));
        lemma_segments_in_order(s, segs, k1 + 1, k2);
    }
}

/// The byte offsets of a segment of a valid split lie within the text.
proof fn lemma_segment_bytes_bounds(s: Seq<char>, segs: Seq<Segment>, k: int)
    requires
        segments_valid(s, segs),
        0 <= k < segs.len(),
    ensures
        byte_offset(s, segs[k].start as int) < byte_offset(s, segs[k].end as int) <= bytes_len(s),
{
    assert(segment_ok(s, segs[k]));
    lemma_byte_offset_mono(s, segs[k].start as int, segs[k].end as int);
    lemma_byte_offset_mono(s, segs[k].end as int, s.len() as int);
    lemma_byte_offset_full(s);
}

/// An element is in a concatenation when it is in either part.
proof fn lemma_concat_contains<A>(a: Seq<A>, b: Seq<A>, x: A)
    ensures
        (a + b).contains(x) <==> a.contains(x) || b.contains(x),
{
    let w = a + b;
    if w.contains(x) {
        let i = choose|i: int| 0 <= i < w.len() && w[i] == x;
        if i < a.len() {
            assert(a[i] == x);
        } else {
            assert(b[i - a.len()] == x);
        }
    }
    if a.contains(x) {
        let i = choose|i: int| 0 <= i < a.len() && a[i] == x;
        assert(w[i] == x);
    }
    if b.contains(x) {
        let i = choose|i: int| 0 <= i < b.len() && b[i] == x;
        assert(w[a.len() + i] == x);
    }
}

/// A run of byte offsets holds exactly the offsets between its ends.
proof fn lemma_byte_run_contains(lo: nat, hi: nat, x: usize)
    requires
        lo <= hi <= usize::MAX,
    ensures
        byte_run(lo, hi).contains(x) <==> lo <= x < hi,
{
    let r = byte_run(lo, hi);
    if r.contains(x) {
        let i = choose|i: int| 0 <= i < r.len() && r[i] == x;
        assert(r[i] == (lo + i) as usize);
    }
    if lo <= x < hi {
        assert(r[x - lo] == x);
    }
}

/// The map built from the first `n` segments holds exactly the byte offsets
/// of their plain segments.
proof fn lemma_map_of_prefix(s: Seq<char>, segs: Seq<Segment>, n: int, x: usize)
    requires
        segments_valid(s, segs),
        bytes_len(s) <= usize::MAX,
        0 <= n <= segs.len(),
    ensures
        map_of(s, segs.take(n)).contains(x) <==> exists|k: int|
            0 <= k < n && !segs[k].control && #[trigger] in_segment_bytes(s, segs[k], x as int),
    decreases n,
{
    if n == 0 {
        assert(segs.take(0) =~= Seq::<Segment>::empty());
        assert(map_of(s, segs.take(0)) =~= Seq::<usize>::empty());
    } else {
        lemma_map_of_prefix(s, segs, n - 1, x);
        let t = segs.take(n);
        assert(t.drop_last() =~= segs.take(n - 1));
        assert(t.last() == segs[n - 1]);
        let seg = segs[n - 1];
        let head = map_of(s, segs.take(n - 1));
        let lo = byte_offset(s, seg.start as int);
        let hi = byte_offset(s, seg.end as int);
        lemma_segment_bytes_bounds(s, segs, n - 1);
        let tail = if seg.control {
            Seq::<usize>::empty()
        } else {
            byte_run(lo, hi)
        };
        assert(map_of(s, t) == head + tail);
        lemma_concat_contains(head, tail, x);
        if !seg.control {
            lemma_byte_run_contains(lo, hi, x);
        }
        let tail_has = !seg.control && in_segment_bytes(s, seg, x as int);
        assert(tail.contains(x) <==> tail_has);
        if exists|k: int| 0 <= k < n && !segs[k].control && #[trigger] in_segment_bytes(s, segs[k], x as int) {
            let k = choose|k: int|
                0 <= k < n && !segs[k].control && #[trigger] in_segment_bytes(s, segs[k], x as int);
            if k == n - 1 {
                assert(tail_has);
            }
        }
        if tail_has {
            assert(in_segment_bytes(s, segs[n - 1], x as int));
        }
    }
}

/// Every byte before the end of segment `n - 1` lies in one of the first `n`
/// segments.
proof fn lemma_segments_cover(s: Seq<char>, segs: Seq<Segment>, n: int, x: int)
    requires
        segments_valid(s, segs),
        0 < n <= segs.len(),
        0 <= x < byte_offset(s, segs[n - 1].end as int),
    ensures
        exists|k: int| 0 <= k < n && #[trigger] in_segment_bytes(s, segs[k], x),
    decreases n,
{
    if x >= byte_offset(s, segs[n - 1].start as int) {
        assert(in_segment_bytes(s, segs[n - 1], x));
    } else if n == 1 {
        assert(s.take(0) =~= Seq::<char>::empty());
    } else {
        assert(segs[n - 2].end == segs[n - 1].start);
        lemma_segments_cover(s, segs, n - 1, x);
        let k = choose|k: int| 0 <= k < n - 1 && #[trigger] in_segment_bytes(s, segs[k], x);
        assert(in_segment_bytes(s, segs[k], x));
    }
}

/// The plain-to-raw map points at exactly the raw bytes that are not part of
/// a control: every raw byte belongs to exactly one segment of the text, and
/// the map holds it if and only if that segment is plain text rather than an
/// escape sequence or other control.
pub proof fn law_plain_map_skips_exactly_the_controls(raw: Seq<char>, segs: Seq<Segment>)
    requires
        segments_valid(raw, segs),
        bytes_len(raw) <= usize::MAX,
    ensures
        spec_segments(raw) == segs,
        forall|x: usize|
            #[trigger] plain_map(raw).contains(x) <==> exists|k: int|
                0 <= k < segs.len() && !segs[k].control && #[trigger] in_segment_bytes(raw, segs[k], x as int),
        forall|x: int| 0 <= x < bytes_len(raw) ==> #[trigger] covered_by_segments(raw, segs, x),
        forall|x: int, k1: int, k2: int|
            0 <= k1 < k2 < segs.len() && #[trigger] in_segment_bytes(raw, segs[k1], x) ==> !#[trigger] in_segment_bytes(
                raw,
                segs[k2],
                x,
            ),
{
    lemma_spec_segments(raw, segs);
    assert(segs.take(segs.len() as int) =~= segs);
    assert forall|x: usize|
        #[trigger] plain_map(raw).contains(x) <==> exists|k: int|
            0 <= k < segs.len() && !segs[k].control && #[trigger] in_segment_bytes(raw, segs[k], x as int) by {
        lemma_map_of_prefix(raw, segs, segs.len() as int, x);
    }
    assert forall|x: int| 0 <= x < bytes_len(raw) implies #[trigger] covered_by_segments(raw, segs, x) by {
        lemma_byte_offset_full(raw);
        lemma_segments_cover(raw, segs, segs.len() as int, x);
    }
    assert forall|x: int, k1: int, k2: int|
        0 <= k1 < k2 < segs.len() && #[trigger] in_segment_bytes(raw, segs[k1], x) implies !#[trigger] in_segment_bytes(
        raw,
        segs[k2],
        x,
    ) by {
        lemma_segments_in_order(raw, segs, k1, k2);
        assert(segment_ok(raw, segs[k2]));
        lemma_byte_offset_mono(raw, segs[k1].end as int, segs[k2].start as int);
    }
}

/// The bytes of the characters `st..en` of `s` sit in the bytes of `s` at
/// the byte offset of `st`.
proof fn lemma_bytes_of_stretch(s: Seq<char>, st: int, en: int, j: int)
    requires
        0 <= st <= en <= s.len(),
        0 <= j < bytes_len(s.subrange(st, en)),
    ensures
        byte_offset(s, en) == byte_offset(s, st) + bytes_len(s.subrange(st, en)),
        utf8_bytes(s.subrange(st, en))[j] == utf8_bytes(s)[byte_offset(s, st) + j],
{
    let a = s.take(st);
    let sub = s.subrange(st, en);
    let rest = s.subrange(en, s.len() as int);
    assert(s.take(en) =~= a + sub);
    lemma_bytes_len_concat(a, sub);
    assert(s =~= a + sub + rest);
    lemma_utf8_bytes_concat(a + sub, rest);
    lemma_utf8_bytes_concat(a, sub);
    lemma_utf8_bytes_len(a);
    lemma_utf8_bytes_len(sub);
    let whole = utf8_bytes(a) + utf8_bytes(sub) + utf8_bytes(rest);
    assert(utf8_bytes(s) == whole);
    assert(whole[utf8_bytes(a).len() + j] == utf8_bytes(sub)[j]);
}

/// For the first `n` segments, each plain byte is the raw byte the map
/// gives for it.
proof fn lemma_plain_bytes_prefix(s: Seq<char>, segs: Seq<Segment>, n: int)
    requires
        segments_valid(s, segs),
        bytes_len(s) <= usize::MAX,
        0 <= n <= segs.len(),
    ensures
        map_of(s, segs.take(n)).len() == utf8_bytes(plain_of(s, segs.take(n))).len(),
        forall|i: int|
            0 <= i < map_of(s, segs.take(n)).len() ==> utf8_bytes(plain_of(s, segs.take(n)))[i] == utf8_bytes(
                s,
            )[#[trigger] map_of(s, segs.take(n))[i] as int],
    decreases n,
{
    if n == 0 {
        assert(segs.take(0) =~= Seq::<Segment>::empty());
    } else {
        lemma_plain_bytes_prefix(s, segs, n - 1);
        let t = segs.take(n);
        assert(t.drop_last() =~= segs.take(n - 1));
        assert(t.last() == segs[n - 1]);
        let seg = segs[n - 1];
        let p0 = plain_of(s, segs.take(n - 1));
        let m0 = map_of(s, segs.take(n - 1));
        lemma_segment_bytes_bounds(s, segs, n - 1);
        if !seg.control {
            let st = seg.start as int;
            let en = seg.end as int;
            let sub = s.subrange(st, en);
            let lo = byte_offset(s, st);
            let hi = byte_offset(s, en);
            let run = byte_run(lo, hi);
            assert(plain_of(s, t) == p0 + sub);
            assert(map_of(s, t) == m0 + run);
            lemma_utf8_bytes_concat(p0, sub);
            lemma_utf8_bytes_len(sub);
            if bytes_len(sub) > 0 {
                lemma_bytes_of_stretch(s, st, en, 0);
            } else {
                assert(s.take(en) =~= s.take(st) + sub);
                lemma_bytes_len_concat(s.take(st), sub);
            }
            let pb = utf8_bytes(p0) + utf8_bytes(sub);
            let m = m0 + run;
            assert forall|i: int| 0 <= i < m.len() implies pb[i] == utf8_bytes(s)[#[trigger] m[i] as int] by {
                if i < m0.len() {
                    assert(m[i] == m0[i]);
                    assert(pb[i] == utf8_bytes(p0)[i]);
                } else {
                    let j = i - m0.len();
                    assert(m[i] == run[j]);
                    assert(run[j] == (lo + j) as usize);
                    lemma_bytes_of_stretch(s, st, en, j);
                    assert(pb[i] == utf8_bytes(sub)[j]);
                }
            }
        } else {
            assert(plain_of(s, t) =~= p0);
            assert(map_of(s, t) =~= m0);
        }
    }
}

/// Byte for byte, the plain text is the raw text at the offsets the map
/// gives: the map has an offset for each plain byte, and the raw byte there
/// is that plain byte.
pub proof fn law_plain_bytes_come_from_the_raw_bytes(raw: Seq<char>, segs: Seq<Segment>)
    requires
        segments_valid(raw, segs),
        bytes_len(raw) <= usize::MAX,
    ensures
        plain_map(raw).len() == utf8_bytes(plain_text(raw)).len(),
        forall|i: int|
            0 <= i < plain_map(raw).len() ==> utf8_bytes(plain_text(raw))[i] == utf8_bytes(
                raw,
            )[#[trigger] plain_map(raw)[i] as int],
{
    lemma_spec_segments(raw, segs);
    assert(segs.take(segs.len() as int) =~= segs);
    lemma_plain_bytes_prefix(raw, segs, segs.len() as int);
}

/// Wrapping state after the first `j` plain characters: the raw byte offsets
/// where rows were broken so far, and the column reached in the current row.
pub open spec fn wrap_state(plain: Seq<char>, map: Seq<usize>, width: nat, j: nat) -> (
    Seq<usize>,
    nat,
)
    decreases j,
{
    if j == 0 {
        (Seq::empty(), 0)
    } else {
        let prev = wrap_state(plain, map, width, (j - 1) as nat);
        let w = width_of(plain[j - 1]);
        let at = map[byte_offset(plain, j - 1) as int];
        if prev.1 + w > width && prev.1 > 0 {
            (prev.0.push(at), w)
        } else {
            (prev.0, prev.1 + w)
        }
    }
}


/// Where the row breaks of the first `j` characters can no longer reach: the
/// raw offset of character `j`, or the end of the raw text.
pub open spec fn break_bound(plain: Seq<char>, map: Seq<usize>, raw_len: nat, j: nat) -> int {
    if j < plain.len() {
        map[byte_offset(plain, j as int) as int] as int
    } else {
        raw_len as int
    }
}

/// The row breaks of the first `j` characters increase strictly and stay
/// below the raw offset of character `j`.
pub proof fn lemma_wrap_breaks(plain: Seq<char>, map: Seq<usize>, raw_len: nat, width: nat, j: nat)
    requires
        map_facts(plain, map, raw_len),
        j <= plain.len(),
    ensures
        forall|k: int|
            0 <= k < wrap_state(plain, map, width, j).0.len() ==> (#[trigger] wrap_state(plain, map, width, j).0[k])
                < break_bound(plain, map, raw_len, j),
        forall|a: int, b: int|
            0 <= a < b < wrap_state(plain, map, width, j).0.len() ==> (#[trigger] wrap_state(plain, map, width, j).0[a])
                < (#[trigger] wrap_state(plain, map, width, j).0[b]),
    decreases j,
{
    if j > 0 {
        let jj = (j - 1) as nat;
        lemma_wrap_breaks(plain, map, raw_len, width, jj);
        lemma_byte_offset_mono(plain, jj as int, plain.len() as int);
        lemma_byte_offset_full(plain);
        lemma_byte_offset_step(plain, jj as int);
        lemma_byte_offset_mono(plain, j as int, plain.len() as int);
        let at = map[byte_offset(plain, jj as int) as int];
        assert(break_bound(plain, map, raw_len, jj) == at);
        assert(at < break_bound(plain, map, raw_len, j));
        let prev = wrap_state(plain, map, width, jj);
        let cur = wrap_state(plain, map, width, j);
        let w = width_of(plain[j - 1]);
        if prev.1 + w > width && prev.1 > 0 {
            assert(cur.0 == prev.0.push(at));
            assert forall|k: int| 0 <= k < cur.0.len() implies (#[trigger] cur.0[k]) < break_bound(
                plain,
                map,
                raw_len,
                j,
            ) by {
                if k < prev.0.len() {
                    assert(cur.0[k] == prev.0[k]);
                }
            }
            assert forall|a: int, b: int| 0 <= a < b < cur.0.len() implies (#[trigger] cur.0[a]) < (
            #[trigger] cur.0[b]) by {
                assert(cur.0[a] == prev.0[a]);
                if b < prev.0.len() {
                    assert(cur.0[b] == prev.0[b]);
                }
            }
        } else {
            assert(cur.0 == prev.0);
        }
    }
}

/// The rows a line wraps into cover its raw text in order, without gap or
/// overlap: the first starts at the beginning, each ends where the next one
/// starts, the last ends at the end of the raw text, and none runs backward.
pub proof fn law_wrap_rows_tile_the_line(line: Line, width: nat)
    requires
        line.wf(),
    ensures
        ({
            let rows = line.spec_wrap(width);
            &&& rows.len() >= 1
            &&& rows[0].raw_start == 0
            &&& rows.last().raw_end == line.spec_raw_len()
            &&& forall|k: int| 0 <= k < rows.len() - 1 ==> (#[trigger] rows[k]).raw_end == rows[k + 1].raw_start
            &&& forall|k: int| 0 <= k < rows.len() ==> (#[trigger] rows[k]).raw_start <= rows[k].raw_end
        }),
{
    line.lemma_wrap_shape(width);
    let rows = line.spec_wrap(width);
    if width > 0 {
        let plain = line.spec_plain();
        let map = line.spec_map();
        let len = line.spec_raw_len();
        lemma_wrap_breaks(plain, map, len as nat, width, plain.len());
        let breaks = wrap_state(plain, map, width, plain.len()).0;
        assert forall|k: int| 0 <= k < rows.len() implies (#[trigger] rows[k]).raw_start <= rows[k].raw_end by {
            if 0 < k < breaks.len() {
                assert(breaks[k - 1] < breaks[k]);
            }
        }
    }
}

/// Rows of line `index` cut at `breaks`, the last one ending at `raw_len`.
pub open spec fn rows_of_breaks(index: usize, breaks: Seq<usize>, raw_len: usize) -> Seq<Row> {
    Seq::new(
        breaks.len() + 1,
        |k: int|
            Row {
                line_index: index,
                wrap_index: k as usize,
                raw_start: if k == 0 {
                    0
                } else {
                    breaks[k - 1]
                },
                raw_end: if k < breaks.len() {
                    breaks[k]
                } else {
                    raw_len
                },
            },
    )
}

/// The rows a line wraps into at `width`: a new row starts before a character
/// that would overflow the width, unless the row is still empty. Width 0
/// means no wrapping.
pub open spec fn wrap_rows(
    index: usize,
    plain: Seq<char>,
    map: Seq<usize>,
    raw_len: usize,
    width: nat,
) -> Seq<Row> {
    if width == 0 {
        seq![Row { line_index: index, wrap_index: 0, raw_start: 0, raw_end: raw_len }]
    } else {
        rows_of_breaks(index, wrap_state(plain, map, width, plain.len()).0, raw_len)
    }
}

/// Number of leading elements of `ms` that satisfy `p`.
pub open spec fn leading<A>(ms: Seq<A>, p: spec_fn(A) -> bool) -> nat
    decreases ms.len(),
{
    if ms.len() == 0 {
        0
    } else if p(ms[0]) {
        1 + leading(ms.drop_first(), p)
    } else {
        0
    }
}

/// Raw byte offset of plain byte `i`; the end of the raw text past the end of
/// the plain text.
pub open spec fn raw_offset(map: Seq<usize>, raw_len: usize, i: int) -> usize {
    if 0 <= i < map.len() {
        map[i]
    } else {
        raw_len
    }
}

/// Raw byte offset just past the character that starts at plain byte
/// `m.plain_start`; the raw end of the match when no character starts there.
pub open spec fn first_char_raw_end(plain: Seq<char>, map: Seq<usize>, len: usize, m: MatchPosition) -> int {
    if exists|j: int| 0 <= j < plain.len() && byte_offset(plain, j) == m.plain_start {
        let j = choose|j: int| 0 <= j < plain.len() && byte_offset(plain, j) == m.plain_start;
        map[m.plain_start as int] + utf8_len(plain[j])
    } else {
        raw_offset(map, len, m.plain_end as int) as int
    }
}

/// Match positions on line `index` for byte ranges `ms`.
pub open spec fn positions(index: usize, ms: Seq<(usize, usize)>) -> Seq<MatchPosition> {
    Seq::new(
        ms.len(),
        |i: int| MatchPosition { line_index: index, plain_start: ms[i].0, plain_end: ms[i].1 },
    )
}

/// The raw byte offsets that follow an escape sequence embedded in the plain
/// bytes `start..end`: wherever two consecutive plain bytes are not adjacent in
/// the raw text.
pub open spec fn inner_boundaries(map: Seq<usize>, start: int, end: int) -> Seq<usize>
    decreases end - start,
{
    if end <= start + 1 {
        Seq::empty()
    } else {
        inner_boundaries(map, start, end - 1) + if map[end - 1] - map[end - 2] > 1 {
            seq![map[end - 1]]
        } else {
            Seq::<usize>::empty()
        }
    }
}

/// Two lines with the same index and the same views.
pub open spec fn same_line(a: Line, b: Line) -> bool {
    &&& a.spec_index() == b.spec_index()
    &&& a.spec_raw() == b.spec_raw()
    &&& a.spec_plain() == b.spec_plain()
    &&& a.spec_map() == b.spec_map()
    &&& a.spec_raw_len() == b.spec_raw_len()
    &&& a.wf() == b.wf()
}

impl Clone for Line {
    fn clone(&self) -> (r: Line)
        ensures
            same_line(r, *self),
    {
        proof {
            use_type_invariant(self);
        }
        let raw_chars = self.raw_chars.clone();
        let plain_chars = self.plain_chars.clone();
        let plain_to_raw = self.plain_to_raw.clone();
        proof {
            assert(raw_chars@ =~= self.raw_chars@);
            assert(plain_chars@ =~= self.plain_chars@);
            assert(plain_to_raw@ =~= self.plain_to_raw@);
        }
        Line {
            index: self.index,
            raw: self.raw.clone(),
            raw_chars,
            plain: self.plain.clone(),
            plain_chars,
            plain_to_raw,
            raw_len: self.raw_len,
        }
    }
}

/// A single line of text from the document.
#[derive(Debug)]
pub struct Line {
    index: usize,
    raw: String,
    raw_chars: Vec<char>,
    plain: String,
    plain_chars: Vec<char>,
    plain_to_raw: Vec<usize>,
    raw_len: usize,
}

/// The index given to `Line::new` and the text the line holds.
pub open spec fn line_made_from(line: Line, index: usize, raw: Seq<char>) -> bool {
    &&& line.wf()
    &&& line.spec_index() == index
    &&& line.spec_raw() == raw
}

impl Line {
    pub closed spec fn spec_index(&self) -> usize {
        self.index
    }

    /// The raw text.
    pub closed spec fn spec_raw(&self) -> Seq<char> {
        self.raw_chars@
    }

    /// The plain text.
    pub closed spec fn spec_plain(&self) -> Seq<char> {
        self.plain_chars@
    }

    /// The plain-to-raw byte mapping.
    pub closed spec fn spec_map(&self) -> Seq<usize> {
        self.plain_to_raw@
    }

    /// Byte length of the raw text.
    pub closed spec fn spec_raw_len(&self) -> usize {
        self.raw_len
    }

    /// The views agree and are derived from the raw text.
    #[verifier::type_invariant]
    pub closed spec fn wf(&self) -> bool {
        &&& self.raw@ == self.raw_chars@
        &&& self.plain@ == self.plain_chars@
        &&& self.plain_chars@ == plain_text(self.raw_chars@)
        &&& self.plain_to_raw@ == plain_map(self.raw_chars@)
        &&& self.raw_len == bytes_len(self.raw_chars@)
        &&& map_facts(self.plain_chars@, self.plain_to_raw@, self.raw_len as nat)
        &&& self.plain_chars@.len() <= usize::MAX
    }

    /// What a well-formed line guarantees of its views.
    pub proof fn lemma_wf(&self)
        requires
            self.wf(),
        ensures
            self.spec_plain() == plain_text(self.spec_raw()),
            self.spec_map() == plain_map(self.spec_raw()),
            self.spec_raw_len() == bytes_len(self.spec_raw()),
            map_facts(self.spec_plain(), self.spec_map(), self.spec_raw_len() as nat),
    {
    }

    /// The rows of a line are numbered from zero, carry the line's index, and
    /// there is at least one and at most as many as a `usize` counts.
    pub proof fn lemma_wrap_shape(&self, width: nat)
        requires
            self.wf(),
        ensures
            1 <= self.spec_wrap(width).len() <= usize::MAX,
            forall|k: int|
                0 <= k < self.spec_wrap(width).len() ==> (#[trigger] self.spec_wrap(width)[k]).line_index
                    == self.spec_index() && self.spec_wrap(width)[k].wrap_index == k,
    {
        if width > 0 {
            lemma_breaks_len(self.plain_chars@, self.plain_to_raw@, width, self.plain_chars@.len());
        }
    }

    /// The rows this line wraps into at `width`.
    pub open spec fn spec_wrap(&self, width: nat) -> Seq<Row> {
        wrap_rows(self.spec_index(), self.spec_plain(), self.spec_map(), self.spec_raw_len(), width)
    }

    /// Create a line from raw text, separating out its escape sequences.
    /// `index` is the position of this line in the document.
    pub fn new(index: usize, raw_line: String) -> (line: Line)
        requires
            bytes_len(raw_line@) <= usize::MAX,
        ensures
            line_made_from(line, index, raw_line@),
    {
        let raw_chars = chars_of(raw_line.as_str());
        let segs = parse_segments(&raw_chars);
        let ghost s = raw_chars@;
        let mut plain_chars: Vec<char> = Vec::new();
        let mut map: Vec<usize> = Vec::new();
        let mut i_raw: usize = 0;
        let mut k: usize = 0;
        proof {
            lemma_byte_offset_full(s);
            assert(s.take(0) =~= Seq::<char>::empty());
            assert(segs@.take(0) =~= Seq::<Segment>::empty());
        }
        while k < segs.len()
            invariant
                s == raw_chars@,
                bytes_len(s) <= usize::MAX,
                segments_valid(s, segs@),
                k <= segs@.len(),
                k < segs@.len() ==> i_raw == byte_offset(s, segs@[k as int].start as int),
                k == segs@.len() ==> i_raw == bytes_len(s),
                plain_chars@ == plain_of(s, segs@.take(k as int)),
                map@ == map_of(s, segs@.take(k as int)),
                map_facts(plain_chars@, map@, i_raw as nat),
            decreases segs@.len() - k,
        {
            let seg = segs[k];
            assert(segment_ok(s, segs@[k as int]));
            let ghost plain0 = plain_chars@;
            let ghost map0 = map@;
            let ghost start_off = byte_offset(s, seg.start as int);
            let mut c = seg.start;
            while c < seg.end
                invariant
                    s == raw_chars@,
                    bytes_len(s) <= usize::MAX,
                    seg.start <= c <= seg.end <= s.len(),
                    start_off == byte_offset(s, seg.start as int),
                    i_raw == byte_offset(s, c as int),
                    seg.control ==> plain_chars@ == plain0 && map@ == map0,
                    !seg.control ==> plain_chars@ == plain0 + s.subrange(seg.start as int, c as int),
                    !seg.control ==> map@ == map0 + byte_run(start_off, i_raw as nat),
                    map_facts(plain_chars@, map@, i_raw as nat),
                    map_facts(plain0, map0, start_off),
                decreases seg.end - c,
            {
                proof {
                    lemma_byte_offset_step(s, c as int);
                    lemma_byte_offset_mono(s, c + 1, s.len() as int);
                    lemma_byte_offset_full(s);
                }
                let ch = raw_chars[c];
                let n = char_len_utf8(ch);
                if seg.control {
                    i_raw = i_raw + n;
                } else {
                    let ghost plain_before = plain_chars@;
                    let ghost map_before = map@;
                    let ghost off_c = i_raw as nat;
                    plain_chars.push(ch);
                    proof {
                        lemma_bytes_len_push(plain_before, ch);
                    }
                    let mut t: usize = 0;
                    while t < n
                        invariant
                            t <= n,
                            n == utf8_len(ch),
                            off_c + n <= usize::MAX,
                            i_raw == off_c + t,
                            map@ == map_before + byte_run(off_c, i_raw as nat),
                            map_before.len() == bytes_len(plain_before),
                            bytes_len(plain_chars@) == bytes_len(plain_before) + n,
                            forall|i: int|
                                0 <= i < map_before.len() ==> (#[trigger] map_before[i]) < off_c,
                            forall|i: int, j: int|
                                0 <= i < j < map_before.len() ==> map_before[i] < map_before[j],
                            map_facts(plain_chars@.drop_last(), map_before, off_c),
                        decreases n - t,
                    {
                        map.push(i_raw);
                        i_raw = i_raw + 1;
                        t = t + 1;
                        proof {
                            assert(map@ =~= map_before + byte_run(off_c, i_raw as nat));
                        }
                    }
                    proof {
                        assert(plain_chars@ =~= plain0 + s.subrange(seg.start as int, c + 1));
                        lemma_byte_offset_mono(s, seg.start as int, c as int);
                        lemma_byte_run_concat(start_off, off_c, i_raw as nat);
                        assert(map@ =~= map0 + byte_run(start_off, i_raw as nat));
                        assert forall|i: int| 0 <= i < map@.len() implies (#[trigger] map@[i])
                            < i_raw by {
                            if i >= map_before.len() {
                                assert(map@[i] == off_c + (i - map_before.len()));
                            }
                        }
                        assert forall|i: int, j: int| 0 <= i < j < map@.len() implies map@[i]
                            < map@[j] by {
                            if j >= map_before.len() {
                                assert(map@[j] == off_c + (j - map_before.len()));
                                if i >= map_before.len() {
                                    assert(map@[i] == off_c + (i - map_before.len()));
                                } else {
                                    assert(map_before[i] < off_c);
                                }
                            }
                        }
                    }
                }
                c = c + 1;
            }
            proof {
                let take_next = segs@.take(k + 1);
                assert(take_next.drop_last() =~= segs@.take(k as int));
                assert(take_next.last() == seg);
                if !seg.control {
                    assert(segment_chars(s, seg) == s.subrange(seg.start as int, seg.end as int));
                }
                if k + 1 < segs@.len() {
                    assert(segs@[k as int].end == segs@[k + 1].start);
                } else {
                    lemma_byte_offset_full(s);
                }
            }
            k = k + 1;
        }
        proof {
            assert(segs@.take(segs@.len() as int) =~= segs@);
            lemma_spec_segments(s, segs@);
        }
        let plain = string_from_chars(plain_chars.as_slice());
        let _n_plain = plain_chars.len();
        Line {
            index,
            raw: raw_line,
            raw_chars,
            plain,
            plain_chars,
            plain_to_raw: map,
            raw_len: i_raw,
        }
    }

    /// This line placed at position `index` of the document.
    pub closed spec fn spec_relabeled(&self, index: usize) -> Line {
        Line { index, ..*self }
    }

    /// Relabeling keeps a line well formed and changes nothing but its index.
    pub proof fn lemma_relabeled(&self, index: usize)
        requires
            self.wf(),
        ensures
            self.spec_relabeled(index).wf(),
            self.spec_relabeled(index).spec_index() == index,
            self.spec_relabeled(index).spec_raw() == self.spec_raw(),
            self.spec_relabeled(index).spec_plain() == self.spec_plain(),
            self.spec_relabeled(index).spec_map() == self.spec_map(),
            self.spec_relabeled(index).spec_raw_len() == self.spec_raw_len(),
    {
    }

    /// Every line value is well formed.
    pub fn lemma_is_wf(&self)
        ensures
            self.wf(),
    {
        proof {
            use_type_invariant(self);
        }
    }

    /// This line placed at position `index` of the document.
    pub fn with_index(self, index: usize) -> (r: Line)
        ensures
            r == self.spec_relabeled(index),
    {
        proof {
            use_type_invariant(&self);
        }
        Line { index, ..self }
    }

    /// The position of this line in the document.
    pub fn index(&self) -> (r: usize)
        ensures
            r == self.spec_index(),
    {
        self.index
    }

    /// The original raw text including escape sequences.
    pub fn raw(&self) -> (r: &str)
        requires
            self.wf(),
        ensures
            r@ == self.spec_raw(),
    {
        self.raw.as_str()
    }

    /// The raw text as characters.
    pub fn raw_chars(&self) -> (r: &Vec<char>)
        ensures
            r@ == self.spec_raw(),
    {
        &self.raw_chars
    }

    /// The plain text, without escape sequences.
    pub fn plain(&self) -> (r: &str)
        requires
            self.wf(),
        ensures
            r@ == self.spec_plain(),
    {
        self.plain.as_str()
    }

    /// The byte mapping from plain text to raw text.
    pub fn plain_to_raw(&self) -> (r: &Vec<usize>)
        ensures
            r@ == self.spec_map(),
    {
        &self.plain_to_raw
    }

    /// Byte length of the raw text.
    pub fn raw_len(&self) -> (r: usize)
        ensures
            r == self.spec_raw_len(),
    {
        self.raw_len
    }

    /// Compute the rows of this line wrapped at `width`. Wrapping is computed
    /// on the plain text, while each row's range refers to the raw text.
    pub fn wrap(&self, width: usize) -> (rows: Vec<Row>)
        requires
            self.wf(),
        ensures
            rows@ == self.spec_wrap(width as nat),
            rows@.len() >= 1,
    {
        if width == 0 {
            let mut v: Vec<Row> = Vec::new();
            v.push(Row { line_index: self.index, wrap_index: 0, raw_start: 0, raw_end: self.raw_len });
            return v;
        }
        let ghost plain = self.plain_chars@;
        let ghost map = self.plain_to_raw@;
        let mut rows: Vec<Row> = Vec::new();
        let mut row_start: usize = 0;
        let mut col: usize = 0;
        let mut i_plain_byte: usize = 0;
        let mut j: usize = 0;
        let ghost mut breaks: Seq<usize> = Seq::empty();
        let map_len = self.plain_to_raw.len();
        while j < self.plain_chars.len()
            invariant
                self.wf(),
                map_len == map.len(),
                width > 0,
                plain == self.plain_chars@,
                map == self.plain_to_raw@,
                j <= plain.len(),
                i_plain_byte == byte_offset(plain, j as int),
                wrap_state(plain, map, width as nat, j as nat) == (breaks, col as nat),
                col <= width || col <= 255,
                rows@.len() == breaks.len(),
                row_start == if breaks.len() == 0 {
                    0
                } else {
                    breaks.last()
                },
                forall|k: int|
                    0 <= k < rows@.len() ==> #[trigger] rows@[k] == rows_of_breaks(
                        self.index,
                        breaks,
                        self.raw_len,
                    )[k],
            decreases plain.len() - j,
        {
            proof {
                lemma_byte_offset_step(plain, j as int);
                lemma_byte_offset_mono(plain, j + 1, plain.len() as int);
                lemma_byte_offset_full(plain);
                assert(map.len() == bytes_len(plain));
            }
            let ch = self.plain_chars[j];
            let at = self.plain_to_raw[i_plain_byte];
            let w = char_width(ch);
            if col > 0 && (w > width || col > width - w) {
                let ghost old_breaks = breaks;
                rows.push(Row { line_index: self.index, wrap_index: rows.len(), raw_start: row_start, raw_end: at });
                proof {
                    breaks = breaks.push(at);
                    assert forall|k: int| 0 <= k < rows@.len() implies #[trigger] rows@[k]
                        == rows_of_breaks(self.index, breaks, self.raw_len)[k] by {
                        if k < old_breaks.len() {
                            assert(rows@[k] == rows_of_breaks(self.index, old_breaks, self.raw_len)[k]);
                        }
                    }
                }
                row_start = at;
                col = w;
            } else {
                col = col + w;
            }
            i_plain_byte = i_plain_byte + char_len_utf8(ch);
            j = j + 1;
        }
        let ghost before = rows@;
        rows.push(Row { line_index: self.index, wrap_index: rows.len(), raw_start: row_start, raw_end: self.raw_len });
        proof {
            assert(rows@ =~= rows_of_breaks(self.index, breaks, self.raw_len));
        }
        rows
    }

    /// Number of screen rows this line occupies at `width`.
    pub fn row_count(&self, width: usize) -> (n: usize)
        requires
            self.wf(),
        ensures
            n == self.spec_wrap(width as nat).len(),
            n >= 1,
    {
        self.wrap(width).len()
    }

    /// Whether the plain text contains any match of `query`.
    pub fn has_match(&self, query: &Query) -> (r: bool)
        ensures
            r == (regex_find_all(query@, self.spec_plain()).len() > 0),
    {
        query.is_match(self.plain_chars.as_slice())
    }

    /// All matches of `query` in the plain text.
    pub fn find_matches(&self, query: &Query) -> (r: Vec<MatchPosition>)
        ensures
            r@ == positions(self.spec_index(), regex_find_all(query@, self.spec_plain())),
            forall|i: int|
                0 <= i < r@.len() ==> (#[trigger] r@[i]).plain_start <= r@[i].plain_end <= bytes_len(
                    self.spec_plain(),
                ),
    {
        let ranges = query.find_ranges(self.plain_chars.as_slice());
        let r = self.to_positions(&ranges, 0, ranges.len());
        proof {
            assert(ranges@.subrange(0, ranges@.len() as int) =~= ranges@);
            assert forall|i: int| 0 <= i < r@.len() implies (#[trigger] r@[i]).plain_start <= r@[i].plain_end
                <= bytes_len(self.spec_plain()) by {
                assert(ranges@[i] == ranges@[i]);
            }
        }
        r
    }

    fn to_positions(&self, ranges: &Vec<(usize, usize)>, from: usize, to: usize) -> (r: Vec<
        MatchPosition,
    >)
        requires
            from <= to <= ranges@.len(),
        ensures
            r@ == positions(self.spec_index(), ranges@.subrange(from as int, to as int)),
    {
        let mut out: Vec<MatchPosition> = Vec::new();
        let mut i = from;
        while i < to
            invariant
                from <= i <= to <= ranges@.len(),
                out@ == positions(self.spec_index(), ranges@.subrange(from as int, i as int)),
            decreases to - i,
        {
            let (a, b) = ranges[i];
            out.push(MatchPosition { line_index: self.index, plain_start: a, plain_end: b });
            i += 1;
            proof {
                assert(out@ =~= positions(self.spec_index(), ranges@.subrange(from as int, i as int)));
            }
        }
        out
    }

    /// Raw byte offset of plain byte `i`; a match may end at the end of the
    /// plain text, which maps to the end of the raw text.
    fn plain_to_raw_safe(&self, i: usize) -> (r: usize)
        ensures
            r == raw_offset(self.spec_map(), self.spec_raw_len(), i as int),
    {
        if i < self.plain_to_raw.len() {
            self.plain_to_raw[i]
        } else {
            self.raw_len
        }
    }

    /// Matches of `query` in the plain text, starting as `from` says.
    pub fn matches_from(&self, query: &Query, from: SearchLineFrom) -> (r: Vec<MatchPosition>)
        ensures
            ({
                let ms = regex_find_all(query@, self.spec_plain());
                let map = self.spec_map();
                let len = self.spec_raw_len();
                r@ == positions(
                    self.spec_index(),
                    match from {
                        SearchLineFrom::Start => ms,
                        SearchLineFrom::NextOf(b) => ms.skip(
                            leading(ms, |m: (usize, usize)| m.0 < b.plain_end) as int,
                        ),
                        SearchLineFrom::PrevOf(b) => ms.take(
                            leading(ms, |m: (usize, usize)| m.1 <= b.plain_start) as int,
                        ),
                        SearchLineFrom::Row(row) => ms.skip(
                            leading(
                                ms,
                                |m: (usize, usize)| raw_offset(map, len, m.0 as int) < row.raw_start,
                            ) as int,
                        ),
                    },
                )
            }),
    {
        let ranges = query.find_ranges(self.plain_chars.as_slice());
        let ghost ms = ranges@;
        let mut i: usize = 0;
        assert(ms.skip(0) =~= ms);
        match from {
            SearchLineFrom::Start => self.to_positions(&ranges, 0, ranges.len()),
            SearchLineFrom::NextOf(b) => {
                let ghost p = |m: (usize, usize)| m.0 < b.plain_end;
                while i < ranges.len() && ranges[i].0 < b.plain_end
                    invariant
                        i <= ms.len(),
                        ms == ranges@,
                        p == (|m: (usize, usize)| m.0 < b.plain_end),
                        leading(ms, p) == i + leading(ms.skip(i as int), p),
                    decreases ms.len() - i,
                {
                    proof {
                        assert(ms.skip(i as int).drop_first() =~= ms.skip(i + 1));
                        assert(ms.skip(i as int)[0] == ms[i as int]);
                        assert(p(ms[i as int]));
                    }
                    i += 1;
                }
                proof {
                    lemma_leading_stop(ms, p, i as int);
                    assert(ms.skip(i as int) =~= ms.subrange(i as int, ms.len() as int));
                }
                self.to_positions(&ranges, i, ranges.len())
            },
            SearchLineFrom::PrevOf(b) => {
                let ghost p = |m: (usize, usize)| m.1 <= b.plain_start;
                while i < ranges.len() && ranges[i].1 <= b.plain_start
                    invariant
                        i <= ms.len(),
                        ms == ranges@,
                        p == (|m: (usize, usize)| m.1 <= b.plain_start),
                        leading(ms, p) == i + leading(ms.skip(i as int), p),
                    decreases ms.len() - i,
                {
                    proof {
                        assert(ms.skip(i as int).drop_first() =~= ms.skip(i + 1));
                        assert(ms.skip(i as int)[0] == ms[i as int]);
                        assert(p(ms[i as int]));
                    }
                    i += 1;
                }
                proof {
                    lemma_leading_stop(ms, p, i as int);
                    assert(ms.take(i as int) =~= ms.subrange(0, i as int));
                }
                self.to_positions(&ranges, 0, i)
            },
            SearchLineFrom::Row(row) => {
                let ghost map = self.plain_to_raw@;
                let ghost len = self.raw_len;
                let ghost p = |m: (usize, usize)| raw_offset(map, len, m.0 as int) < row.raw_start;
                while i < ranges.len() && self.plain_to_raw_safe(ranges[i].0) < row.raw_start
                    invariant
                        i <= ms.len(),
                        ms == ranges@,
                        map == self.plain_to_raw@,
                        len == self.raw_len,
                        p == (|m: (usize, usize)| raw_offset(map, len, m.0 as int) < row.raw_start),
                        leading(ms, p) == i + leading(ms.skip(i as int), p),
                    decreases ms.len() - i,
                {
                    proof {
                        assert(ms.skip(i as int).drop_first() =~= ms.skip(i + 1));
                        assert(ms.skip(i as int)[0] == ms[i as int]);
                        assert(p(ms[i as int]));
                    }
                    i += 1;
                }
                proof {
                    lemma_leading_stop(ms, p, i as int);
                    assert(ms.skip(i as int) =~= ms.subrange(i as int, ms.len() as int));
                }
                self.to_positions(&ranges, i, ranges.len())
            },
        }
    }

    /// The first match at or after `from`.
    pub fn find_first_match_from(&self, query: &Query, from: SearchLineFrom) -> (r: Option<
        MatchPosition,
    >)
        ensures
            ({
                let all = self.spec_matches_from(query@, from);
                if all.len() == 0 {
                    r is None
                } else {
                    r == Some(all[0])
                }
            }),
    {
        let all = self.matches_from(query, from);
        if all.len() == 0 {
            None
        } else {
            Some(all[0])
        }
    }

    /// The last match before `from` (or in the whole line).
    pub fn find_last_match_from(&self, query: &Query, from: SearchLineFrom) -> (r: Option<
        MatchPosition,
    >)
        ensures
            ({
                let all = self.spec_matches_from(query@, from);
                if all.len() == 0 {
                    r is None
                } else {
                    r == Some(all.last())
                }
            }),
    {
        let all = self.matches_from(query, from);
        if all.len() == 0 {
            None
        } else {
            Some(all[all.len() - 1])
        }
    }

    /// The matches `matches_from` returns.
    pub open spec fn spec_matches_from(&self, pattern: Seq<char>, from: SearchLineFrom) -> Seq<
        MatchPosition,
    > {
        let ms = regex_find_all(pattern, self.spec_plain());
        let map = self.spec_map();
        let len = self.spec_raw_len();
        positions(
            self.spec_index(),
            match from {
                SearchLineFrom::Start => ms,
                SearchLineFrom::NextOf(b) => ms.skip(
                    leading(ms, |m: (usize, usize)| m.0 < b.plain_end) as int,
                ),
                SearchLineFrom::PrevOf(b) => ms.take(
                    leading(ms, |m: (usize, usize)| m.1 <= b.plain_start) as int,
                ),
                SearchLineFrom::Row(row) => ms.skip(
                    leading(
                        ms,
                        |m: (usize, usize)| raw_offset(map, len, m.0 as int) < row.raw_start,
                    ) as int,
                ),
            },
        )
    }

    /// Raw byte range of a match; an end at the end of the plain text maps to
    /// the end of the raw text.
    pub fn match_raw_range(&self, m: &MatchPosition) -> (r: Range<usize>)
        ensures
            r.start == raw_offset(self.spec_map(), self.spec_raw_len(), m.plain_start as int),
            r.end == raw_offset(self.spec_map(), self.spec_raw_len(), m.plain_end as int),
    {
        self.plain_to_raw_safe(m.plain_start)..self.plain_to_raw_safe(m.plain_end)
    }

    /// Raw byte offsets where plain text resumes right after an escape sequence
    /// embedded inside the match.
    pub fn match_inner_escape_boundaries(&self, m: &MatchPosition) -> (r: Vec<usize>)
        requires
            self.wf(),
            m.plain_start <= m.plain_end <= self.spec_map().len(),
        ensures
            r@ == inner_boundaries(
                self.spec_map(),
                m.plain_start as int,
                m.plain_end as int,
            ),
    {
        let start = m.plain_start;
        let end = m.plain_end;
        let ghost map = self.plain_to_raw@;
        let mut out: Vec<usize> = Vec::new();
        if end - start <= 1 {
            return out;
        }
        let mut i = start + 1;
        proof {
            assert(out@ =~= inner_boundaries(map, start as int, start + 1));
        }
        while i < end
            invariant
                self.wf(),
                map == self.plain_to_raw@,
                start + 1 <= i <= end,
                end <= map.len(),
                out@ == inner_boundaries(map, start as int, i as int),
            decreases end - i,
        {
            let a = self.plain_to_raw[i - 1];
            let b = self.plain_to_raw[i];
            assert(a < b);
            if b - a > 1 {
                out.push(b);
            }
            proof {
                assert(out@ =~= inner_boundaries(map, start as int, i + 1));
            }
            i += 1;
        }
        out
    }

    /// Raw byte offset just past the first character of the match, i.e. the
    /// end of the character that starts at plain byte `m.plain_start`.
    /// Falls back to the raw end of the match when no character starts there.
    pub fn match_first_char_raw_end(&self, m: &MatchPosition) -> (r: usize)
        requires
            self.wf(),
        ensures
            r == first_char_raw_end(self.spec_plain(), self.spec_map(), self.spec_raw_len(), *m),
    {
        let ghost plain = self.plain_chars@;
        let ghost map = self.plain_to_raw@;
        let target = m.plain_start;
        let mut j: usize = 0;
        let mut off: usize = 0;
        let map_len = self.plain_to_raw.len();
        while j < self.plain_chars.len() && off < target
            invariant
                self.wf(),
                map_len == map.len(),
                plain == self.plain_chars@,
                map == self.plain_to_raw@,
                j <= plain.len(),
                off == byte_offset(plain, j as int),
                forall|k: int| 0 <= k < j ==> byte_offset(plain, k) < target,
            decreases plain.len() - j,
        {
            proof {
                lemma_byte_offset_step(plain, j as int);
                lemma_byte_offset_mono(plain, j + 1, plain.len() as int);
                lemma_byte_offset_full(plain);
                assert(map.len() == bytes_len(plain));
            }
            off = off + char_len_utf8(self.plain_chars[j]);
            j = j + 1;
        }
        proof {
            lemma_byte_offset_full(plain);
        }
        if j < self.plain_chars.len() && off == target {
            proof {
                lemma_byte_offset_mono(plain, j as int, plain.len() as int);
                lemma_byte_offset_step(plain, j as int);
                lemma_byte_offset_mono(plain, j + 1, plain.len() as int);
                assert forall|k: int|
                    0 <= k < plain.len() && byte_offset(plain, k) == target implies k == j by {
                    if k < j {
                    } else if k > j {
                        lemma_byte_offset_mono(plain, j as int, k);
                    }
                }
                assert(self.plain_to_raw@.len() == bytes_len(plain));
            }
            assert(0 <= j < plain.len() && byte_offset(plain, j as int) == target);
            let ghost chosen = choose|x: int|
                0 <= x < plain.len() && byte_offset(plain, x) == m.plain_start;
            assert(chosen == j);
            let at = self.plain_to_raw[off];
            let n = char_len_utf8(self.plain_chars[j]);
            proof {
                lemma_map_gap(map, self.raw_len as nat, off as int, n - 1);
            }
            at + n
        } else {
            proof {
                assert forall|k: int| 0 <= k < plain.len() implies byte_offset(plain, k)
                    != target by {
                    if k < j {
                    } else {
                        lemma_byte_offset_mono(plain, j as int, k);
                    }
                }
            }
            self.plain_to_raw_safe(m.plain_end)
        }
    }
}

/// The first character never starts a new row, so there are fewer breaks
/// than characters.
pub proof fn lemma_breaks_len(plain: Seq<char>, map: Seq<usize>, width: nat, j: nat)
    ensures
        j == 0 ==> wrap_state(plain, map, width, j).0.len() == 0,
        j > 0 ==> wrap_state(plain, map, width, j).0.len() < j,
    decreases j,
{
    if j > 0 {
        lemma_breaks_len(plain, map, width, (j - 1) as nat);
        if j == 1 {
            assert(wrap_state(plain, map, width, 0).1 == 0);
        }
    }
}

/// Concatenated runs of byte offsets form one run.
pub proof fn lemma_byte_run_concat(a: nat, b: nat, c: nat)
    requires
        a <= b <= c,
    ensures
        byte_run(a, b) + byte_run(b, c) == byte_run(a, c),
{
    assert(byte_run(a, b) + byte_run(b, c) =~= byte_run(a, c));
}

/// In a strictly increasing mapping below `bound`, entries `k` apart differ by
/// at least `k`.
pub proof fn lemma_map_gap(map: Seq<usize>, bound: nat, i: int, k: int)
    requires
        0 <= i,
        0 <= k,
        i + k < map.len(),
        forall|x: int| 0 <= x < map.len() ==> (#[trigger] map[x]) < bound,
        forall|x: int, y: int| 0 <= x < y < map.len() ==> map[x] < map[y],
    ensures
        map[i] + k <= map[i + k],
        map[i] + k + 1 <= bound,
    decreases k,
{
    if k > 0 {
        lemma_map_gap(map, bound, i, k - 1);
        assert(map[i + k - 1] < map[i + k]);
    }
    assert(map[i + k] < bound);
}

/// The leading run holds only elements that satisfy `p`, and the element
/// right after it, if any, does not.
pub proof fn lemma_leading_props<A>(ms: Seq<A>, p: spec_fn(A) -> bool)
    ensures
        leading(ms, p) <= ms.len(),
        forall|k: int| 0 <= k < leading(ms, p) ==> p(#[trigger] ms[k]),
        leading(ms, p) < ms.len() ==> !p(ms[leading(ms, p) as int]),
    decreases ms.len(),
{
    if ms.len() > 0 && p(ms[0]) {
        let t = ms.drop_first();
        lemma_leading_props(t, p);
        assert forall|k: int| 0 <= k < leading(ms, p) implies p(#[trigger] ms[k]) by {
            if k > 0 {
                assert(ms[k] == t[k - 1]);
            }
        }
        if leading(ms, p) < ms.len() {
            assert(ms[leading(ms, p) as int] == t[leading(t, p) as int]);
        }
    }
}

/// When a scan for the leading run stops at `i`, the run has length `i`.
pub proof fn lemma_leading_stop<A>(ms: Seq<A>, p: spec_fn(A) -> bool, i: int)
    requires
        0 <= i <= ms.len(),
        leading(ms, p) == i + leading(ms.skip(i), p),
        i == ms.len() || !p(ms[i]),
    ensures
        leading(ms, p) == i,
{
    if i < ms.len() {
        assert(ms.skip(i)[0] == ms[i]);
    } else {
        assert(ms.skip(i).len() == 0);
    }
}

} // verus!
