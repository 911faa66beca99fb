//! Search match highlighting for lines that carry escape sequences.
//!
//! Match positions are taken from plain-text to raw-text byte offsets, and
//! highlight sequences are injected there, while the line's own styling is
//! kept: after each escape sequence inside a match the highlight is turned on
//! again.

use std::borrow::Cow;
use std::ops::Range;

use vstd::prelude::*;
use vstd::string::StrSliceExecFns;

use crate::line::{
    first_char_raw_end, inner_boundaries, leading, lemma_leading_props, positions, raw_offset, Line,
    MatchPosition,
};
use crate::search::SearchState;
use crate::query::regex_find_all;
use crate::text::{
    byte_slice, bytes_len, char_index_at_byte, chars_of, lemma_chars_before_mono, push_all, push_byte_slice,
    string_from_chars,
};

verus! {

/// Highlight style for search matches.
#[derive(Debug, Clone, Copy, PartialEq, Eq, Structural)]
pub enum HighlightStyle {
    /// The current match.
    Reverse,
    /// The first character of a match that is not the current one.
    ReverseUnderlineBold,
    /// The rest of a match that is not the current one.
    UnderlineBold,
}

/// The sequence that turns `style` on.
pub open spec fn on_spec(style: HighlightStyle) -> Seq<char> {
    match style {
        HighlightStyle::Reverse => seq!['\x1b', '[', '7', 'm', '\x1b', '[', '1', 'm'],
        HighlightStyle::ReverseUnderlineBold => seq![
            '\x1b',
            '[',
            '7',
            'm',
            '\x1b',
            '[',
            '4',
            'm',
            '\x1b',
            '[',
            '1',
            'm',
        ],
        HighlightStyle::UnderlineBold => seq!['\x1b', '[', '4', 'm', '\x1b', '[', '1', 'm'],
    }
}

/// The sequence that turns `style` off.
pub open spec fn off_spec(style: HighlightStyle) -> Seq<char> {
    match style {
        HighlightStyle::Reverse => seq!['\x1b', '[', '2', '7', 'm', '\x1b', '[', '2', '2', 'm'],
        HighlightStyle::ReverseUnderlineBold => seq![
            '\x1b',
            '[',
            '2',
            '7',
            'm',
            '\x1b',
            '[',
            '2',
            '4',
            'm',
            '\x1b',
            '[',
            '2',
            '2',
            'm',
        ],
        HighlightStyle::UnderlineBold => seq!['\x1b', '[', '2', '4', 'm', '\x1b', '[', '2', '2', 'm'],
    }
}

impl HighlightStyle {
    /// The characters that turn this style on.
    pub fn on_seq(self) -> (r: Vec<char>)
        ensures
            r@ == on_spec(self),
    {
        let r = match self {
            HighlightStyle::Reverse => vec!['\x1b', '[', '7', 'm', '\x1b', '[', '1', 'm'],
            HighlightStyle::ReverseUnderlineBold => vec![
                '\x1b',
                '[',
                '7',
                'm',
                '\x1b',
                '[',
                '4',
                'm',
                '\x1b',
                '[',
                '1',
                'm',
            ],
            HighlightStyle::UnderlineBold => vec!['\x1b', '[', '4', 'm', '\x1b', '[', '1', 'm'],
        };
        assert(r@ =~= on_spec(self));
        r
    }

    /// The characters that turn this style off.
    pub fn off_seq(self) -> (r: Vec<char>)
        ensures
            r@ == off_spec(self),
    {
        let r = match self {
            HighlightStyle::Reverse => vec!['\x1b', '[', '2', '7', 'm', '\x1b', '[', '2', '2', 'm'],
            HighlightStyle::ReverseUnderlineBold => vec![
                '\x1b',
                '[',
                '2',
                '7',
                'm',
                '\x1b',
                '[',
                '2',
                '4',
                'm',
                '\x1b',
                '[',
                '2',
                '2',
                'm',
            ],
            HighlightStyle::UnderlineBold => vec!['\x1b', '[', '2', '4', 'm', '\x1b', '[', '2', '2', 'm'],
        };
        assert(r@ =~= off_spec(self));
        r
    }
}

/// What happens at a highlight position.
#[derive(Debug, Clone, Copy, PartialEq, Eq, Structural)]
pub enum HighlightPosKind {
    /// Match start: turn the highlight on.
    Start,
    /// Right after an escape sequence inside a match: turn the highlight on again.
    InnerControlEnd,
    /// Match end: turn the highlight off.
    End,
}

/// A point of the raw text where a highlight sequence goes.
#[derive(Debug, Clone, Copy, PartialEq, Eq, Structural)]
pub struct HighlightPos {
    /// Byte offset in the raw text.
    pub index: usize,
    pub kind: HighlightPosKind,
    pub style: HighlightStyle,
}

/// The style in effect right after position `p`.
pub open spec fn style_after(p: HighlightPos) -> Option<HighlightStyle> {
    match p.kind {
        HighlightPosKind::End => None,
        _ => Some(p.style),
    }
}

/// The style in effect after the positions `ps`, starting from `init`.
pub open spec fn active_after(init: Option<HighlightStyle>, ps: Seq<HighlightPos>) -> Option<
    HighlightStyle,
> {
    if ps.len() == 0 {
        init
    } else {
        style_after(ps.last())
    }
}

/// The sequence written at position `p`.
pub open spec fn mark_spec(p: HighlightPos) -> Seq<char> {
    match p.kind {
        HighlightPosKind::End => off_spec(p.style),
        _ => on_spec(p.style),
    }
}

/// Turns `style` on, if there is one.
pub open spec fn on_opt(style: Option<HighlightStyle>) -> Seq<char> {
    match style {
        Some(s) => on_spec(s),
        None => Seq::empty(),
    }
}

/// Turns `style` off, if there is one.
pub open spec fn off_opt(style: Option<HighlightStyle>) -> Seq<char> {
    match style {
        Some(s) => off_spec(s),
        None => Seq::empty(),
    }
}

/// Positions strictly before byte `b`.
pub open spec fn before_byte(b: int) -> spec_fn(HighlightPos) -> bool {
    |p: HighlightPos| p.index < b
}

/// The raw text from byte `prev` to byte `end`, with the sequence of each of
/// the positions `ps` written at its byte offset.
pub open spec fn weave(raw: Seq<char>, prev: int, ps: Seq<HighlightPos>, end: int) -> Seq<char>
    decreases ps.len(),
{
    if ps.len() == 0 {
        byte_slice(raw, prev, end)
    } else {
        byte_slice(raw, prev, ps[0].index as int) + mark_spec(ps[0]) + weave(
            raw,
            ps[0].index as int,
            ps.drop_first(),
            end,
        )
    }
}

/// The raw bytes `start..end` with highlights applied: the positions before
/// `start` only decide the style in effect when the range begins, which is
/// turned on first; the positions from `start` up to the first one at or past
/// `end` are written into the text; the style still in effect at the end is
/// turned off.
pub open spec fn highlighted(raw: Seq<char>, start: int, end: int, ps: Seq<HighlightPos>) -> Seq<
    char,
> {
    let k0 = leading(ps, before_byte(start)) as int;
    let k1 = k0 + leading(ps.skip(k0), before_byte(end));
    let a0 = active_after(None, ps.take(k0));
    let visited = ps.subrange(k0, k1);
    on_opt(a0) + weave(raw, start, visited, end) + off_opt(active_after(a0, visited))
}

/// With no position to write, a range is shown as its raw text.
pub proof fn law_no_positions_no_change(raw: Seq<char>, start: int, end: int)
    ensures
        highlighted(raw, start, end, Seq::empty()) == byte_slice(raw, start, end),
{
    let ps = Seq::<HighlightPos>::empty();
    assert(ps.take(0) =~= ps);
    assert(ps.subrange(0, 0) =~= ps);
    assert(byte_slice(raw, start, end) + Seq::<char>::empty() =~= byte_slice(raw, start, end));
    assert(Seq::<char>::empty() + byte_slice(raw, start, end) =~= byte_slice(raw, start, end));
}

/// Positions that all lie past a range leave it as its raw text, with no
/// highlight turned on or off.
pub proof fn law_positions_past_the_range(raw: Seq<char>, start: int, end: int, ps: Seq<HighlightPos>)
    requires
        start <= end,
        forall|k: int| 0 <= k < ps.len() ==> (#[trigger] ps[k]).index >= end,
    ensures
        highlighted(raw, start, end, ps) == byte_slice(raw, start, end),
{
    lemma_leading_props(ps, before_byte(start));
    lemma_leading_props(ps.skip(leading(ps, before_byte(start)) as int), before_byte(end));
    let k0 = leading(ps, before_byte(start)) as int;
    if k0 > 0 {
        assert(before_byte(start)(ps[0]));
    }
    assert(k0 == 0);
    let rest = ps.skip(0);
    let k1 = leading(rest, before_byte(end)) as int;
    if k1 > 0 {
        assert(rest[0] == ps[0]);
        assert(before_byte(end)(rest[0]));
    }
    assert(k1 == 0);
    assert(ps.take(0) =~= Seq::<HighlightPos>::empty());
    assert(ps.subrange(0, 0) =~= Seq::<HighlightPos>::empty());
    assert(Seq::<char>::empty() + byte_slice(raw, start, end) + Seq::<char>::empty() =~= byte_slice(
        raw,
        start,
        end,
    ));
}

/// The positions that highlight the raw bytes `start..end` in `style`: a
/// start, a restart at each of the `inner` offsets strictly inside, an end.
pub open spec fn segment_spec(style: HighlightStyle, start: usize, end: usize, inner: Seq<usize>) -> Seq<
    HighlightPos,
> {
    seq![HighlightPos { index: start, kind: HighlightPosKind::Start, style }] + inner_marks(
        style,
        start,
        end,
        inner,
    ) + seq![HighlightPos { index: end, kind: HighlightPosKind::End, style }]
}

/// Restarts in `style` at the offsets of `inner` strictly between `start` and `end`.
pub open spec fn inner_marks(style: HighlightStyle, start: usize, end: usize, inner: Seq<usize>) -> Seq<
    HighlightPos,
>
    decreases inner.len(),
{
    if inner.len() == 0 {
        Seq::empty()
    } else {
        let i = inner.last();
        inner_marks(style, start, end, inner.drop_last()) + if start < i < end {
            seq![HighlightPos { index: i, kind: HighlightPosKind::InnerControlEnd, style }]
        } else {
            Seq::empty()
        }
    }
}

/// The positions for match `m` of a line with plain text `plain`, byte map
/// `map` and raw length `len`: the current match in plain reverse video;
/// another match with its first character in reverse, underline and bold and
/// the rest in underline and bold.
pub open spec fn match_marks(
    plain: Seq<char>,
    map: Seq<usize>,
    len: usize,
    m: MatchPosition,
    current: Option<MatchPosition>,
) -> Seq<HighlightPos> {
    let start = raw_offset(map, len, m.plain_start as int);
    let end = raw_offset(map, len, m.plain_end as int);
    let inner = inner_boundaries(map, m.plain_start as int, m.plain_end as int);
    let head = first_char_raw_end(plain, map, len, m);
    if current == Some(m) {
        segment_spec(HighlightStyle::Reverse, start, end, inner)
    } else if head >= end {
        segment_spec(HighlightStyle::ReverseUnderlineBold, start, end, inner)
    } else {
        segment_spec(HighlightStyle::ReverseUnderlineBold, start, head as usize, inner) + segment_spec(
            HighlightStyle::UnderlineBold,
            head as usize,
            end,
            inner,
        )
    }
}

/// The positions for all matches `ms`, in order.
pub open spec fn build_spec(
    plain: Seq<char>,
    map: Seq<usize>,
    len: usize,
    ms: Seq<MatchPosition>,
    current: Option<MatchPosition>,
) -> Seq<HighlightPos>
    decreases ms.len(),
{
    if ms.len() == 0 {
        Seq::empty()
    } else {
        build_spec(plain, map, len, ms.drop_last(), current) + match_marks(
            plain,
            map,
            len,
            ms.last(),
            current,
        )
    }
}

/// The text of the raw bytes `raw_range` of `line`, with the matches of the
/// search highlighted when there are any.
pub open spec fn highlight_spec(search: Option<&SearchState>, line: Line, start: int, end: int) -> Seq<
    char,
> {
    let raw = line.spec_raw();
    match search {
        None => byte_slice(raw, start, end),
        Some(s) => {
            let ms = positions(line.spec_index(), regex_find_all(s.query@, line.spec_plain()));
            if ms.len() == 0 {
                byte_slice(raw, start, end)
            } else {
                highlighted(
                    raw,
                    start,
                    end,
                    build_spec(line.spec_plain(), line.spec_map(), line.spec_raw_len(), ms, s.current),
                )
            }
        },
    }
}

/// Whether `search` has a match in the plain text of `line`.
pub open spec fn search_hits_line(search: Option<&SearchState>, line: Line) -> bool {
    search matches Some(s) && regex_find_all(s.query@, line.spec_plain()).len() > 0
}

/// Highlight the parts of the raw bytes `raw_range` of `line` that match the
/// search query. A new string is built only when there is a match; otherwise
/// the range of the line itself is given back.
pub fn apply_highlight_if_matches<'line>(
    search: Option<&SearchState>,
    line: &'line Line,
    raw_range: Range<usize>,
) -> (r: Cow<'line, str>)
    requires
        line.wf(),
        raw_range.start <= raw_range.end <= bytes_len(line.spec_raw()),
    ensures
        r@ == highlight_spec(search, *line, raw_range.start as int, raw_range.end as int),
        (r is Borrowed) <==> !search_hits_line(search, *line),
{
    let search = match search {
        Some(search) => search,
        None => {
            return Cow::Borrowed(raw_slice(line, raw_range.start, raw_range.end));
        },
    };
    let matches = line.find_matches(&search.query);
    if matches.len() == 0 {
        return Cow::Borrowed(raw_slice(line, raw_range.start, raw_range.end));
    }
    proof {
        line.lemma_wf();
    }
    let positions = build_highlight_positions(matches.as_slice(), &search.current, line);
    Cow::Owned(apply_highlight_to_range(line.raw(), raw_range, positions.as_slice()))
}

/// The raw text of `line` from byte `start` to byte `end`, without copying.
fn raw_slice<'line>(line: &'line Line, start: usize, end: usize) -> (r: &'line str)
    requires
        line.wf(),
        start <= end,
    ensures
        r@ == byte_slice(line.spec_raw(), start as int, end as int),
{
    let chars = line.raw_chars();
    let a = char_index_at_byte(chars.as_slice(), start);
    let b = char_index_at_byte(chars.as_slice(), end);
    proof {
        lemma_chars_before_mono(line.spec_raw(), start as int, end as int);
    }
    line.raw().substring_char(a, b)
}

/// Positions for the matches `matches` of `line`. The current match is in
/// plain reverse video; every other match has its first character in reverse,
/// underline and bold and the rest in underline and bold, so the start of each
/// match stands out. Each styled part is restarted after every escape sequence
/// embedded in it.
pub fn build_highlight_positions(
    matches: &[MatchPosition],
    current_match: &Option<MatchPosition>,
    line: &Line,
) -> (r: Vec<HighlightPos>)
    requires
        line.wf(),
        forall|i: int|
            0 <= i < matches@.len() ==> (#[trigger] matches@[i]).plain_start <= matches@[i].plain_end
                <= line.spec_map().len(),
    ensures
        r@ == build_spec(line.spec_plain(), line.spec_map(), line.spec_raw_len(), matches@, *current_match),
{
    let ghost plain = line.spec_plain();
    let ghost map = line.spec_map();
    let ghost len = line.spec_raw_len();
    let mut positions: Vec<HighlightPos> = Vec::new();
    let mut i: usize = 0;
    while i < matches.len()
        invariant
            line.wf(),
            plain == line.spec_plain(),
            map == line.spec_map(),
            len == line.spec_raw_len(),
            i <= matches@.len(),
            forall|k: int|
                0 <= k < matches@.len() ==> (#[trigger] matches@[k]).plain_start <= matches@[k].plain_end
                    <= map.len(),
            positions@ == build_spec(plain, map, len, matches@.take(i as int), *current_match),
        decreases matches@.len() - i,
    {
        let m = &matches[i];
        let ghost before = positions@;
        let raw_range = line.match_raw_range(m);
        let inner = line.match_inner_escape_boundaries(m);
        let is_current = match current_match {
            Some(c) => *c == *m,
            None => false,
        };
        if is_current {
            push_segment(&mut positions, HighlightStyle::Reverse, raw_range, inner.as_slice());
        } else {
            let head_end = line.match_first_char_raw_end(m);
            if head_end >= raw_range.end {
                push_segment(&mut positions, HighlightStyle::ReverseUnderlineBold, raw_range, inner.as_slice());
            } else {
                let start = raw_range.start;
                let end = raw_range.end;
                push_segment(&mut positions, HighlightStyle::ReverseUnderlineBold, start..head_end, inner.as_slice());
                push_segment(&mut positions, HighlightStyle::UnderlineBold, head_end..end, inner.as_slice());
            }
        }
        proof {
            assert(matches@.take(i + 1).drop_last() =~= matches@.take(i as int));
            assert(matches@.take(i + 1).last() == matches@[i as int]);
            assert(positions@ =~= before + match_marks(plain, map, len, matches@[i as int], *current_match));
        }
        i += 1;
    }
    proof {
        assert(matches@.take(i as int) =~= matches@);
    }
    positions
}

/// Push the positions that highlight `raw_range` in `style`; of the embedded
/// escape boundaries only those strictly inside the range are used, those at
/// an edge being covered by the start or end of the adjacent part.
pub fn push_segment(
    positions: &mut Vec<HighlightPos>,
    style: HighlightStyle,
    raw_range: Range<usize>,
    inner_boundaries: &[usize],
)
    ensures
        final(positions)@ == old(positions)@ + segment_spec(
            style,
            raw_range.start,
            raw_range.end,
            inner_boundaries@,
        ),
{
    let start = raw_range.start;
    let end = raw_range.end;
    positions.push(HighlightPos { index: start, kind: HighlightPosKind::Start, style });
    let ghost base = positions@;
    let mut k: usize = 0;
    while k < inner_boundaries.len()
        invariant
            k <= inner_boundaries@.len(),
            positions@ == base + inner_marks(style, start, end, inner_boundaries@.take(k as int)),
        decreases inner_boundaries@.len() - k,
    {
        let i_raw = inner_boundaries[k];
        proof {
            assert(inner_boundaries@.take(k + 1).drop_last() =~= inner_boundaries@.take(k as int));
            assert(inner_boundaries@.take(k + 1).last() == i_raw);
        }
        if start < i_raw && i_raw < end {
            positions.push(HighlightPos { index: i_raw, kind: HighlightPosKind::InnerControlEnd, style });
        }
        k += 1;
        proof {
            assert(positions@ =~= base + inner_marks(style, start, end, inner_boundaries@.take(k as int)));
        }
    }
    positions.push(HighlightPos { index: end, kind: HighlightPosKind::End, style });
    proof {
        assert(inner_boundaries@.take(k as int) =~= inner_boundaries@);
        assert(positions@ =~= old(positions)@ + segment_spec(style, start, end, inner_boundaries@));
    }
}

/// Write the sequence of position `p`.
fn push_mark(out: &mut Vec<char>, p: &HighlightPos)
    ensures
        final(out)@ == old(out)@ + mark_spec(*p),
{
    let s = match p.kind {
        HighlightPosKind::End => p.style.off_seq(),
        _ => p.style.on_seq(),
    };
    push_all(out, s.as_slice());
}

/// Apply highlight sequences to the raw bytes `raw_range` of `raw_text` (for
/// instance one wrapped row). Only the positions up to the end of the range
/// are written; a highlight already on when the range begins is turned on
/// first, and one still on at its end is turned off.
pub fn apply_highlight_to_range(raw_text: &str, raw_range: Range<usize>, positions: &[HighlightPos]) -> (r:
    String)
    requires
        raw_range.start <= raw_range.end <= bytes_len(raw_text@),
    ensures
        r@ == highlighted(raw_text@, raw_range.start as int, raw_range.end as int, positions@),
{
    let raw = chars_of(raw_text);
    let start = raw_range.start;
    let end = raw_range.end;
    let ghost ps = positions@;
    let ghost k0 = leading(ps, before_byte(start as int)) as int;
    let ghost k1 = k0 + leading(ps.skip(k0), before_byte(end as int));
    proof {
        lemma_leading_props(ps, before_byte(start as int));
        lemma_leading_props(ps.skip(k0), before_byte(end as int));
    }
    // Positions before the range only decide the style in effect at its start.
    let mut i: usize = 0;
    let mut active: Option<HighlightStyle> = None;
    while i < positions.len() && positions[i].index < start
        invariant
            i <= k0,
            k0 <= ps.len(),
            ps == positions@,
            k0 == leading(ps, before_byte(start as int)),
            k0 < ps.len() ==> !before_byte(start as int)(ps[k0]),
            active == active_after(None, ps.take(i as int)),
        decreases ps.len() - i,
    {
        proof {
            if i == k0 {
                assert(!before_byte(start as int)(ps[k0]));
            }
        }
        active = match positions[i].kind {
            HighlightPosKind::End => None,
            _ => Some(positions[i].style),
        };
        i += 1;
        proof {
            assert(ps.take(i as int).last() == ps[i - 1]);
        }
    }
    let a0 = active;
    let ghost i0 = i as int;
    assert(i0 == k0);
    let mut out: Vec<char> = Vec::new();
    match a0 {
        Some(style) => {
            let s = style.on_seq();
            push_all(&mut out, s.as_slice());
        },
        None => {},
    }
    let mut i_prev: usize = start;
    let mut j: usize = i;
    let ghost total = on_opt(a0) + weave(raw@, start as int, ps.subrange(k0, k1), end as int);
    proof {
        assert(out@ =~= on_opt(a0));
        assert(forall|q: int| 0 <= q < k1 - k0 ==> #[trigger] ps.skip(k0)[q] == ps[k0 + q]);
    }
    while j < positions.len() && positions[j].index < end
        invariant
            0 <= k0 <= j <= k1,
            k1 <= ps.len(),
            ps == positions@,
            raw@ == raw_text@,
            forall|q: int| 0 <= q < k1 - k0 ==> before_byte(end as int)(#[trigger] ps.skip(k0)[q]),
            forall|q: int| 0 <= q < k1 - k0 ==> #[trigger] ps.skip(k0)[q] == ps[k0 + q],
            k1 < ps.len() ==> !before_byte(end as int)(ps[k1]),
            out@ + weave(raw@, i_prev as int, ps.subrange(j as int, k1), end as int) == total,
            active == active_after(a0, ps.subrange(k0, j as int)),
        decreases ps.len() - j,
    {
        proof {
            if j == k1 {
                assert(!before_byte(end as int)(ps[k1]));
                assert(ps[k1].index < end);
            }
            assert(j < k1);
        }
        let p = positions[j];
        let ghost jj = j as int;
        assert(p == ps[jj]);
        let ghost rest = ps.subrange(j as int, k1);
        let ghost o = out@;
        let ghost prev0 = i_prev as int;
        proof {
            assert(rest[0] == p);
            assert(rest.drop_first() =~= ps.subrange(j + 1, k1));
        }
        push_byte_slice(&mut out, raw.as_slice(), i_prev, p.index);
        push_mark(&mut out, &p);
        i_prev = p.index;
        active = match p.kind {
            HighlightPosKind::End => None,
            _ => Some(p.style),
        };
        j += 1;
        proof {
            assert(weave(raw@, prev0, rest, end as int) == byte_slice(raw@, prev0, p.index as int)
                + mark_spec(p) + weave(raw@, p.index as int, rest.drop_first(), end as int));
            assert(out@ + weave(raw@, i_prev as int, ps.subrange(j as int, k1), end as int) =~= o
                + weave(raw@, prev0, rest, end as int));
            assert(ps.subrange(k0, jj + 1).len() == jj + 1 - k0);
            assert(ps.subrange(k0, jj + 1)[jj - k0] == ps[jj]);
            assert(ps.subrange(k0, jj + 1).last() == p);
        }
    }
    proof {
        if j < k1 {
            assert(ps.skip(k0)[j - k0] == ps[j as int]);
            assert(before_byte(end as int)(ps.skip(k0)[j - k0]));
        }
        assert(ps.subrange(j as int, k1).len() == 0);
    }
    push_byte_slice(&mut out, raw.as_slice(), i_prev, end);
    match active {
        Some(style) => {
            let s = style.off_seq();
            push_all(&mut out, s.as_slice());
        },
        None => {},
    }
    proof {
        assert(out@ =~= highlighted(raw_text@, start as int, end as int, ps));
    }
    string_from_chars(out.as_slice())
}

} // verus!
