//! Search match highlighting for lines that carry escape sequences, in the
//! two-style form: reverse video for the current match, dim reverse video for
//! the others.
//!
//! Match ranges are taken from plain-text to raw-text byte offsets through the
//! line's byte map; where the map jumps inside a match an escape sequence sits
//! there, and the highlight is turned on again after it.

use std::ops::Range;

use vstd::prelude::*;

use crate::line::{inner_boundaries, leading, lemma_leading_props, raw_offset};
use crate::text::{byte_slice, bytes_len, chars_of, push_all, push_byte_slice, string_from_chars};

verus! {

/// Highlight style for search matches.
#[derive(Debug, Clone, Copy, PartialEq, Eq, Structural)]
pub enum HighlightStyle {
    /// Reverse video: the current match.
    Reverse,
    /// Dim reverse video: the other matches.
    DimReverse,
}

/// The sequence that turns `style` on.
pub open spec fn on_spec(style: HighlightStyle) -> Seq<char> {
    match style {
        HighlightStyle::Reverse => seq!['\x1b', '[', '7', 'm'],
        HighlightStyle::DimReverse => seq!['\x1b', '[', '2', 'm', '\x1b', '[', '7', 'm'],
    }
}

/// The sequence that turns `style` off.
pub open spec fn off_spec(style: HighlightStyle) -> Seq<char> {
    match style {
        HighlightStyle::Reverse => seq!['\x1b', '[', '2', '7', 'm'],
        HighlightStyle::DimReverse => seq!['\x1b', '[', '2', '7', 'm', '\x1b', '[', '2', '2', 'm'],
    }
}

impl HighlightStyle {
    /// The characters that turn this style on.
    pub fn on_seq(self) -> (r: Vec<char>)
        ensures
            r@ == on_spec(self),
    {
        let r = match self {
            HighlightStyle::Reverse => vec!['\x1b', '[', '7', 'm'],
            HighlightStyle::DimReverse => vec!['\x1b', '[', '2', 'm', '\x1b', '[', '7', 'm'],
        };
        assert(r@ =~= on_spec(self));
        r
    }

    /// The characters that turn this style off.
    pub fn off_seq(self) -> (r: Vec<char>)
        ensures
            r@ == off_spec(self),
    {
        let r = match self {
            HighlightStyle::Reverse => vec!['\x1b', '[', '2', '7', 'm'],
            HighlightStyle::DimReverse => vec!['\x1b', '[', '2', '7', 'm', '\x1b', '[', '2', '2', 'm'],
        };
        assert(r@ =~= off_spec(self));
        r
    }
}

/// What happens at a highlight position.
#[derive(Debug, Clone, Copy, PartialEq, Eq, Structural)]
pub enum HighlightPosKind {
    /// Match start: turn the highlight on.
    Start,
    /// Right after an escape sequence inside a match: turn the highlight on again.
    InnerControlEnd,
    /// Match end: turn the highlight off.
    End,
}

/// A point of the raw text where a highlight sequence goes.
#[derive(Debug, Clone, Copy, PartialEq, Eq, Structural)]
pub struct HighlightPos {
    /// Byte offset in the raw text.
    pub index: usize,
    pub kind: HighlightPosKind,
    pub style: HighlightStyle,
}

/// The points of the raw text where highlight sequences go, in order.
#[derive(Debug)]
pub struct HighlightPositions {
    positions: Vec<HighlightPos>,
}

impl View for HighlightPositions {
    type V = Seq<HighlightPos>;

    closed spec fn view(&self) -> Seq<HighlightPos> {
        self.positions@
    }
}

/// The style in effect right after position `p`.
pub open spec fn style_after(p: HighlightPos) -> Option<HighlightStyle> {
    match p.kind {
        HighlightPosKind::End => None,
        _ => Some(p.style),
    }
}

/// The style in effect after the positions `ps`, starting from `init`.
pub open spec fn active_after(init: Option<HighlightStyle>, ps: Seq<HighlightPos>) -> Option<
    HighlightStyle,
> {
    if ps.len() == 0 {
        init
    } else {
        style_after(ps.last())
    }
}

/// The sequence written at position `p`.
pub open spec fn mark_spec(p: HighlightPos) -> Seq<char> {
    match p.kind {
        HighlightPosKind::End => off_spec(p.style),
        _ => on_spec(p.style),
    }
}

/// Turns `style` on, if there is one.
pub open spec fn on_opt(style: Option<HighlightStyle>) -> Seq<char> {
    match style {
        Some(s) => on_spec(s),
        None => Seq::empty(),
    }
}

/// Turns `style` off, if there is one.
pub open spec fn off_opt(style: Option<HighlightStyle>) -> Seq<char> {
    match style {
        Some(s) => off_spec(s),
        None => Seq::empty(),
    }
}

/// Positions strictly before byte `b`.
pub open spec fn before_byte(b: int) -> spec_fn(HighlightPos) -> bool {
    |p: HighlightPos| p.index < b
}

/// The raw text from byte `prev` to byte `end`, with the sequence of each of
/// the positions `ps` written at its byte offset.
pub open spec fn weave(raw: Seq<char>, prev: int, ps: Seq<HighlightPos>, end: int) -> Seq<char>
    decreases ps.len(),
{
    if ps.len() == 0 {
        byte_slice(raw, prev, end)
    } else {
        byte_slice(raw, prev, ps[0].index as int) + mark_spec(ps[0]) + weave(
            raw,
            ps[0].index as int,
            ps.drop_first(),
            end,
        )
    }
}

/// The raw bytes `start..end` with highlights applied: the positions before
/// `start` only decide the style in effect when the range begins, which is
/// turned on first; the positions from `start` up to the first one at or past
/// `end` are written into the text; the style still in effect at the end is
/// turned off.
pub open spec fn highlighted(raw: Seq<char>, start: int, end: int, ps: Seq<HighlightPos>) -> Seq<
    char,
> {
    let k0 = leading(ps, before_byte(start)) as int;
    let k1 = k0 + leading(ps.skip(k0), before_byte(end));
    let a0 = active_after(None, ps.take(k0));
    let visited = ps.subrange(k0, k1);
    on_opt(a0) + weave(raw, start, visited, end) + off_opt(active_after(a0, visited))
}


/// Restarts in `style` at each of the raw offsets `inner`.
pub open spec fn restarts(style: HighlightStyle, inner: Seq<usize>) -> Seq<HighlightPos> {
    inner.map_values(|i: usize| HighlightPos { index: i, kind: HighlightPosKind::InnerControlEnd, style })
}

/// The style of match `idx`.
pub open spec fn style_of(idx: int, current: Option<usize>) -> HighlightStyle {
    if current == Some(idx as usize) {
        HighlightStyle::Reverse
    } else {
        HighlightStyle::DimReverse
    }
}

/// The positions for the plain byte range `r` when it is match `idx`: none
/// for an empty range; otherwise a start at its raw offset, a restart wherever
/// the byte map jumps inside it, and an end at the raw offset of its end.
pub open spec fn range_marks(
    r: (usize, usize),
    idx: int,
    current: Option<usize>,
    map: Seq<usize>,
    raw_len: usize,
) -> Seq<HighlightPos> {
    let style = style_of(idx, current);
    if r.0 >= r.1 {
        Seq::empty()
    } else {
        seq![HighlightPos { index: map[r.0 as int], kind: HighlightPosKind::Start, style }]
            + restarts(style, inner_boundaries(map, r.0 as int, r.1 as int)) + seq![
            HighlightPos { index: raw_offset(map, raw_len, r.1 as int), kind: HighlightPosKind::End, style },
        ]
    }
}

/// The positions for all the ranges `rs`, in order.
pub open spec fn build_spec(
    rs: Seq<(usize, usize)>,
    current: Option<usize>,
    map: Seq<usize>,
    raw_len: usize,
) -> Seq<HighlightPos>
    decreases rs.len(),
{
    if rs.len() == 0 {
        Seq::empty()
    } else {
        build_spec(rs.drop_last(), current, map, raw_len) + range_marks(
            rs.last(),
            rs.len() - 1,
            current,
            map,
            raw_len,
        )
    }
}

/// A non-empty range lies within the byte map, which does not decrease over it.
pub open spec fn range_ok(r: (usize, usize), map: Seq<usize>) -> bool {
    r.0 < r.1 ==> {
        &&& r.1 <= map.len()
        &&& forall|i: int, j: int| r.0 <= i <= j < r.1 ==> map[i] <= map[j]
    }
}

/// Positions for the plain byte ranges `plain_ranges`, with `plain_to_raw`
/// mapping each plain byte to its raw byte offset and `raw_len` the raw length.
/// Match `current_match_index` is in reverse video, the others in dim reverse
/// video; empty ranges are skipped.
pub fn build_highlight_positions(
    plain_ranges: &[(usize, usize)],
    current_match_index: Option<usize>,
    plain_to_raw: &[usize],
    raw_len: usize,
) -> (r: HighlightPositions)
    requires
        forall|k: int| 0 <= k < plain_ranges@.len() ==> range_ok(#[trigger] plain_ranges@[k], plain_to_raw@),
    ensures
        r@ == build_spec(plain_ranges@, current_match_index, plain_to_raw@, raw_len),
{
    let ghost map = plain_to_raw@;
    let mut positions: Vec<HighlightPos> = Vec::new();
    let mut idx: usize = 0;
    while idx < plain_ranges.len()
        invariant
            idx <= plain_ranges@.len(),
            map == plain_to_raw@,
            forall|k: int| 0 <= k < plain_ranges@.len() ==> range_ok(#[trigger] plain_ranges@[k], map),
            positions@ == build_spec(plain_ranges@.take(idx as int), current_match_index, map, raw_len),
        decreases plain_ranges@.len() - idx,
    {
        let (start, end) = plain_ranges[idx];
        let ghost before = positions@;
        proof {
            assert(plain_ranges@.take(idx + 1).drop_last() =~= plain_ranges@.take(idx as int));
            assert(plain_ranges@.take(idx + 1).last() == plain_ranges@[idx as int]);
            assert(range_ok(plain_ranges@[idx as int], map));
        }
        if start < end {
            let style = match current_match_index {
                Some(current) => if current == idx {
                    HighlightStyle::Reverse
                } else {
                    HighlightStyle::DimReverse
                },
                None => HighlightStyle::DimReverse,
            };
            positions.push(HighlightPos { index: plain_to_raw[start], kind: HighlightPosKind::Start, style });
            let ghost base = positions@;
            let mut i_p: usize = start;
            while i_p < end
                invariant
                    start <= i_p <= end <= map.len(),
                    map == plain_to_raw@,
                    forall|i: int, j: int| start <= i <= j < end ==> map[i] <= map[j],
                    positions@ == base + restarts(style, inner_boundaries(map, start as int, i_p as int)),
                    i_p == start ==> inner_boundaries(map, start as int, i_p as int).len() == 0,
                decreases end - i_p,
            {
                let ghost inner_before = inner_boundaries(map, start as int, i_p as int);
                if i_p > start {
                    let i_raw = plain_to_raw[i_p];
                    let prev_i_raw = plain_to_raw[i_p - 1];
                    if i_raw - prev_i_raw > 1 {
                        positions.push(
                            HighlightPos { index: i_raw, kind: HighlightPosKind::InnerControlEnd, style },
                        );
                    }
                }
                i_p += 1;
                proof {
                    let inner_after = inner_boundaries(map, start as int, i_p as int);
                    if i_p - 1 > start {
                        assert(inner_after == inner_before + if map[i_p - 1] - map[i_p - 2] > 1 {
                            seq![map[i_p - 1]]
                        } else {
                            Seq::<usize>::empty()
                        });
                        assert(restarts(style, inner_after) =~= restarts(style, inner_before) + restarts(
                            style,
                            if map[i_p - 1] - map[i_p - 2] > 1 {
                                seq![map[i_p - 1]]
                            } else {
                                Seq::<usize>::empty()
                            },
                        ));
                    } else {
                        assert(inner_after.len() == 0);
                    }
                    assert(positions@ =~= base + restarts(style, inner_after));
                }
            }
            let end_raw = if end < plain_to_raw.len() {
                plain_to_raw[end]
            } else {
                raw_len
            };
            positions.push(HighlightPos { index: end_raw, kind: HighlightPosKind::End, style });
            proof {
                assert(positions@ =~= before + range_marks((start, end), idx as int, current_match_index, map, raw_len));
            }
        } else {
            proof {
                assert(positions@ =~= before + range_marks((start, end), idx as int, current_match_index, map, raw_len));
            }
        }
        idx += 1;
    }
    proof {
        assert(plain_ranges@.take(idx as int) =~= plain_ranges@);
    }
    HighlightPositions { positions }
}

/// Write the sequence of position `p`.
fn push_mark(out: &mut Vec<char>, p: &HighlightPos)
    ensures
        final(out)@ == old(out)@ + mark_spec(*p),
{
    let s = match p.kind {
        HighlightPosKind::End => p.style.off_seq(),
        _ => p.style.on_seq(),
    };
    push_all(out, s.as_slice());
}

/// Apply highlight sequences to the raw bytes `raw_range` of `raw_text` (for
/// instance one wrapped row). Only the positions up to the end of the range
/// are written; a highlight already on when the range begins is turned on
/// first, and one still on at its end is turned off.
pub fn apply_highlight_to_range(raw_text: &str, raw_range: Range<usize>, positions: &HighlightPositions) -> (r:
    String)
    requires
        raw_range.start <= raw_range.end <= bytes_len(raw_text@),
    ensures
        r@ == highlighted(raw_text@, raw_range.start as int, raw_range.end as int, positions@),
{
    let positions = positions.positions.as_slice();
    let raw = chars_of(raw_text);
    let start = raw_range.start;
    let end = raw_range.end;
    let ghost ps = positions@;
    let ghost k0 = leading(ps, before_byte(start as int)) as int;
    let ghost k1 = k0 + leading(ps.skip(k0), before_byte(end as int));
    proof {
        lemma_leading_props(ps, before_byte(start as int));
        lemma_leading_props(ps.skip(k0), before_byte(end as int));
    }
    // Positions before the range only decide the style in effect at its start.
    let mut i: usize = 0;
    let mut active: Option<HighlightStyle> = None;
    while i < positions.len() && positions[i].index < start
        invariant
            i <= k0,
            k0 <= ps.len(),
            ps == positions@,
            k0 == leading(ps, before_byte(start as int)),
            k0 < ps.len() ==> !before_byte(start as int)(ps[k0]),
            active == active_after(None, ps.take(i as int)),
        decreases ps.len() - i,
    {
        proof {
            if i == k0 {
                assert(!before_byte(start as int)(ps[k0]));
            }
        }
        active = match positions[i].kind {
            HighlightPosKind::End => None,
            _ => Some(positions[i].style),
        };
        i += 1;
        proof {
            assert(ps.take(i as int).last() == ps[i - 1]);
        }
    }
    let a0 = active;
    let ghost i0 = i as int;
    assert(i0 == k0);
    let mut out: Vec<char> = Vec::new();
    match a0 {
        Some(style) => {
            let s = style.on_seq();
            push_all(&mut out, s.as_slice());
        },
        None => {},
    }
    let mut i_prev: usize = start;
    let mut j: usize = i;
    let ghost total = on_opt(a0) + weave(raw@, start as int, ps.subrange(k0, k1), end as int);
    proof {
        assert(out@ =~= on_opt(a0));
        assert(forall|q: int| 0 <= q < k1 - k0 ==> #[trigger] ps.skip(k0)[q] == ps[k0 + q]);
    }
    while j < positions.len() && positions[j].index < end
        invariant
            0 <= k0 <= j <= k1,
            k1 <= ps.len(),
            ps == positions@,
            raw@ == raw_text@,
            forall|q: int| 0 <= q < k1 - k0 ==> before_byte(end as int)(#[trigger] ps.skip(k0)[q]),
            forall|q: int| 0 <= q < k1 - k0 ==> #[trigger] ps.skip(k0)[q] == ps[k0 + q],
            k1 < ps.len() ==> !before_byte(end as int)(ps[k1]),
            out@ + weave(raw@, i_prev as int, ps.subrange(j as int, k1), end as int) == total,
            active == active_after(a0, ps.subrange(k0, j as int)),
        decreases ps.len() - j,
    {
        proof {
            if j == k1 {
                assert(!before_byte(end as int)(ps[k1]));
                assert(ps[k1].index < end);
            }
            assert(j < k1);
        }
        let p = positions[j];
        let ghost jj = j as int;
        assert(p == ps[jj]);
        let ghost rest = ps.subrange(j as int, k1);
        let ghost o = out@;
        let ghost prev0 = i_prev as int;
        proof {
            assert(rest[0] == p);
            assert(rest.drop_first() =~= ps.subrange(j + 1, k1));
        }
        push_byte_slice(&mut out, raw.as_slice(), i_prev, p.index);
        push_mark(&mut out, &p);
        i_prev = p.index;
        active = match p.kind {
            HighlightPosKind::End => None,
            _ => Some(p.style),
        };
        j += 1;
        proof {
            assert(weave(raw@, prev0, rest, end as int) == byte_slice(raw@, prev0, p.index as int)
                + mark_spec(p) + weave(raw@, p.index as int, rest.drop_first(), end as int));
            assert(out@ + weave(raw@, i_prev as int, ps.subrange(j as int, k1), end as int) =~= o
                + weave(raw@, prev0, rest, end as int));
            assert(ps.subrange(k0, jj + 1).len() == jj + 1 - k0);
            assert(ps.subrange(k0, jj + 1)[jj - k0] == ps[jj]);
            assert(ps.subrange(k0, jj + 1).last() == p);
        }
    }
    proof {
        if j < k1 {
            assert(ps.skip(k0)[j - k0] == ps[j as int]);
            assert(before_byte(end as int)(ps.skip(k0)[j - k0]));
        }
        assert(ps.subrange(j as int, k1).len() == 0);
    }
    push_byte_slice(&mut out, raw.as_slice(), i_prev, end);
    match active {
        Some(style) => {
            let s = style.off_seq();
            push_all(&mut out, s.as_slice());
        },
        None => {},
    }
    proof {
        assert(out@ =~= highlighted(raw_text@, start as int, end as int, ps));
    }
    string_from_chars(out.as_slice())
}

} // verus!
