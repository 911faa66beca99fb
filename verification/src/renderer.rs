//! Turning a page into screen output.
//!
//! The renderer keeps the frame it painted last and diffs the new one against
//! it in screen coordinates, so the redraw is decided from what the terminal
//! actually shows rather than from what the pager did. See [`plan_shift`] for
//! how the two frames are aligned.

pub mod highlight;

use std::borrow::Cow;
use std::ops::Range;

use vstd::prelude::*;

use crate::document::Document;
use crate::line::Row;
use crate::pager::PageSnapshot;
use crate::renderer::highlight::{apply_highlight_if_matches, highlight_spec, search_hits_line};
use crate::screen::{Direction, Scroll};
use crate::search::SearchState;
use crate::text::{byte_slice, bytes_len};

verus! {

/// A run of consecutive screen rows that render one document line. The rows of
/// a wrapped line are written as one string, so the terminal treats the breaks
/// between them as soft wraps; a group is the smallest unit that can be redrawn.
#[derive(Debug, PartialEq, Eq)]
pub struct PaintedGroup {
    pub y: usize,
    pub height: usize,
    /// The text as written to the screen, search highlights applied; `None`
    /// when the line could not be read, in which case the rows are only cleared.
    pub text: Option<String>,
}

/// What one screen row holds, as the identity used to diff two frames. The raw
/// range is part of it because the same `(line_index, wrap_index)` covers
/// different text at different widths.
#[derive(Debug)]
pub struct PaintedRow {
    pub pos: (usize, usize),
    pub raw: Range<usize>,
    pub group: usize,
}

/// A whole frame as it should appear on screen.
#[derive(Debug)]
pub struct PaintedFrame {
    pub groups: Vec<PaintedGroup>,
    /// One entry per viewport row, sticky rows included.
    pub rows: Vec<PaintedRow>,
    pub status: String,
    /// Screen row of the status line; also the number of viewport rows painted.
    pub status_y: usize,
    /// Viewport height: the rows below the status line that must stay blank.
    pub height: usize,
}

/// Every row of `f` belongs to one of its groups.
pub open spec fn frame_ok(f: &PaintedFrame) -> bool {
    forall|y: int| 0 <= y < f.rows@.len() ==> (#[trigger] f.rows@[y]).group < f.groups@.len()
}

/// The text of the group that row `y` of `f` belongs to.
pub open spec fn text_of(f: &PaintedFrame, y: int) -> Option<Seq<char>> {
    match f.groups@[f.rows@[y].group as int].text {
        Some(t) => Some(t@),
        None => None,
    }
}

/// Row `y` of `a` already shows what row `by` of `b` needs: same position,
/// same raw range and same text.
pub open spec fn rows_match(a: &PaintedFrame, y: int, b: &PaintedFrame, by: int) -> bool {
    &&& 0 <= y < a.rows@.len()
    &&& 0 <= by < b.rows@.len()
    &&& a.rows@[y].pos == b.rows@[by].pos
    &&& a.rows@[y].raw.start == b.rows@[by].raw.start
    &&& a.rows@[y].raw.end == b.rows@[by].raw.end
    &&& text_of(a, y) == text_of(b, by)
}

/// The last of `rows` at position `pos`.
pub open spec fn last_row_at(rows: Seq<PaintedRow>, pos: (usize, usize)) -> Option<int>
    decreases rows.len(),
{
    if rows.len() == 0 {
        None
    } else if rows.last().pos == pos {
        Some(rows.len() - 1)
    } else {
        last_row_at(rows.drop_last(), pos)
    }
}

/// The shift row `y` of `new` votes for: the distance to the row of `old` at
/// its position, when that row can be reused as it is.
pub open spec fn vote(old: &PaintedFrame, new: &PaintedFrame, y: int) -> Option<int> {
    match last_row_at(old.rows@, new.rows@[y].pos) {
        Some(oy) => if rows_match(old, oy, new, y) {
            Some(oy - y)
        } else {
            None
        },
        None => None,
    }
}

/// Votes for shift `s` among the first `n` rows of `new`.
pub open spec fn votes(old: &PaintedFrame, new: &PaintedFrame, s: int, n: int) -> nat
    decreases n,
{
    if n <= 0 {
        0
    } else {
        votes(old, new, s, n - 1) + if vote(old, new, n - 1) == Some(s) {
            1nat
        } else {
            0nat
        }
    }
}

/// Votes for shift `s` among all rows of `new`.
pub open spec fn count(old: &PaintedFrame, new: &PaintedFrame, s: int) -> nat {
    votes(old, new, s, new.rows@.len() as int)
}

pub open spec fn abs(x: int) -> int {
    if x < 0 {
        -x
    } else {
        x
    }
}

/// Shift `a` with `ca` votes wins over shift `b` with `cb` votes: more votes;
/// on a tie the shorter distance; on a tie again the negative one.
pub open spec fn beats(ca: int, a: int, cb: int, b: int) -> bool {
    ||| ca > cb
    ||| ca == cb && abs(a) < abs(b)
    ||| ca == cb && abs(a) == abs(b) && a < b
}

/// Whether row `y` of `new` can be kept once the screen is scrolled by `shift`.
pub open spec fn reusable(old: &PaintedFrame, new: &PaintedFrame, shift: int, y: int) -> bool {
    y + shift >= 0 && rows_match(old, y + shift, new, y)
}

/// Group `g` of `new` has a row that cannot be kept.
pub open spec fn group_dirty(old: &PaintedFrame, new: &PaintedFrame, shift: int, g: int) -> bool {
    exists|y: int|
        0 <= y < new.rows@.len() && (#[trigger] new.rows@[y]).group == g && !reusable(old, new, shift, y)
}

/// The dirty groups among the first `n`, in increasing order.
pub open spec fn dirty_list(old: &PaintedFrame, new: &PaintedFrame, shift: int, n: int) -> Seq<usize>
    decreases n,
{
    if n <= 0 {
        Seq::empty()
    } else {
        dirty_list(old, new, shift, n - 1) + if group_dirty(old, new, shift, n - 1) {
            seq![(n - 1) as usize]
        } else {
            Seq::empty()
        }
    }
}


/// In rows at distinct positions, the last row at the position of row `y` is `y`.
proof fn lemma_last_row_at_distinct(rows: Seq<PaintedRow>, y: int)
    requires
        0 <= y < rows.len(),
        forall|a: int, b: int| 0 <= a < b < rows.len() ==> (#[trigger] rows[a]).pos != (#[trigger] rows[b]).pos,
    ensures
        last_row_at(rows, rows[y].pos) == Some(y),
    decreases rows.len(),
{
    if y < rows.len() - 1 {
        let t = rows.drop_last();
        assert(rows[y] == t[y]);
        assert(rows.last() == rows[rows.len() - 1]);
        lemma_last_row_at_distinct(t, y);
    }
}

/// In a frame diffed against itself, each of the first `n` rows votes for
/// no shift.
proof fn lemma_self_votes(f: &PaintedFrame, n: int)
    requires
        0 <= n <= f.rows@.len(),
        forall|a: int, b: int| 0 <= a < b < f.rows@.len() ==> (#[trigger] f.rows@[a]).pos != (#[trigger] f.rows@[b]).pos,
    ensures
        votes(f, f, 0, n) == n,
        forall|s: int| s != 0 ==> #[trigger] votes(f, f, s, n) == 0,
    decreases n,
{
    if n > 0 {
        lemma_self_votes(f, n - 1);
        lemma_last_row_at_distinct(f.rows@, n - 1);
        assert(vote(f, f, n - 1) == Some(0int));
        assert forall|s: int| s != 0 implies #[trigger] votes(f, f, s, n) == 0 by {
            assert(votes(f, f, s, n - 1) == 0);
            assert(votes(f, f, s, n) == votes(f, f, s, n - 1) + if vote(f, f, n - 1) == Some(s) {
                1nat
            } else {
                0nat
            });
        }
    }
}

/// Diffing a frame against itself, when its rows are at distinct
/// positions, keeps the screen as it is: every row votes for no shift, no
/// other shift gets a vote, and no group needs a redraw. An unmoved page
/// never scrolls the terminal.
pub proof fn law_unchanged_frame_keeps_the_screen(f: &PaintedFrame)
    requires
        frame_ok(f),
        forall|a: int, b: int| 0 <= a < b < f.rows@.len() ==> (#[trigger] f.rows@[a]).pos != (#[trigger] f.rows@[b]).pos,
    ensures
        count(f, f, 0) == f.rows@.len(),
        forall|s: int| s != 0 ==> #[trigger] count(f, f, s) == 0,
        dirty_list(f, f, 0, f.groups@.len() as int).len() == 0,
{
    lemma_self_votes(f, f.rows@.len() as int);
    lemma_no_dirty(f, f.groups@.len() as int);
}

proof fn lemma_no_dirty(f: &PaintedFrame, n: int)
    ensures
        dirty_list(f, f, 0, n).len() == 0,
    decreases n,
{
    if n > 0 {
        lemma_no_dirty(f, n - 1);
        assert(!group_dirty(f, f, 0, n - 1));
    }
}

impl PaintedFrame {
    /// The text of the group that row `y` belongs to, if there is such a row.
    pub fn text_at(&self, y: usize) -> (r: Option<&Option<String>>)
        requires
            frame_ok(self),
        ensures
            y < self.rows@.len() ==> r == Some(&self.groups@[self.rows@[y as int].group as int].text),
            y >= self.rows@.len() ==> r is None,
    {
        if y < self.rows.len() {
            let g = self.rows[y].group;
            Some(&self.groups[g].text)
        } else {
            None
        }
    }

    /// Whether screen row `y` of this frame already shows what row `other_y`
    /// of `other` needs, i.e. it can be reused as it is.
    pub fn matches(&self, y: usize, other: &PaintedFrame, other_y: usize) -> (r: bool)
        requires
            frame_ok(self),
            frame_ok(other),
        ensures
            r == rows_match(self, y as int, other, other_y as int),
    {
        if y >= self.rows.len() || other_y >= other.rows.len() {
            return false;
        }
        let a = &self.rows[y];
        let b = &other.rows[other_y];
        if a.pos.0 != b.pos.0 || a.pos.1 != b.pos.1 || a.raw.start != b.raw.start || a.raw.end != b.raw.end {
            return false;
        }
        let ta = &self.groups[a.group].text;
        let tb = &other.groups[b.group].text;
        match (ta, tb) {
            (Some(x), Some(z)) => *x == *z,
            (None, None) => true,
            _ => false,
        }
    }
}

/// Index of the last of `rows` at position `pos`.
fn last_row_index(rows: &Vec<PaintedRow>, pos: (usize, usize)) -> (r: Option<usize>)
    ensures
        r matches Some(k) ==> k < rows@.len() && last_row_at(rows@, pos) == Some(k as int),
        r is None ==> last_row_at(rows@, pos) is None,
{
    let mut k = rows.len();
    proof {
        assert(rows@.take(k as int) =~= rows@);
    }
    while k > 0
        invariant
            k <= rows@.len(),
            last_row_at(rows@, pos) == last_row_at(rows@.take(k as int), pos),
        decreases k,
    {
        let ghost t = rows@.take(k as int);
        proof {
            assert(t.drop_last() =~= rows@.take(k - 1));
            assert(t.last() == rows@[k - 1]);
        }
        if rows[k - 1].pos.0 == pos.0 && rows[k - 1].pos.1 == pos.1 {
            return Some(k - 1);
        }
        k -= 1;
    }
    None
}

/// Votes never exceed the rows counted.
proof fn lemma_votes_bound(old: &PaintedFrame, new: &PaintedFrame, s: int, n: int)
    ensures
        votes(old, new, s, n) <= if n < 0 {
            0
        } else {
            n
        },
    decreases n,
{
    if n > 0 {
        lemma_votes_bound(old, new, s, n - 1);
    }
}

/// How far the screen content moved between two frames, in screen rows; a
/// positive shift means the content moved up, i.e. the page scrolled down.
///
/// Every row of the new frame votes for the distance at which it finds itself,
/// unchanged, in the old frame, and the most voted distance wins. The number of
/// rows that need no redraw is exactly the number of votes a shift got, so the
/// winner is also the shift that leaves the least to redraw, a shift of zero
/// competing on the same footing. Sticky rows stay put while the content moves,
/// so they vote for zero and are outvoted. Ties go to the shorter distance, so
/// an unmoved page never scrolls the terminal, and then to the negative shift.
pub fn plan_shift(old: &PaintedFrame, new: &PaintedFrame) -> (r: isize)
    requires
        frame_ok(old),
        frame_ok(new),
        old.rows@.len() <= isize::MAX,
        new.rows@.len() <= isize::MAX,
    ensures
        (r == 0 && forall|s: int| count(old, new, s) == 0) || (count(old, new, r as int) > 0 && forall|
            s: int,
        |
            s != r ==> beats(
                count(old, new, r as int) as int,
                r as int,
                #[trigger] count(old, new, s) as int,
                s,
            )),
        r == 0 || -(new.rows@.len() as int) < r < old.rows@.len(),
{
    let n = new.rows.len();
    let mut tally: Vec<(isize, usize)> = Vec::new();
    let mut y: usize = 0;
    while y < n
        invariant
            frame_ok(old),
            frame_ok(new),
            old.rows@.len() <= isize::MAX,
            n == new.rows@.len() <= isize::MAX,
            y <= n,
            forall|t: int|
                0 <= t < tally@.len() ==> (#[trigger] tally@[t]).1 == votes(old, new, tally@[t].0 as int, y as int)
                    && tally@[t].1 > 0 && -(n as int) < tally@[t].0 < old.rows@.len(),
            forall|t: int, u: int| 0 <= t < u < tally@.len() ==> (#[trigger] tally@[t]).0 != (#[trigger] tally@[u]).0,
            forall|s: int| #[trigger] votes(old, new, s, y as int) > 0 ==> exists|t: int| 0 <= t < tally@.len() && (#[trigger] tally@[t]).0 == s,
        decreases n - y,
    {
        let pos = new.rows[y].pos;
        let found = last_row_index(&old.rows, pos);
        let mut voted: Option<isize> = None;
        match found {
            Some(old_y) => {
                if old.matches(old_y, new, y) {
                    let d: isize = (old_y as isize) - (y as isize);
                    voted = Some(d);
                }
            },
            None => {},
        }
        proof {
            assert(pos == new.rows@[y as int].pos);
            match found {
                Some(old_y) => {
                    assert(last_row_at(old.rows@, pos) == Some(old_y as int));
                },
                None => {
                    assert(last_row_at(old.rows@, pos) is None);
                },
            }
            assert(vote(old, new, y as int) == match voted {
                Some(d) => Some(d as int),
                None => None,
            });
        }
        let ghost before = tally@;
        match voted {
            Some(d) => {
                let mut t: usize = 0;
                let mut at: Option<usize> = None;
                while t < tally.len()
                    invariant
                        tally@ == before,
                        t <= tally@.len(),
                        at is None ==> forall|u: int| 0 <= u < t ==> (#[trigger] tally@[u]).0 != d,
                        at matches Some(a) ==> a < tally@.len() && tally@[a as int].0 == d,
                    decreases tally@.len() - t,
                {
                    if at.is_none() && tally[t].0 == d {
                        at = Some(t);
                    }
                    t += 1;
                }
                match at {
                    Some(a) => {
                        let (s, c) = tally[a];
                        proof {
                            lemma_votes_bound(old, new, d as int, y as int);
                        }
                        tally.set(a, (s, c + 1));
                    },
                    None => {
                        tally.push((d, 1));
                    },
                }
            },
            None => {},
        }
        y += 1;
        proof {
            assert forall|t: int| 0 <= t < tally@.len() implies (#[trigger] tally@[t]).1 == votes(
                old,
                new,
                tally@[t].0 as int,
                y as int,
            ) && tally@[t].1 > 0 && -(n as int) < tally@[t].0 < old.rows@.len() by {
                if t < before.len() {
                    assert(before[t].1 == votes(old, new, before[t].0 as int, y - 1));
                }
            }
            assert forall|s: int| #[trigger] votes(old, new, s, y as int) > 0 implies exists|t: int|
                0 <= t < tally@.len() && (#[trigger] tally@[t]).0 == s by {
                if votes(old, new, s, y - 1) > 0 {
                    let t = choose|t: int| 0 <= t < before.len() && (#[trigger] before[t]).0 == s;
                    assert(tally@[t].0 == s);
                } else {
                    assert(voted == Some(s as isize));
                    match voted {
                        Some(d) => {
                            if exists|t: int| 0 <= t < before.len() && (#[trigger] before[t]).0 == d {
                                let t = choose|t: int| 0 <= t < before.len() && (#[trigger] before[t]).0 == d;
                                assert(tally@[t].0 == s);
                            } else {
                                assert(tally@[before.len() as int].0 == s);
                            }
                        },
                        None => {},
                    }
                }
            }
        }
    }
    if tally.len() == 0 {
        proof {
            assert forall|s: int| count(old, new, s) == 0 by {
                if count(old, new, s) > 0 {
                    let t = choose|t: int| 0 <= t < tally@.len() && (#[trigger] tally@[t]).0 == s;
                }
            }
        }
        return 0;
    }
    let mut best: usize = 0;
    let mut i: usize = 1;
    while i < tally.len()
        invariant
            1 <= i <= tally@.len(),
            best < i,
            forall|t: int|
                0 <= t < tally@.len() ==> -(n as int) < (#[trigger] tally@[t]).0 < old.rows@.len(),
            forall|t: int, u: int| 0 <= t < u < tally@.len() ==> (#[trigger] tally@[t]).0 != (#[trigger] tally@[u]).0,
            forall|t: int|
                0 <= t < i && t != best ==> beats(
                    tally@[best as int].1 as int,
                    tally@[best as int].0 as int,
                    (#[trigger] tally@[t]).1 as int,
                    tally@[t].0 as int,
                ),
            old.rows@.len() <= isize::MAX,
            n <= isize::MAX,
        decreases tally@.len() - i,
    {
        let (bs, bc) = tally[best];
        let (s, c) = tally[i];
        let ba: isize = if bs < 0 {
            -bs
        } else {
            bs
        };
        let sa: isize = if s < 0 {
            -s
        } else {
            s
        };
        if c > bc || (c == bc && (sa < ba || (sa == ba && s < bs))) {
            best = i;
        }
        i += 1;
    }
    let r = tally[best].0;
    proof {
        assert forall|s: int| s != r implies beats(
            count(old, new, r as int) as int,
            r as int,
            #[trigger] count(old, new, s) as int,
            s,
        ) by {
            if count(old, new, s) > 0 {
                let t = choose|t: int| 0 <= t < tally@.len() && (#[trigger] tally@[t]).0 == s;
                assert(t != best);
            }
        }
    }
    r
}

/// The groups of `new` the screen does not already show once it is scrolled
/// by `shift`, in increasing order. A group is redrawn as a whole because its
/// rows are written as one string.
pub fn dirty_groups(old: &PaintedFrame, new: &PaintedFrame, shift: isize) -> (r: Vec<usize>)
    requires
        frame_ok(old),
        frame_ok(new),
        new.rows@.len() <= isize::MAX,
        new.rows@.len() + shift <= isize::MAX,
    ensures
        r@ == dirty_list(old, new, shift as int, new.groups@.len() as int),
{
    let ng = new.groups.len();
    let mut dirty: Vec<bool> = Vec::new();
    let mut g: usize = 0;
    while g < ng
        invariant
            g <= ng == new.groups@.len(),
            dirty@.len() == g,
            forall|k: int| 0 <= k < g ==> !(#[trigger] dirty@[k]),
        decreases ng - g,
    {
        dirty.push(false);
        g += 1;
    }
    let n = new.rows.len();
    let mut y: usize = 0;
    while y < n
        invariant
            frame_ok(old),
            frame_ok(new),
            n == new.rows@.len(),
            n <= isize::MAX,
            n + shift <= isize::MAX,
            ng == new.groups@.len(),
            dirty@.len() == ng,
            y <= n,
            forall|k: int|
                0 <= k < ng ==> (#[trigger] dirty@[k] <==> exists|z: int|
                    0 <= z < y && (#[trigger] new.rows@[z]).group == k && !reusable(old, new, shift as int, z)),
        decreases n - y,
    {
        let old_y: isize = (y as isize) + shift;
        let keep = old_y >= 0 && old.matches(old_y as usize, new, y);
        let gr = new.rows[y].group;
        let ghost before = dirty@;
        if !keep {
            dirty.set(gr, true);
        }
        proof {
            assert(keep == reusable(old, new, shift as int, y as int));
            assert forall|k: int| 0 <= k < ng implies (#[trigger] dirty@[k] <==> exists|z: int|
                0 <= z < y + 1 && (#[trigger] new.rows@[z]).group == k && !reusable(old, new, shift as int, z)) by {
                if dirty@[k] {
                    if k == gr && !keep {
                        assert(new.rows@[y as int].group == k);
                    } else {
                        assert(before[k]);
                    }
                }
                if exists|z: int| 0 <= z < y + 1 && (#[trigger] new.rows@[z]).group == k && !reusable(old, new, shift as int, z) {
                    let z = choose|z: int| 0 <= z < y + 1 && (#[trigger] new.rows@[z]).group == k && !reusable(old, new, shift as int, z);
                    if z < y {
                        assert(before[k]);
                    }
                }
            }
        }
        y += 1;
    }
    let mut out: Vec<usize> = Vec::new();
    let mut i: usize = 0;
    while i < ng
        invariant
            i <= ng == new.groups@.len() == dirty@.len(),
            n == new.rows@.len(),
            forall|k: int|
                0 <= k < ng ==> (#[trigger] dirty@[k] <==> exists|z: int|
                    0 <= z < n && (#[trigger] new.rows@[z]).group == k && !reusable(old, new, shift as int, z)),
            out@ == dirty_list(old, new, shift as int, i as int),
        decreases ng - i,
    {
        proof {
            assert(dirty@[i as int] == group_dirty(old, new, shift as int, i as int));
        }
        if dirty[i] {
            out.push(i);
        }
        i += 1;
        proof {
            assert(out@ =~= dirty_list(old, new, shift as int, i as int));
        }
    }
    out
}

/// Magnitude of `shift`.
fn unsigned_abs(shift: isize) -> (r: usize)
    ensures
        r == abs(shift as int),
{
    if shift >= 0 {
        shift as usize
    } else {
        let m: isize = -(shift + 1);
        (m as usize) + 1
    }
}

/// The terminal scroll that realizes a screen shift: down for a positive
/// shift, up for a negative one, none for zero.
pub fn as_scroll(shift: isize) -> (r: Option<Scroll>)
    ensures
        shift == 0 <==> r is None,
        r matches Some(s) ==> s.num_rows.spec_get() == abs(shift as int) && (s.direction == if shift > 0 {
            Direction::Down
        } else {
            Direction::Up
        }),
{
    let direction = if shift > 0 {
        Direction::Down
    } else {
        Direction::Up
    };
    Scroll::new(direction, unsigned_abs(shift))
}


/// The text of a group of rows of one line: the raw bytes from the start of
/// its first row to the end of its last, search highlights applied; `None`
/// when the line is missing (or the rows do not span a range of it).
pub open spec fn group_text_spec(doc: &Document, search: Option<&SearchState>, rows: Seq<Row>) -> Option<
    Seq<char>,
> {
    let l = rows[0].line_index as int;
    let start = rows[0].raw_start as int;
    let end = rows.last().raw_end as int;
    if l < doc.spec_lines().len() && start <= end && end <= bytes_len(doc.spec_lines()[l].spec_raw()) {
        Some(highlight_spec(search, doc.spec_lines()[l], start, end))
    } else {
        None
    }
}

/// The text painted for a group of rows of a line is the raw text those
/// rows cover, from where the first row starts to where the last one ends:
/// with no search, or a search without a match in the line, exactly that
/// slice of the line.
pub proof fn law_group_text_is_the_slice_its_rows_cover(
    doc: &Document,
    search: Option<&SearchState>,
    rows: Seq<Row>,
)
    requires
        rows.len() > 0,
        rows[0].line_index < doc.spec_lines().len(),
        rows[0].raw_start <= rows.last().raw_end,
        rows.last().raw_end <= bytes_len(doc.spec_lines()[rows[0].line_index as int].spec_raw()),
        !search_hits_line(search, doc.spec_lines()[rows[0].line_index as int]),
    ensures
        group_text_spec(doc, search, rows) == Some(
            byte_slice(
                doc.spec_lines()[rows[0].line_index as int].spec_raw(),
                rows[0].raw_start as int,
                rows.last().raw_end as int,
            ),
        ),
{
}

/// The text of one group of rows of one line, search highlights applied.
pub fn group_text(doc: &Document, search: Option<&SearchState>, rows: &[Row]) -> (r: Option<String>)
    requires
        doc.wf(),
        rows@.len() > 0,
    ensures
        match group_text_spec(doc, search, rows@) {
            Some(t) => r matches Some(x) && x@ == t,
            None => r is None,
        },
{
    let line = match doc.line(rows[0].line_index) {
        Some(l) => l,
        None => {
            return None;
        },
    };
    proof {
        doc.lemma_wf();
        assert(doc.spec_lines()[rows@[0].line_index as int].wf());
        line.lemma_wf();
    }
    let start = rows[0].raw_start;
    let end = rows[rows.len() - 1].raw_end;
    if start <= end && end <= line.raw_len() {
        let text = apply_highlight_if_matches(search, line, start..end);
        Some(
            match text {
                Cow::Borrowed(slice) => slice.to_owned(),
                Cow::Owned(owned) => owned,
            },
        )
    } else {
        None
    }
}

/// Row `y` of `rows` starts a group: it opens a section (the sections start
/// at 0, `b1` and `b2`) or its line differs from the row above.
pub open spec fn starts_group(rows: Seq<Row>, b1: int, b2: int, y: int) -> bool {
    y == 0 || y == b1 || y == b2 || rows[y].line_index != rows[y - 1].line_index
}

/// The groups of the first `n` rows, as (first row, number of rows).
pub open spec fn group_spans(rows: Seq<Row>, b1: int, b2: int, n: int) -> Seq<(usize, usize)>
    decreases n,
{
    if n <= 0 {
        Seq::empty()
    } else {
        let s = group_spans(rows, b1, b2, n - 1);
        if starts_group(rows, b1, b2, n - 1) || s.len() == 0 {
            s.push(((n - 1) as usize, 1usize))
        } else {
            s.update(s.len() - 1, (s.last().0, (s.last().1 + 1) as usize))
        }
    }
}

/// The painted row of `r`, in group `g`.
pub open spec fn painted_row(r: Row, g: usize) -> PaintedRow {
    PaintedRow { pos: (r.line_index, r.wrap_index), raw: r.raw_start..r.raw_end, group: g }
}

/// `f` paints the rows `rows`, split into sections at `b1` and `b2`, for the
/// search `search` over `doc`: one painted row per row, grouped by runs of
/// one line within a section, each group with its text.
pub open spec fn paints(f: &PaintedFrame, doc: &Document, search: Option<&SearchState>, rows: Seq<Row>, b1: int, b2: int) -> bool {
    let spans = group_spans(rows, b1, b2, rows.len() as int);
    &&& f.rows@.len() == rows.len()
    &&& f.groups@.len() == spans.len()
    &&& forall|g: int|
        0 <= g < spans.len() ==> (#[trigger] f.groups@[g]).y == spans[g].0 && f.groups@[g].height
            == spans[g].1 && match group_text_spec(
            doc,
            search,
            rows.subrange(spans[g].0 as int, spans[g].0 + spans[g].1),
        ) {
            Some(t) => f.groups@[g].text matches Some(x) && x@ == t,
            None => f.groups@[g].text is None,
        }
    &&& forall|y: int|
        0 <= y < rows.len() ==> {
            let g = (#[trigger] f.rows@[y]).group as int;
            &&& f.rows@[y].pos == (rows[y].line_index, rows[y].wrap_index)
            &&& f.rows@[y].raw.start == rows[y].raw_start
            &&& f.rows@[y].raw.end == rows[y].raw_end
            &&& 0 <= g < spans.len()
            &&& spans[g].0 <= y < spans[g].0 + spans[g].1
        }
}

/// The spans cover the first `n` rows in order, each starting a group and
/// holding one line.
proof fn lemma_group_spans(rows: Seq<Row>, b1: int, b2: int, n: int)
    requires
        0 <= n <= rows.len(),
        n <= usize::MAX,
    ensures
        n > 0 ==> group_spans(rows, b1, b2, n).len() > 0,
        n > 0 ==> group_spans(rows, b1, b2, n).last().0 + group_spans(rows, b1, b2, n).last().1 == n,
        forall|g: int|
            0 <= g < group_spans(rows, b1, b2, n).len() ==> (#[trigger] group_spans(rows, b1, b2, n)[g]).1 >= 1
                && group_spans(rows, b1, b2, n)[g].0 + group_spans(rows, b1, b2, n)[g].1 <= n,
    decreases n,
{
    if n > 0 {
        lemma_group_spans(rows, b1, b2, n - 1);
        let s = group_spans(rows, b1, b2, n - 1);
        let t = group_spans(rows, b1, b2, n);
        if starts_group(rows, b1, b2, n - 1) || s.len() == 0 {
            assert(t == s.push(((n - 1) as usize, 1usize)));
            assert forall|g: int| 0 <= g < t.len() implies (#[trigger] t[g]).1 >= 1 && t[g].0 + t[g].1 <= n by {
                if g < s.len() {
                    assert(t[g] == s[g]);
                }
            }
        } else {
            assert(s.last().0 + s.last().1 == n - 1);
            assert(t == s.update(s.len() - 1, (s.last().0, (s.last().1 + 1) as usize)));
            assert forall|g: int| 0 <= g < t.len() implies (#[trigger] t[g]).1 >= 1 && t[g].0 + t[g].1 <= n by {
                if g < s.len() - 1 {
                    assert(t[g] == s[g]);
                }
            }
        }
    }
}

/// Build the frame a page should produce on screen. The rows of the header,
/// heading and content are painted top to bottom, and the rows of one line
/// within a section form a group written as one string.
pub fn build_frame(doc: &Document, page: &PageSnapshot) -> (f: PaintedFrame)
    requires
        doc.wf(),
        page.header@.len() + page.heading@.len() + page.content@.len() < usize::MAX,
    ensures
        frame_ok(&f),
        paints(
            &f,
            doc,
            page.search,
            page.header@ + page.heading@ + page.content@,
            page.header@.len() as int,
            (page.header@.len() + page.heading@.len()) as int,
        ),
        f.status@ == page.status_line@,
        f.status_y == page.header@.len() + page.heading@.len() + page.content@.len(),
        f.height == page.height,
{
    let b1 = page.header.len();
    let b2 = b1 + page.heading.len();
    let total = b2 + page.content.len();
    let ghost all = page.header@ + page.heading@ + page.content@;
    let mut rows_all: Vec<Row> = Vec::new();
    let mut i: usize = 0;
    while i < page.header.len()
        invariant
            i <= page.header@.len(),
            rows_all@ == page.header@.take(i as int),
        decreases page.header@.len() - i,
    {
        rows_all.push(page.header[i]);
        i += 1;
        proof {
            assert(rows_all@ =~= page.header@.take(i as int));
        }
    }
    i = 0;
    proof {
        assert(page.header@.take(page.header@.len() as int) =~= page.header@);
    }
    while i < page.heading.len()
        invariant
            i <= page.heading@.len(),
            rows_all@ == page.header@ + page.heading@.take(i as int),
        decreases page.heading@.len() - i,
    {
        rows_all.push(page.heading[i]);
        i += 1;
        proof {
            assert(rows_all@ =~= page.header@ + page.heading@.take(i as int));
        }
    }
    i = 0;
    proof {
        assert(page.heading@.take(page.heading@.len() as int) =~= page.heading@);
    }
    while i < page.content.len()
        invariant
            i <= page.content@.len(),
            rows_all@ == page.header@ + page.heading@ + page.content@.take(i as int),
        decreases page.content@.len() - i,
    {
        rows_all.push(page.content[i]);
        i += 1;
        proof {
            assert(rows_all@ =~= page.header@ + page.heading@ + page.content@.take(i as int));
        }
    }
    proof {
        assert(page.content@.take(page.content@.len() as int) =~= page.content@);
        assert(rows_all@ =~= all);
    }
    // Split into groups and paint the rows.
    let mut spans: Vec<(usize, usize)> = Vec::new();
    let mut painted: Vec<PaintedRow> = Vec::new();
    let mut y: usize = 0;
    while y < total
        invariant
            total == all.len() < usize::MAX,
            rows_all@ == all,
            b1 == page.header@.len(),
            b2 == page.header@.len() + page.heading@.len(),
            y <= total,
            spans@ == group_spans(all, b1 as int, b2 as int, y as int),
            painted@.len() == y,
            forall|k: int|
                0 <= k < y ==> {
                    let g = (#[trigger] painted@[k]).group as int;
                    &&& painted@[k].pos == (all[k].line_index, all[k].wrap_index)
                    &&& painted@[k].raw.start == all[k].raw_start
                    &&& painted@[k].raw.end == all[k].raw_end
                    &&& 0 <= g < spans@.len()
                    &&& spans@[g].0 <= k < spans@[g].0 + spans@[g].1
                },
        decreases total - y,
    {
        let ghost before = spans@;
        proof {
            lemma_group_spans(all, b1 as int, b2 as int, y as int);
        }
        let starts = y == 0 || y == b1 || y == b2 || rows_all[y].line_index != rows_all[y - 1].line_index;
        if starts || spans.len() == 0 {
            spans.push((y, 1));
        } else {
            let last = spans.len() - 1;
            let (s0, h0) = spans[last];
            spans.set(last, (s0, h0 + 1));
        }
        let r = rows_all[y];
        painted.push(PaintedRow { pos: (r.line_index, r.wrap_index), raw: r.raw_start..r.raw_end, group: spans.len() - 1 });
        proof {
            assert(spans@ =~= group_spans(all, b1 as int, b2 as int, y + 1));
            assert forall|k: int| 0 <= k < y + 1 implies {
                let g = (#[trigger] painted@[k]).group as int;
                &&& painted@[k].pos == (all[k].line_index, all[k].wrap_index)
                &&& painted@[k].raw.start == all[k].raw_start
                &&& painted@[k].raw.end == all[k].raw_end
                &&& 0 <= g < spans@.len()
                &&& spans@[g].0 <= k < spans@[g].0 + spans@[g].1
            } by {
                if k < y {
                    let g = painted@[k].group as int;
                    if g < before.len() - 1 || starts || before.len() == 0 {
                        assert(spans@[g] == before[g]);
                    }
                }
            }
        }
        y += 1;
    }
    // The text of each group.
    let mut groups: Vec<PaintedGroup> = Vec::new();
    let mut g: usize = 0;
    proof {
        lemma_group_spans(all, b1 as int, b2 as int, total as int);
    }
    while g < spans.len()
        invariant
            g <= spans@.len(),
            rows_all@ == all,
            total == all.len(),
            doc.wf(),
            spans@ == group_spans(all, b1 as int, b2 as int, total as int),
            forall|h: int|
                0 <= h < spans@.len() ==> (#[trigger] spans@[h]).1 >= 1 && spans@[h].0 + spans@[h].1 <= total,
            groups@.len() == g,
            forall|h: int|
                0 <= h < g ==> (#[trigger] groups@[h]).y == spans@[h].0 && groups@[h].height == spans@[h].1
                    && match group_text_spec(
                    doc,
                    page.search,
                    all.subrange(spans@[h].0 as int, spans@[h].0 + spans@[h].1),
                ) {
                    Some(t) => groups@[h].text matches Some(x) && x@ == t,
                    None => groups@[h].text is None,
                },
        decreases spans@.len() - g,
    {
        let (s0, h0) = spans[g];
        assert(h0 >= 1 && s0 + h0 <= total);
        let part = vstd::slice::slice_subrange(rows_all.as_slice(), s0, s0 + h0);
        let text = group_text(doc, page.search, part);
        groups.push(PaintedGroup { y: s0, height: h0, text });
        g += 1;
    }
    let f = PaintedFrame { groups, rows: painted, status: page.status_line.clone(), status_y: total, height: page.height };
    proof {
        assert forall|yy: int| 0 <= yy < f.rows@.len() implies (#[trigger] f.rows@[yy]).group < f.groups@.len() by {
        }
    }
    f
}

/// What a render writes, decided from the frame painted last and the new one.
#[derive(Debug)]
pub struct RenderPlan {
    /// The terminal scroll to issue first, if the content moved.
    pub scroll: Option<Scroll>,
    /// The groups of the new frame to redraw, in order.
    pub dirty: Vec<usize>,
    /// The rows from the status line on to clear: `blank_start..blank_end`.
    pub blank_start: usize,
    pub blank_end: usize,
}

/// The plan to go from the frame painted last (if any) to `frame`: scroll
/// by the planned shift, redraw the groups that do not already show, and
/// clear the rows from the status line down past whatever either frame
/// painted.
pub fn plan_render(last: Option<&PaintedFrame>, frame: &PaintedFrame) -> (r: RenderPlan)
    requires
        frame_ok(frame),
        frame.status_y < usize::MAX,
        match last {
            Some(l) => frame_ok(l) && l.rows@.len() + frame.rows@.len() <= isize::MAX,
            None => frame.rows@.len() <= isize::MAX,
        },
    ensures
        match last {
            Some(l) => {
                let shift = r.scroll;
                exists|s: isize|
                    {
                        &&& (s == 0 && forall|t: int| count(l, frame, t) == 0) || (count(l, frame, s as int) > 0
                            && forall|t: int|
                            t != s ==> beats(
                                count(l, frame, s as int) as int,
                                s as int,
                                #[trigger] count(l, frame, t) as int,
                                t,
                            ))
                        &&& r.dirty@ == dirty_list(l, frame, s as int, frame.groups@.len() as int)
                        &&& (s == 0 <==> shift is None)
                        &&& (shift matches Some(sc) ==> sc.num_rows.spec_get() == abs(s as int) && sc.direction
                            == if s > 0 {
                            Direction::Down
                        } else {
                            Direction::Up
                        })
                    }
            },
            None => r.scroll is None && r.dirty@.len() == frame.groups@.len() && forall|g: int|
                0 <= g < frame.groups@.len() ==> r.dirty@[g] == g,
        },
        r.blank_start == frame.status_y,
        r.blank_end == {
            let before = match last {
                Some(l) => l.status_y,
                None => 0,
            };
            let a = if frame.height >= before {
                frame.height
            } else {
                before
            };
            if a >= frame.status_y + 1 {
                a
            } else {
                (frame.status_y + 1) as usize
            }
        },
{
    let (scroll, dirty, before) = match last {
        Some(l) => {
            let shift = plan_shift(l, frame);
            let dirty = dirty_groups(l, frame, shift);
            (as_scroll(shift), dirty, l.status_y)
        },
        None => {
            let mut all: Vec<usize> = Vec::new();
            let mut g: usize = 0;
            while g < frame.groups.len()
                invariant
                    g <= frame.groups@.len(),
                    all@.len() == g,
                    forall|k: int| 0 <= k < g ==> all@[k] == k,
                decreases frame.groups@.len() - g,
            {
                all.push(g);
                g += 1;
            }
            (None, all, 0)
        },
    };
    let a = if frame.height >= before {
        frame.height
    } else {
        before
    };
    let blank_end = if a >= frame.status_y + 1 {
        a
    } else {
        frame.status_y + 1
    };
    RenderPlan { scroll, dirty, blank_start: frame.status_y, blank_end }
}

} // verus!
