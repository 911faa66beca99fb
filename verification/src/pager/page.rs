//! The rows a page shows, over a double-ended queue of wrapped lines.
//!
//! The page holds the lines it shows and a few more before and after them,
//! and marks its first and last row by a line of the queue and a wrap row of
//! that line. It moves by rows without loading anything while the queue has
//! the next row, and takes a new line at one end when it does not.

use std::collections::VecDeque;

use vstd::prelude::*;

use crate::pager::line::{is_span, PageLine, RowSpan};
use crate::query::{regex_find_all, Query};


verus! {

/// A row of the page: a line of the queue and a wrap row of that line.
#[derive(Debug, Clone, Copy, PartialEq, Eq, Structural)]
pub struct PageRow {
    /// The index of the line in the queue; it has nothing to do with the
    /// line's position in the document.
    pub deque_index: usize,
    /// The wrap row of that line.
    pub wrap_row_index: usize,
}

/// The number of wrap rows of line `i`.
pub open spec fn rows_of<Meta>(lines: Seq<PageLine<Meta>>, i: int) -> int {
    lines[i].spec_row_len() as int
}

/// The number of wrap rows of lines `a..b`.
pub open spec fn line_rows_between<Meta>(lines: Seq<PageLine<Meta>>, a: int, b: int) -> int
    decreases b - a,
{
    if b <= a {
        0
    } else {
        line_rows_between(lines, a, b - 1) + rows_of(lines, b - 1)
    }
}

/// The number of rows from `start` to `end`, both included.
pub open spec fn shown_rows<Meta>(lines: Seq<PageLine<Meta>>, start: PageRow, end: PageRow) -> int {
    line_rows_between(lines, start.deque_index as int, end.deque_index + 1) - start.wrap_row_index - (
    rows_of(lines, end.deque_index as int) - 1 - end.wrap_row_index)
}

/// `r` is a row of one of `lines`.
pub open spec fn position_ok<Meta>(lines: Seq<PageLine<Meta>>, r: PageRow) -> bool {
    &&& r.deque_index < lines.len()
    &&& r.wrap_row_index < rows_of(lines, r.deque_index as int)
}

/// Row `a` comes no later than row `b`.
pub open spec fn ordered(a: PageRow, b: PageRow) -> bool {
    ||| a.deque_index < b.deque_index
    ||| (a.deque_index == b.deque_index && a.wrap_row_index <= b.wrap_row_index)
}

/// The row after `r`, if the queue has one.
pub open spec fn next_row<Meta>(lines: Seq<PageLine<Meta>>, r: PageRow) -> Option<PageRow> {
    if r.wrap_row_index + 1 < rows_of(lines, r.deque_index as int) {
        Some(PageRow { deque_index: r.deque_index, wrap_row_index: (r.wrap_row_index + 1) as usize })
    } else if r.deque_index + 1 < lines.len() {
        Some(PageRow { deque_index: (r.deque_index + 1) as usize, wrap_row_index: 0 })
    } else {
        None
    }
}

/// The row before `r`, if the queue has one.
pub open spec fn prev_row<Meta>(lines: Seq<PageLine<Meta>>, r: PageRow) -> Option<PageRow> {
    if r.wrap_row_index > 0 {
        Some(PageRow { deque_index: r.deque_index, wrap_row_index: (r.wrap_row_index - 1) as usize })
    } else if r.deque_index > 0 {
        Some(
            PageRow {
                deque_index: (r.deque_index - 1) as usize,
                wrap_row_index: (rows_of(lines, r.deque_index - 1) - 1) as usize,
            },
        )
    } else {
        None
    }
}

/// Every line has at least one row and its rows end in order.
pub open spec fn lines_ok<Meta>(lines: Seq<PageLine<Meta>>) -> bool {
    &&& lines.len() <= usize::MAX
    &&& forall|i: int| 0 <= i < lines.len() ==> (#[trigger] lines[i]).wf()
}

/// Rows of lines `a..c` are those of `a..b` and then of `b..c`.
pub proof fn lemma_rows_split<Meta>(lines: Seq<PageLine<Meta>>, a: int, b: int, c: int)
    requires
        a <= b <= c,
    ensures
        line_rows_between(lines, a, c) == line_rows_between(lines, a, b) + line_rows_between(lines, b, c),
    decreases c - b,
{
    if c > b {
        lemma_rows_split(lines, a, b, c - 1);
    }
}

/// The rows of one line.
pub proof fn lemma_rows_one<Meta>(lines: Seq<PageLine<Meta>>, a: int)
    ensures
        line_rows_between(lines, a, a + 1) == rows_of(lines, a),
{
    assert(line_rows_between(lines, a, a) == 0);
}

/// Lines `a..b` have at least one row each.
pub proof fn lemma_rows_at_least<Meta>(lines: Seq<PageLine<Meta>>, a: int, b: int)
    requires
        lines_ok(lines),
        0 <= a <= b <= lines.len(),
    ensures
        line_rows_between(lines, a, b) >= b - a,
    decreases b - a,
{
    if b > a {
        lemma_rows_at_least(lines, a, b - 1);
        assert(lines[b - 1].wf());
    }
}

/// Lines that moved by `d` places in the queue keep their rows.
pub proof fn lemma_rows_shift<Meta>(l1: Seq<PageLine<Meta>>, l2: Seq<PageLine<Meta>>, a: int, b: int, d: int)
    requires
        forall|i: int| a <= i < b ==> l2[i + d] == l1[i],
    ensures
        line_rows_between(l2, a + d, b + d) == line_rows_between(l1, a, b),
    decreases b - a,
{
    if b > a {
        lemma_rows_shift(l1, l2, a, b - 1, d);
        assert(l2[b - 1 + d] == l1[b - 1]);
    }
}

/// A page shows at least one row of each line from its first to its last.
pub proof fn lemma_shown_at_least<Meta>(lines: Seq<PageLine<Meta>>, start: PageRow, end: PageRow)
    requires
        lines_ok(lines),
        position_ok(lines, start),
        position_ok(lines, end),
        ordered(start, end),
    ensures
        shown_rows(lines, start, end) >= end.deque_index - start.deque_index + 1,
{
    let a = start.deque_index as int;
    let e = end.deque_index as int;
    lemma_rows_one(lines, a);
    lemma_rows_one(lines, e);
    if a < e {
        lemma_rows_split(lines, a, a + 1, e + 1);
        lemma_rows_split(lines, a + 1, e, e + 1);
        lemma_rows_at_least(lines, a + 1, e);
    }
}

/// Moving the last row one row down shows one row more.
pub proof fn lemma_next_end<Meta>(lines: Seq<PageLine<Meta>>, start: PageRow, end: PageRow)
    requires
        lines_ok(lines),
        position_ok(lines, start),
        position_ok(lines, end),
        ordered(start, end),
        next_row(lines, end) is Some,
    ensures
        ({
            let e2 = next_row(lines, end)->Some_0;
            &&& position_ok(lines, e2)
            &&& ordered(start, e2)
            &&& shown_rows(lines, start, e2) == shown_rows(lines, start, end) + 1
        }),
{
    let a = start.deque_index as int;
    let e = end.deque_index as int;
    let e2 = next_row(lines, end)->Some_0;
    if end.wrap_row_index + 1 >= rows_of(lines, e) {
        assert(lines[e + 1].wf());
        assert(e2.deque_index == e + 1 && e2.wrap_row_index == 0);
        assert(line_rows_between(lines, a, e + 2) == line_rows_between(lines, a, e + 1) + rows_of(lines, e + 1));
    } else {
        assert(e2.deque_index == e && e2.wrap_row_index == end.wrap_row_index + 1);
    }
}

/// Moving the first row one row down, while it is not the last, shows one
/// row less.
pub proof fn lemma_next_start<Meta>(lines: Seq<PageLine<Meta>>, start: PageRow, end: PageRow)
    requires
        lines_ok(lines),
        position_ok(lines, start),
        position_ok(lines, end),
        ordered(start, end),
        start != end,
    ensures
        next_row(lines, start) is Some,
        ({
            let s2 = next_row(lines, start)->Some_0;
            &&& position_ok(lines, s2)
            &&& ordered(s2, end)
            &&& shown_rows(lines, s2, end) == shown_rows(lines, start, end) - 1
        }),
{
    let a = start.deque_index as int;
    let e = end.deque_index as int;
    let s2 = next_row(lines, start)->Some_0;
    if start.wrap_row_index + 1 >= rows_of(lines, a) {
        assert(a < e);
        assert(lines[a + 1].wf());
        assert(s2.deque_index == a + 1 && s2.wrap_row_index == 0);
        lemma_rows_split(lines, a, a + 1, e + 1);
        lemma_rows_one(lines, a);
    } else {
        assert(s2.deque_index == a && s2.wrap_row_index == start.wrap_row_index + 1);
    }
}

/// Moving the first row one row up shows one row more.
pub proof fn lemma_prev_start<Meta>(lines: Seq<PageLine<Meta>>, start: PageRow, end: PageRow)
    requires
        lines_ok(lines),
        position_ok(lines, start),
        position_ok(lines, end),
        ordered(start, end),
        prev_row(lines, start) is Some,
    ensures
        ({
            let s2 = prev_row(lines, start)->Some_0;
            &&& position_ok(lines, s2)
            &&& ordered(s2, end)
            &&& shown_rows(lines, s2, end) == shown_rows(lines, start, end) + 1
        }),
{
    let a = start.deque_index as int;
    let e = end.deque_index as int;
    let s2 = prev_row(lines, start)->Some_0;
    if start.wrap_row_index == 0 {
        assert(lines[a - 1].wf());
        assert(s2.deque_index == a - 1 && s2.wrap_row_index == rows_of(lines, a - 1) - 1);
        lemma_rows_split(lines, a - 1, a, e + 1);
        lemma_rows_one(lines, a - 1);
    } else {
        assert(s2.deque_index == a && s2.wrap_row_index == start.wrap_row_index - 1);
    }
}

/// Moving the last row one row up, while it is not the first, shows one row
/// less.
pub proof fn lemma_prev_end<Meta>(lines: Seq<PageLine<Meta>>, start: PageRow, end: PageRow)
    requires
        lines_ok(lines),
        position_ok(lines, start),
        position_ok(lines, end),
        ordered(start, end),
        start != end,
    ensures
        prev_row(lines, end) is Some,
        ({
            let e2 = prev_row(lines, end)->Some_0;
            &&& position_ok(lines, e2)
            &&& ordered(start, e2)
            &&& shown_rows(lines, start, e2) == shown_rows(lines, start, end) - 1
        }),
{
    let a = start.deque_index as int;
    let e = end.deque_index as int;
    let e2 = prev_row(lines, end)->Some_0;
    if end.wrap_row_index == 0 {
        assert(a < e);
        assert(lines[e - 1].wf());
        assert(e2.deque_index == e - 1 && e2.wrap_row_index == rows_of(lines, e - 1) - 1);
        assert(line_rows_between(lines, a, e + 1) == line_rows_between(lines, a, e) + rows_of(lines, e));
    } else {
        assert(e2.deque_index == e && e2.wrap_row_index == end.wrap_row_index - 1);
    }
}

/// The rows of the lines before the last one shown, less those above the
/// first row, leave room for the rows of the last line down to the last row.
proof fn lemma_partial_rows<Meta>(lines: Seq<PageLine<Meta>>, start: PageRow, end: PageRow, i: int)
    requires
        lines_ok(lines),
        position_ok(lines, start),
        position_ok(lines, end),
        ordered(start, end),
        start.deque_index <= i < end.deque_index,
    ensures
        line_rows_between(lines, start.deque_index as int, i + 1) - start.wrap_row_index + end.wrap_row_index
            + 1 <= shown_rows(lines, start, end),
{
    let a = start.deque_index as int;
    let e = end.deque_index as int;
    lemma_rows_split(lines, a, i + 1, e + 1);
    lemma_rows_split(lines, i + 1, e, e + 1);
    lemma_rows_one(lines, e);
    lemma_rows_at_least(lines, i + 1, e);
}

/// A full page moved one row down and then one row up is back where it was:
/// it is still full after the first move, and the second undoes it.
pub proof fn law_down_then_up_restores_a_full_page<Meta>(
    lines: Seq<PageLine<Meta>>,
    start: PageRow,
    end: PageRow,
    new_start: PageRow,
    new_end: PageRow,
)
    requires
        lines_ok(lines),
        position_ok(lines, start),
        position_ok(lines, end),
        ordered(start, end),
        moved_down(lines, start, end, true, new_start, new_end),
    ensures
        shown_rows(lines, new_start, new_end) == shown_rows(lines, start, end),
        moved_up(lines, new_start, new_end, true, start, end),
{
    lemma_next_end(lines, start, end);
    lemma_next_start(lines, start, new_end);
}

/// A full page moved one row up and then one row down is back where it was:
/// it is still full after the first move, and the second undoes it.
pub proof fn law_up_then_down_restores_a_full_page<Meta>(
    lines: Seq<PageLine<Meta>>,
    start: PageRow,
    end: PageRow,
    new_start: PageRow,
    new_end: PageRow,
)
    requires
        lines_ok(lines),
        position_ok(lines, start),
        position_ok(lines, end),
        ordered(start, end),
        moved_up(lines, start, end, true, new_start, new_end),
    ensures
        shown_rows(lines, new_start, new_end) == shown_rows(lines, start, end),
        moved_down(lines, new_start, new_end, true, start, end),
{
    lemma_prev_start(lines, start, end);
    lemma_prev_end(lines, new_start, end);
}

/// The row `k` rows after `r`, if the queue has it.
pub open spec fn advance<Meta>(lines: Seq<PageLine<Meta>>, r: PageRow, k: nat) -> Option<PageRow>
    decreases k,
{
    if k == 0 {
        Some(r)
    } else {
        match next_row(lines, r) {
            Some(r2) => advance(lines, r2, (k - 1) as nat),
            None => None,
        }
    }
}

/// Advancing by `a` rows and then by `b` rows is advancing by `a + b`.
proof fn lemma_advance_add<Meta>(lines: Seq<PageLine<Meta>>, r: PageRow, a: nat, b: nat)
    requires
        advance(lines, r, a) is Some,
    ensures
        advance(lines, r, a + b) == advance(lines, advance(lines, r, a)->Some_0, b),
    decreases a,
{
    if a > 0 {
        let r2 = next_row(lines, r)->Some_0;
        lemma_advance_add(lines, r2, (a - 1) as nat, b);
        assert((a + b - 1) as nat == (a - 1) as nat + b);
    }
}

/// Within a line, advancing moves along its wrap rows.
proof fn lemma_advance_within<Meta>(lines: Seq<PageLine<Meta>>, r: PageRow, n: nat)
    requires
        lines_ok(lines),
        position_ok(lines, r),
        r.wrap_row_index + n < rows_of(lines, r.deque_index as int),
    ensures
        advance(lines, r, n) == Some(PageRow { deque_index: r.deque_index, wrap_row_index: (r.wrap_row_index + n) as usize }),
    decreases n,
{
    if n > 0 {
        let r2 = PageRow { deque_index: r.deque_index, wrap_row_index: (r.wrap_row_index + 1) as usize };
        assert(next_row(lines, r) == Some(r2));
        lemma_advance_within(lines, r2, (n - 1) as nat);
    }
}

/// Advancing past the rest of a line lands on the first row of the next one.
proof fn lemma_advance_past<Meta>(lines: Seq<PageLine<Meta>>, r: PageRow)
    requires
        lines_ok(lines),
        position_ok(lines, r),
        r.deque_index + 1 < lines.len(),
    ensures
        advance(lines, r, (rows_of(lines, r.deque_index as int) - r.wrap_row_index) as nat) == Some(
            PageRow { deque_index: (r.deque_index + 1) as usize, wrap_row_index: 0 },
        ),
{
    let n = (rows_of(lines, r.deque_index as int) - r.wrap_row_index - 1) as nat;
    lemma_advance_within(lines, r, n);
    let last = PageRow { deque_index: r.deque_index, wrap_row_index: (r.wrap_row_index + n) as usize };
    lemma_advance_add(lines, r, n, 1);
    assert(next_row(lines, last) == Some(PageRow { deque_index: (r.deque_index + 1) as usize, wrap_row_index: 0 }));
    assert(advance(lines, PageRow { deque_index: (r.deque_index + 1) as usize, wrap_row_index: 0 }, 0) == Some(
        PageRow { deque_index: (r.deque_index + 1) as usize, wrap_row_index: 0 },
    ));
    assert(n + 1 == (rows_of(lines, r.deque_index as int) - r.wrap_row_index) as nat);
}

/// The wrap rows of line `i` that `FilledPage::line_slices` and
/// `FilledPage::row_spans` give between the page rows `first` and `last`.
pub open spec fn slice_rows<Meta>(lines: Seq<PageLine<Meta>>, first: PageRow, last: PageRow, i: int) -> (int, int) {
    if i == first.deque_index {
        if i == last.deque_index {
            (first.wrap_row_index as int, last.wrap_row_index as int)
        } else {
            (first.wrap_row_index as int, rows_of(lines, i) - 1)
        }
    } else if i == last.deque_index {
        (0, last.wrap_row_index as int)
    } else {
        (0, rows_of(lines, i) - 1)
    }
}

/// Advancing never goes back.
proof fn lemma_advance_order<Meta>(lines: Seq<PageLine<Meta>>, r: PageRow, n: nat)
    requires
        lines_ok(lines),
        position_ok(lines, r),
        advance(lines, r, n) is Some,
    ensures
        ordered(r, advance(lines, r, n)->Some_0),
        position_ok(lines, advance(lines, r, n)->Some_0),
    decreases n,
{
    if n > 0 {
        let r2 = next_row(lines, r)->Some_0;
        if r.wrap_row_index + 1 >= rows_of(lines, r.deque_index as int) {
            assert(lines[r.deque_index + 1].wf());
        }
        lemma_advance_order(lines, r2, (n - 1) as nat);
    }
}

/// The page over a queue of lines: which of them it shows, from which wrap
/// row of the first to which wrap row of the last, and how many rows it can
/// show at most.
pub struct FilledPage<Meta> {
    deque: VecDeque<PageLine<Meta>>,
    /// How many lines the queue keeps: one more than the rows of the page,
    /// so that the line taken in at one end never pushes out one shown.
    line_capacity: usize,
    row_capacity: usize,
    start_row: PageRow,
    end_row: PageRow,
}

impl<Meta> FilledPage<Meta> {
    pub closed spec fn spec_lines(&self) -> Seq<PageLine<Meta>> {
        self.deque@
    }

    pub closed spec fn spec_start(&self) -> PageRow {
        self.start_row
    }

    pub closed spec fn spec_end(&self) -> PageRow {
        self.end_row
    }

    pub closed spec fn spec_row_capacity(&self) -> usize {
        self.row_capacity
    }

    pub closed spec fn spec_line_capacity(&self) -> usize {
        self.line_capacity
    }

    /// The number of rows the page shows.
    pub open spec fn spec_row_len(&self) -> int {
        shown_rows(self.spec_lines(), self.spec_start(), self.spec_end())
    }

    /// The queue holds from one line up to its capacity, one more than the
    /// rows of the page; the first row comes no later than the last, both are
    /// rows of the queue, and the page shows no more rows than it can.
    pub open spec fn wf(&self) -> bool {
        let lines = self.spec_lines();
        &&& 1 <= self.spec_row_capacity()
        &&& self.spec_line_capacity() == self.spec_row_capacity() + 1
        &&& 1 <= lines.len() <= self.spec_line_capacity()
        &&& lines_ok(lines)
        &&& position_ok(lines, self.spec_start())
        &&& position_ok(lines, self.spec_end())
        &&& ordered(self.spec_start(), self.spec_end())
        &&& self.spec_row_len() <= self.spec_row_capacity()
    }

    /// The number of rows the page shows.
    pub fn row_len(&self) -> (r: usize)
        requires
            self.wf(),
        ensures
            r == self.spec_row_len(),
    {
        let ghost lines = self.deque@;
        let a = self.start_row.deque_index;
        let e = self.end_row.deque_index;
        proof {
            lemma_rows_one(lines, e as int);
            lemma_rows_one(lines, a as int);
        }
        if a == e {
            return self.end_row.wrap_row_index - self.start_row.wrap_row_index + 1;
        }
        let mut acc: usize = 0;
        let mut i: usize = a;
        while i < e
            invariant
                self.wf(),
                lines == self.deque@,
                a == self.start_row.deque_index,
                e == self.end_row.deque_index,
                a < e,
                a <= i <= e,
                i == a ==> acc == 0,
                i > a ==> acc + self.start_row.wrap_row_index == line_rows_between(lines, a as int, i as int),
            decreases e - i,
        {
            let n = self.deque[i].row_len();
            proof {
                lemma_partial_rows(lines, self.start_row, self.end_row, i as int);
                lemma_rows_one(lines, i as int);
                lemma_rows_split(lines, a as int, i as int, i + 1);
            }
            if i == a {
                acc = n - self.start_row.wrap_row_index;
            } else {
                acc = acc + n;
            }
            i = i + 1;
        }
        proof {
            lemma_partial_rows(lines, self.start_row, self.end_row, e - 1);
        }
        acc + self.end_row.wrap_row_index + 1
    }

    /// The row of the queue that is row `row_idx` of the page.
    fn row_index_to_row(&self, row_idx: usize) -> (r: PageRow)
        requires
            self.wf(),
            row_idx < self.spec_row_len(),
        ensures
            advance(self.spec_lines(), self.spec_start(), row_idx as nat) == Some(r),
            ordered(self.spec_start(), r),
            ordered(r, self.spec_end()),
            position_ok(self.spec_lines(), r),
    {
        let ghost lines = self.deque@;
        let a = self.start_row.deque_index;
        let e = self.end_row.deque_index;
        let mut current: usize = 0;
        let mut deque_idx = a;
        let mut wrap_idx = self.start_row.wrap_row_index;
        proof {
            lemma_rows_one(lines, a as int);
            lemma_rows_one(lines, e as int);
        }
        loop
            invariant
                self.wf(),
                lines == self.deque@,
                a == self.start_row.deque_index,
                e == self.end_row.deque_index,
                a <= deque_idx <= e,
                deque_idx == a ==> wrap_idx == self.start_row.wrap_row_index && current == 0,
                deque_idx > a ==> wrap_idx == 0 && current + self.start_row.wrap_row_index == line_rows_between(
                    lines,
                    a as int,
                    deque_idx as int,
                ),
                current <= row_idx,
                row_idx < self.spec_row_len(),
                advance(lines, self.start_row, current as nat) == Some(
                    PageRow { deque_index: deque_idx, wrap_row_index: wrap_idx },
                ),
            decreases e - deque_idx,
        {
            let line = &self.deque[deque_idx];
            proof {
                assert(lines[deque_idx as int].wf());
                lemma_rows_one(lines, deque_idx as int);
                if deque_idx > a {
                    lemma_rows_split(lines, a as int, deque_idx as int, e + 1);
                    lemma_rows_split(lines, deque_idx as int, deque_idx + 1, e + 1);
                    if deque_idx < e {
                        lemma_rows_at_least(lines, deque_idx + 1, e as int);
                    }
                }
                if deque_idx < e {
                    lemma_partial_rows(lines, self.start_row, self.end_row, deque_idx as int);
                }
            }
            let available_wraps = if deque_idx == a {
                if deque_idx == e {
                    self.end_row.wrap_row_index - wrap_idx + 1
                } else {
                    line.row_len() - wrap_idx
                }
            } else if deque_idx == e {
                self.end_row.wrap_row_index + 1
            } else {
                line.row_len()
            };
            if row_idx - current < available_wraps {
                let offset = row_idx - current;
                proof {
                    let here = PageRow { deque_index: deque_idx, wrap_row_index: wrap_idx };
                    lemma_advance_within(lines, here, offset as nat);
                    lemma_advance_add(lines, self.start_row, current as nat, offset as nat);
                }
                return PageRow { deque_index: deque_idx, wrap_row_index: wrap_idx + offset };
            }
            proof {
                let here = PageRow { deque_index: deque_idx, wrap_row_index: wrap_idx };
                if deque_idx == e {
                    assert(row_idx < shown_rows(lines, self.start_row, self.end_row));
                    assert(current + available_wraps == shown_rows(lines, self.start_row, self.end_row));
                }
                assert(deque_idx < e);
                lemma_advance_past(lines, here);
                lemma_advance_add(lines, self.start_row, current as nat, available_wraps as nat);
                lemma_rows_split(lines, a as int, deque_idx as int, deque_idx + 1);
            }
            current = current + available_wraps;
            deque_idx = deque_idx + 1;
            wrap_idx = 0;
        }
    }

    /// The text of page rows `first_row` to `last_row`, both included, a span
    /// per line: each line cut to the rows within that range.
    pub fn line_slices(&self, first_row: usize, last_row: usize) -> (r: Vec<RowSpan>)
        requires
            self.wf(),
            first_row <= last_row,
            last_row < self.spec_row_len(),
        ensures
            ({
                let lines = self.spec_lines();
                let first = advance(lines, self.spec_start(), first_row as nat)->Some_0;
                let last = advance(lines, self.spec_start(), last_row as nat)->Some_0;
                &&& r@.len() == last.deque_index - first.deque_index + 1
                &&& forall|k: int|
                    0 <= k < r@.len() ==> {
                        let i = first.deque_index + k;
                        let (a, b) = slice_rows(lines, first, last, i);
                        is_span(#[trigger] r@[k], lines[i], a, b)
                    }
            }),
    {
        let first = self.row_index_to_row(first_row);
        let last = self.row_index_to_row(last_row);
        proof {
            let lines = self.deque@;
            lemma_advance_add(lines, self.start_row, first_row as nat, (last_row - first_row) as nat);
            lemma_advance_order(lines, first, (last_row - first_row) as nat);
        }
        let mut spans: Vec<RowSpan> = Vec::new();
        let mut i = first.deque_index;
        while i <= last.deque_index
            invariant
                self.wf(),
                position_ok(self.spec_lines(), first),
                position_ok(self.spec_lines(), last),
                ordered(first, last),
                first.deque_index <= i <= last.deque_index + 1,
                spans@.len() == i - first.deque_index,
                forall|k: int|
                    0 <= k < spans@.len() ==> {
                        let j = first.deque_index + k;
                        let (a, b) = slice_rows(self.spec_lines(), first, last, j);
                        is_span(#[trigger] spans@[k], self.spec_lines()[j], a, b)
                    },
            decreases last.deque_index + 1 - i,
        {
            let line = &self.deque[i];
            proof {
                assert(self.spec_lines()[i as int].wf());
            }
            let end = line.row_len() - 1;
            let span = if i == first.deque_index {
                if i == last.deque_index {
                    line.slice(first.wrap_row_index, last.wrap_row_index)
                } else {
                    line.slice(first.wrap_row_index, end)
                }
            } else if i == last.deque_index {
                line.slice(0, last.wrap_row_index)
            } else {
                line.slice(0, end)
            };
            spans.push(span);
            i = i + 1;
        }
        spans
    }

    /// Whether the queue has a row after the last row of the page.
    pub fn can_move_down_one_row(&self) -> (r: bool)
        requires
            self.wf(),
        ensures
            r == (next_row(self.spec_lines(), self.spec_end()) is Some),
    {
        let line = &self.deque[self.end_row.deque_index];
        self.end_row.wrap_row_index < line.row_len() - 1 || self.end_row.deque_index < self.deque.len() - 1
    }

    /// Whether the queue has a row before the first row of the page.
    pub fn can_move_up_one_row(&self) -> (r: bool)
        requires
            self.wf(),
        ensures
            r == (prev_row(self.spec_lines(), self.spec_start()) is Some),
    {
        0 < self.start_row.wrap_row_index || 0 < self.start_row.deque_index
    }

    /// Move the page one row down without taking in a new line, which works
    /// while the last line has wrap rows below the page or the queue has a
    /// line below it. The first row follows when the page is full.
    pub fn move_down_one_row(&mut self) -> (r: bool)
        requires
            old(self).wf(),
        ensures
            final(self).wf(),
            final(self).spec_lines() == old(self).spec_lines(),
            final(self).spec_row_capacity() == old(self).spec_row_capacity(),
            final(self).spec_line_capacity() == old(self).spec_line_capacity(),
            r == (next_row(old(self).spec_lines(), old(self).spec_end()) is Some),
            !r ==> final(self).spec_start() == old(self).spec_start() && final(self).spec_end() == old(
                self,
            ).spec_end(),
            r ==> moved_down(
                old(self).spec_lines(),
                old(self).spec_start(),
                old(self).spec_end(),
                old(self).spec_row_len() == old(self).spec_row_capacity(),
                final(self).spec_start(),
                final(self).spec_end(),
            ),
            r ==> final(self).spec_row_len() == if old(self).spec_row_len() == old(
                self,
            ).spec_row_capacity() {
                old(self).spec_row_len()
            } else {
                old(self).spec_row_len() + 1
            },
    {
        let ghost lines = self.deque@;
        let ghost s0 = self.start_row;
        let ghost e0 = self.end_row;
        let row_len = self.row_len();
        if !move_down_row(&self.deque, &mut self.end_row) {
            return false;
        }
        proof {
            lemma_next_end(lines, s0, e0);
        }
        if row_len == self.row_capacity {
            proof {
                lemma_next_start(lines, s0, self.end_row);
            }
            move_down_row(&self.deque, &mut self.start_row);
        }
        true
    }

    /// Move the page one row up without taking in a new line, which works
    /// while the first line has wrap rows above the page or the queue has a
    /// line above it. The last row follows when the page is full.
    pub fn move_up_one_row(&mut self) -> (r: bool)
        requires
            old(self).wf(),
        ensures
            final(self).wf(),
            final(self).spec_lines() == old(self).spec_lines(),
            final(self).spec_row_capacity() == old(self).spec_row_capacity(),
            final(self).spec_line_capacity() == old(self).spec_line_capacity(),
            r == (prev_row(old(self).spec_lines(), old(self).spec_start()) is Some),
            !r ==> final(self).spec_start() == old(self).spec_start() && final(self).spec_end() == old(
                self,
            ).spec_end(),
            r ==> moved_up(
                old(self).spec_lines(),
                old(self).spec_start(),
                old(self).spec_end(),
                old(self).spec_row_len() == old(self).spec_row_capacity(),
                final(self).spec_start(),
                final(self).spec_end(),
            ),
            r ==> final(self).spec_row_len() == if old(self).spec_row_len() == old(
                self,
            ).spec_row_capacity() {
                old(self).spec_row_len()
            } else {
                old(self).spec_row_len() + 1
            },
    {
        let ghost lines = self.deque@;
        let ghost s0 = self.start_row;
        let ghost e0 = self.end_row;
        let row_len = self.row_len();
        if !move_up_row(&self.deque, &mut self.start_row) {
            return false;
        }
        proof {
            lemma_prev_start(lines, s0, e0);
        }
        if row_len == self.row_capacity {
            proof {
                lemma_prev_end(lines, self.start_row, e0);
            }
            move_up_row(&self.deque, &mut self.end_row);
        }
        true
    }

    /// Take in `line` below the queue. When the queue is full its first
    /// line leaves, which the page does not show.
    fn push_back(&mut self, line: PageLine<Meta>)
        requires
            old(self).wf(),
            line.wf(),
            old(self).spec_end().deque_index == old(self).spec_lines().len() - 1,
        ensures
            final(self).wf(),
            final(self).spec_row_capacity() == old(self).spec_row_capacity(),
            final(self).spec_line_capacity() == old(self).spec_line_capacity(),
            final(self).spec_row_len() == old(self).spec_row_len(),
            ({
                let full = old(self).spec_lines().len() == old(self).spec_line_capacity();
                let d: int = if full { -1 } else { 0 };
                &&& final(self).spec_lines() == (if full {
                    old(self).spec_lines().drop_first()
                } else {
                    old(self).spec_lines()
                }).push(line)
                &&& final(self).spec_start() == shifted(old(self).spec_start(), d)
                &&& final(self).spec_end() == shifted(old(self).spec_end(), d)
            }),
    {
        let ghost l1 = self.deque@;
        let ghost a = self.start_row.deque_index as int;
        let ghost e = self.end_row.deque_index as int;
        proof {
            lemma_shown_at_least(l1, self.start_row, self.end_row);
        }
        if self.deque.len() == self.line_capacity {
            self.deque.pop_front();
            self.start_row.deque_index = self.start_row.deque_index - 1;
            self.end_row.deque_index = self.end_row.deque_index - 1;
            self.deque.push_back(line);
            proof {
                let l2 = self.deque@;
                assert(l2 =~= l1.drop_first().push(line));
                lemma_rows_shift(l1, l2, a, e + 1, -1);
                assert(l2[e - 1] == l1[e]);
                assert(lines_ok(l2)) by {
                    assert forall|i: int| 0 <= i < l2.len() implies (#[trigger] l2[i]).wf() by {
                        if i < l2.len() - 1 {
                            assert(l2[i] == l1[i + 1]);
                        }
                    }
                }
            }
        } else {
            self.deque.push_back(line);
            proof {
                let l2 = self.deque@;
                lemma_rows_shift(l1, l2, a, e + 1, 0);
                assert(l2[e] == l1[e]);
                assert(lines_ok(l2)) by {
                    assert forall|i: int| 0 <= i < l2.len() implies (#[trigger] l2[i]).wf() by {
                        if i < l2.len() - 1 {
                            assert(l2[i] == l1[i]);
                        }
                    }
                }
            }
        }
    }

    /// Take in `line` above the queue. When the queue is full its last line
    /// leaves, which the page does not show.
    fn push_front(&mut self, line: PageLine<Meta>)
        requires
            old(self).wf(),
            line.wf(),
            old(self).spec_start().deque_index == 0,
        ensures
            final(self).wf(),
            final(self).spec_row_capacity() == old(self).spec_row_capacity(),
            final(self).spec_line_capacity() == old(self).spec_line_capacity(),
            final(self).spec_row_len() == old(self).spec_row_len(),
            ({
                let full = old(self).spec_lines().len() == old(self).spec_line_capacity();
                &&& final(self).spec_lines() == seq![line] + (if full {
                    old(self).spec_lines().drop_last()
                } else {
                    old(self).spec_lines()
                })
                &&& final(self).spec_start() == shifted(old(self).spec_start(), 1)
                &&& final(self).spec_end() == shifted(old(self).spec_end(), 1)
            }),
    {
        let ghost l1 = self.deque@;
        let ghost e = self.end_row.deque_index as int;
        proof {
            lemma_shown_at_least(l1, self.start_row, self.end_row);
        }
        let full = self.deque.len() == self.line_capacity;
        if full {
            self.deque.pop_back();
        }
        let ghost kept = self.deque@;
        self.start_row.deque_index = self.start_row.deque_index + 1;
        self.end_row.deque_index = self.end_row.deque_index + 1;
        self.deque.push_front(line);
        proof {
            let l2 = self.deque@;
            assert(kept =~= if full {
                l1.drop_last()
            } else {
                l1
            });
            assert forall|i: int| 0 <= i < e + 1 implies l2[i + 1] == l1[i] by {
                assert(l2[i + 1] == kept[i]);
            }
            lemma_rows_shift(l1, l2, 0, e + 1, 1);
            assert(l2[e + 1] == l1[e]);
            assert(lines_ok(l2)) by {
                assert forall|i: int| 0 <= i < l2.len() implies (#[trigger] l2[i]).wf() by {
                    if i > 0 {
                        assert(l2[i] == kept[i - 1]);
                    }
                }
            }
        }
    }

    /// Move the page one row down onto `line`, taken in below the queue; the
    /// last row of the page must be in the last line of the queue.
    pub fn move_down_one_line(&mut self, line: PageLine<Meta>)
        requires
            old(self).wf(),
            line.wf(),
            old(self).spec_end().deque_index == old(self).spec_lines().len() - 1,
        ensures
            final(self).wf(),
            final(self).spec_row_capacity() == old(self).spec_row_capacity(),
            final(self).spec_line_capacity() == old(self).spec_line_capacity(),
            ({
                let full = old(self).spec_lines().len() == old(self).spec_line_capacity();
                let d: int = if full { -1 } else { 0 };
                let lines = (if full {
                    old(self).spec_lines().drop_first()
                } else {
                    old(self).spec_lines()
                }).push(line);
                &&& final(self).spec_lines() == lines
                &&& moved_down(
                    lines,
                    shifted(old(self).spec_start(), d),
                    shifted(old(self).spec_end(), d),
                    old(self).spec_row_len() == old(self).spec_row_capacity(),
                    final(self).spec_start(),
                    final(self).spec_end(),
                )
            }),
    {
        self.push_back(line);
        self.move_down_one_row();
    }

    /// Move the page one row up onto `line`, taken in above the queue; the
    /// first row of the page must be in the first line of the queue.
    pub fn move_up_one_line(&mut self, line: PageLine<Meta>)
        requires
            old(self).wf(),
            line.wf(),
            old(self).spec_start().deque_index == 0,
        ensures
            final(self).wf(),
            final(self).spec_row_capacity() == old(self).spec_row_capacity(),
            final(self).spec_line_capacity() == old(self).spec_line_capacity(),
            ({
                let full = old(self).spec_lines().len() == old(self).spec_line_capacity();
                let lines = seq![line] + (if full {
                    old(self).spec_lines().drop_last()
                } else {
                    old(self).spec_lines()
                });
                &&& final(self).spec_lines() == lines
                &&& moved_up(
                    lines,
                    shifted(old(self).spec_start(), 1),
                    shifted(old(self).spec_end(), 1),
                    old(self).spec_row_len() == old(self).spec_row_capacity(),
                    final(self).spec_start(),
                    final(self).spec_end(),
                )
            }),
    {
        self.push_front(line);
        self.move_up_one_row();
    }

    /// The row spans of the page: each line it shows, from its first row to
    /// its last, cut to the rows within the page (the first line from the
    /// page's first row on, the last up to the page's last row).
    pub fn row_spans(&self) -> (r: Vec<RowSpan>)
        requires
            self.wf(),
        ensures
            r@.len() == self.spec_end().deque_index - self.spec_start().deque_index + 1,
            forall|k: int|
                0 <= k < r@.len() ==> {
                    let i = self.spec_start().deque_index + k;
                    let (first, last) = slice_rows(self.spec_lines(), self.spec_start(), self.spec_end(), i);
                    is_span(#[trigger] r@[k], self.spec_lines()[i], first, last)
                },
    {
        let mut spans: Vec<RowSpan> = Vec::new();
        let a = self.start_row.deque_index;
        let e = self.end_row.deque_index;
        let mut i: usize = a;
        while i <= e
            invariant
                self.wf(),
                a == self.spec_start().deque_index,
                e == self.spec_end().deque_index,
                a <= i <= e + 1,
                spans@.len() == i - a,
                forall|k: int|
                    0 <= k < spans@.len() ==> {
                        let j = a + k;
                        let (first, last) = slice_rows(self.spec_lines(), self.spec_start(), self.spec_end(), j);
                        is_span(#[trigger] spans@[k], self.spec_lines()[j], first, last)
                    },
            decreases e + 1 - i,
        {
            let line = &self.deque[i];
            proof {
                assert(self.spec_lines()[i as int].wf());
            }
            let last = line.row_len() - 1;
            let span = if i == a {
                if i == e {
                    line.slice(self.start_row.wrap_row_index, self.end_row.wrap_row_index)
                } else {
                    line.slice(self.start_row.wrap_row_index, last)
                }
            } else if i == e {
                line.slice(0, self.end_row.wrap_row_index)
            } else {
                line.slice(0, last)
            };
            spans.push(span);
            i = i + 1;
        }
        spans
    }

    /// The first line, from the one of the first row of the page to the end
    /// of the queue, in which `query` finds a match.
    pub fn find_first_match_line(&self, query: &Query) -> (r: Option<&PageLine<Meta>>)
        requires
            self.wf(),
        ensures
            ({
                let found = first_match_from(self.spec_lines(), query@, self.spec_start().deque_index as int);
                &&& (r is Some) == (found is Some)
                &&& r matches Some(l) ==> *l == self.spec_lines()[found->Some_0]
            }),
    {
        let mut i: usize = self.start_row.deque_index;
        while i < self.deque.len()
            invariant
                self.wf(),
                self.spec_start().deque_index <= i <= self.spec_lines().len(),
                first_match_from(self.spec_lines(), query@, self.spec_start().deque_index as int)
                    == first_match_from(self.spec_lines(), query@, i as int),
            decreases self.spec_lines().len() - i,
        {
            if self.deque[i].line().has_match(query) {
                return Some(&self.deque[i]);
            }
            i = i + 1;
        }
        None
    }

    /// The last line, from the one of the last row of the page back to the
    /// start of the queue, in which `query` finds a match.
    pub fn find_last_match_line(&self, query: &Query) -> (r: Option<&PageLine<Meta>>)
        requires
            self.wf(),
        ensures
            ({
                let found = last_match_upto(self.spec_lines(), query@, self.spec_end().deque_index as int);
                &&& (r is Some) == (found is Some)
                &&& r matches Some(l) ==> *l == self.spec_lines()[found->Some_0]
            }),
    {
        let mut i: usize = self.end_row.deque_index + 1;
        while i > 0
            invariant
                self.wf(),
                i <= self.spec_end().deque_index + 1,
                last_match_upto(self.spec_lines(), query@, self.spec_end().deque_index as int)
                    == last_match_upto(self.spec_lines(), query@, i - 1),
            decreases i,
        {
            if self.deque[i - 1].line().has_match(query) {
                return Some(&self.deque[i - 1]);
            }
            i = i - 1;
        }
        None
    }

    /// A builder for a new page of `row_capacity` rows.
    pub fn builder(row_capacity: usize) -> (r: NewPageBuilder<Meta>)
        requires
            0 < row_capacity < usize::MAX,
        ensures
            r.wf(),
            r.spec_lines().len() == 0,
            r.spec_row_capacity() == row_capacity,
    {
        NewPageBuilder::new(row_capacity)
    }

    /// A writer that fills this page again from the top.
    pub fn forward_page_writer(self) -> (r: ForwardPageWriter<Meta>)
        requires
            self.wf(),
        ensures
            r.wf(),
            r.spec_lines().len() == 0,
            r.spec_row_capacity() == self.spec_row_capacity(),
    {
        ForwardPageWriter::for_page(self)
    }

    /// A writer that fills this page again from the bottom.
    pub fn backward_page_writer(self) -> (r: BackwardPageWriter<Meta>)
        requires
            self.wf(),
        ensures
            r.wf(),
            r.spec_lines().len() == 0,
            r.spec_row_capacity() == self.spec_row_capacity(),
    {
        BackwardPageWriter::for_page(self)
    }

    /// The line of the first row.
    pub fn start_line(&self) -> (r: &PageLine<Meta>)
        requires
            self.wf(),
        ensures
            *r == self.spec_lines()[self.spec_start().deque_index as int],
    {
        &self.deque[self.start_row.deque_index]
    }

    /// The line of the last row.
    pub fn end_line(&self) -> (r: &PageLine<Meta>)
        requires
            self.wf(),
        ensures
            *r == self.spec_lines()[self.spec_end().deque_index as int],
    {
        &self.deque[self.end_row.deque_index]
    }

    /// The first line shown, from the first row of the page on.
    pub fn start_row_span(&self) -> (r: RowSpan)
        requires
            self.wf(),
        ensures
            ({
                let line = self.spec_lines()[self.spec_start().deque_index as int];
                is_span(r, line, self.spec_start().wrap_row_index as int, line.spec_row_len() - 1)
            }),
    {
        let line = &self.deque[self.start_row.deque_index];
        let last = line.row_len() - 1;
        line.slice(self.start_row.wrap_row_index, last)
    }

    /// The last line shown, up to the last row of the page.
    pub fn end_row_span(&self) -> (r: RowSpan)
        requires
            self.wf(),
        ensures
            is_span(r, self.spec_lines()[self.spec_end().deque_index as int], 0, self.spec_end().wrap_row_index as int),
    {
        let line = &self.deque[self.end_row.deque_index];
        line.slice(0, self.end_row.wrap_row_index)
    }
}

/// The first and last rows after moving the page one row down from `start`
/// to `end`: the last row goes to the next one, and the first one too when
/// the page is `full`.
pub open spec fn moved_down<Meta>(
    lines: Seq<PageLine<Meta>>,
    start: PageRow,
    end: PageRow,
    full: bool,
    new_start: PageRow,
    new_end: PageRow,
) -> bool {
    &&& next_row(lines, end) == Some(new_end)
    &&& new_start == if full {
        next_row(lines, start)->Some_0
    } else {
        start
    }
}

/// The first and last rows after moving the page one row up from `start` to
/// `end`: the first row goes to the one before, and the last one too when
/// the page is `full`.
pub open spec fn moved_up<Meta>(
    lines: Seq<PageLine<Meta>>,
    start: PageRow,
    end: PageRow,
    full: bool,
    new_start: PageRow,
    new_end: PageRow,
) -> bool {
    &&& prev_row(lines, start) == Some(new_start)
    &&& new_end == if full {
        prev_row(lines, end)->Some_0
    } else {
        end
    }
}

/// Move `row` to the next row of the queue, if it has one.
fn move_down_row<Meta>(deque: &VecDeque<PageLine<Meta>>, row: &mut PageRow) -> (r: bool)
    requires
        lines_ok(deque@),
        position_ok(deque@, *old(row)),
    ensures
        r == (next_row(deque@, *old(row)) is Some),
        r ==> next_row(deque@, *old(row)) == Some(*final(row)),
        !r ==> *final(row) == *old(row),
{
    let line = &deque[row.deque_index];
    proof {
        assert(deque@[row.deque_index as int].wf());
    }
    if row.wrap_row_index < line.row_len() - 1 {
        row.wrap_row_index = row.wrap_row_index + 1;
        true
    } else if row.deque_index + 1 < deque.len() {
        *row = PageRow { deque_index: row.deque_index + 1, wrap_row_index: 0 };
        true
    } else {
        false
    }
}

/// Move `row` to the row before it in the queue, if it has one.
fn move_up_row<Meta>(deque: &VecDeque<PageLine<Meta>>, row: &mut PageRow) -> (r: bool)
    requires
        lines_ok(deque@),
        position_ok(deque@, *old(row)),
    ensures
        r == (prev_row(deque@, *old(row)) is Some),
        r ==> prev_row(deque@, *old(row)) == Some(*final(row)),
        !r ==> *final(row) == *old(row),
{
    if 0 < row.wrap_row_index {
        row.wrap_row_index = row.wrap_row_index - 1;
        true
    } else if 0 < row.deque_index {
        let i = row.deque_index - 1;
        proof {
            assert(deque@[i as int].wf());
        }
        *row = PageRow { deque_index: i, wrap_row_index: deque[i].row_len() - 1 };
        true
    } else {
        false
    }
}

/// `r` moved by `d` places in the queue.
pub open spec fn shifted(r: PageRow, d: int) -> PageRow {
    PageRow { deque_index: (r.deque_index + d) as usize, wrap_row_index: r.wrap_row_index }
}

/// Whether `query` finds a match in the plain text of `line`.
pub open spec fn line_matches<Meta>(line: PageLine<Meta>, query: Seq<char>) -> bool {
    regex_find_all(query, line.spec_line().spec_plain()).len() > 0
}

/// The first line from `i` on in which `query` finds a match.
pub open spec fn first_match_from<Meta>(lines: Seq<PageLine<Meta>>, query: Seq<char>, i: int) -> Option<int>
    decreases lines.len() - i,
{
    if i < 0 || i >= lines.len() {
        None
    } else if line_matches(lines[i], query) {
        Some(i)
    } else {
        first_match_from(lines, query, i + 1)
    }
}

/// The last line up to line `i` in which `query` finds a match.
pub open spec fn last_match_upto<Meta>(lines: Seq<PageLine<Meta>>, query: Seq<char>, i: int) -> Option<int>
    decreases i + 1,
{
    if i < 0 || i >= lines.len() {
        None
    } else if line_matches(lines[i], query) {
        Some(i)
    } else {
        last_match_upto(lines, query, i - 1)
    }
}

/// A page with no line at all.
#[derive(Debug)]
pub struct EmptyPage<Meta> {
    deque: VecDeque<PageLine<Meta>>,
}

impl<Meta> EmptyPage<Meta> {
    pub closed spec fn spec_lines(&self) -> Seq<PageLine<Meta>> {
        self.deque@
    }

    /// An empty page has no line.
    #[verifier::type_invariant]
    closed spec fn is_empty(&self) -> bool {
        self.deque@.len() == 0
    }

    /// A page with no line.
    pub fn new() -> (r: EmptyPage<Meta>)
        ensures
            r.spec_lines().len() == 0,
    {
        EmptyPage { deque: VecDeque::new() }
    }

    /// No span: the page has no line.
    pub fn row_spans(&self) -> (r: Vec<RowSpan>)
        ensures
            r@.len() == 0,
            self.spec_lines().len() == 0,
    {
        proof {
            use_type_invariant(self);
        }
        Vec::new()
    }
}

/// A new page, filled with lines from the top until it has as many rows as
/// it can show.
pub struct NewPageBuilder<Meta> {
    deque: VecDeque<PageLine<Meta>>,
    end_row: Option<PageRow>,
    row_capacity: usize,
    read_rows: usize,
}

/// What a page filled from the top keeps: every line has its rows, they add
/// up to the rows read; once they reach the capacity of the page, the last
/// row of the page is the one that fills it, in the last line.
pub open spec fn filled_down<Meta>(
    lines: Seq<PageLine<Meta>>,
    read_rows: int,
    row_capacity: int,
    end_row: Option<PageRow>,
) -> bool {
    &&& lines_ok(lines)
    &&& read_rows == line_rows_between(lines, 0, lines.len() as int)
    &&& lines.len() <= row_capacity
    &&& match end_row {
        None => read_rows < row_capacity,
        Some(r) => {
            &&& lines.len() >= 1
            &&& r.deque_index == lines.len() - 1
            &&& r.wrap_row_index == rows_of(lines, lines.len() - 1) - 1 - (read_rows - row_capacity)
            &&& read_rows - rows_of(lines, lines.len() - 1) < row_capacity <= read_rows
        },
    }
}

/// What a page filled from the bottom keeps: every line has its rows, they
/// add up to the rows read; once they reach the capacity of the page, the
/// first row of the page is the one that fills it, in the first line.
pub open spec fn filled_up<Meta>(
    lines: Seq<PageLine<Meta>>,
    read_rows: int,
    row_capacity: int,
    start_row: Option<PageRow>,
) -> bool {
    &&& lines_ok(lines)
    &&& read_rows == line_rows_between(lines, 0, lines.len() as int)
    &&& lines.len() <= row_capacity
    &&& match start_row {
        None => read_rows < row_capacity,
        Some(r) => {
            &&& lines.len() >= 1
            &&& r.deque_index == 0
            &&& r.wrap_row_index == read_rows - row_capacity
            &&& read_rows - rows_of(lines, 0) < row_capacity <= read_rows
        },
    }
}

/// Rows of lines `0..n` of `lines` pushed with `line` at the end.
proof fn lemma_rows_push<Meta>(lines: Seq<PageLine<Meta>>, line: PageLine<Meta>)
    ensures
        line_rows_between(lines.push(line), 0, lines.len() + 1 as int) == line_rows_between(lines, 0, lines.len() as int)
            + line.spec_row_len(),
{
    let l2 = lines.push(line);
    lemma_rows_shift(lines, l2, 0, lines.len() as int, 0);
}

/// Rows of `line` pushed in front of `lines`.
proof fn lemma_rows_push_front<Meta>(lines: Seq<PageLine<Meta>>, line: PageLine<Meta>)
    ensures
        line_rows_between(seq![line] + lines, 0, lines.len() + 1 as int) == line_rows_between(lines, 0, lines.len() as int)
            + line.spec_row_len(),
{
    let l2 = seq![line] + lines;
    assert forall|i: int| 0 <= i < lines.len() implies l2[i + 1] == lines[i] by {}
    lemma_rows_shift(lines, l2, 0, lines.len() as int, 1);
    lemma_rows_split(l2, 0, 1, lines.len() + 1 as int);
    lemma_rows_one(l2, 0);
}

/// Add `line` below `lines`, which hold `read_rows` rows: the last row of the
/// page when it fills the page.
fn push_back_line<Meta>(
    line: PageLine<Meta>,
    deque: &mut VecDeque<PageLine<Meta>>,
    read_rows: &mut usize,
    row_capacity: usize,
) -> (end_row: Option<PageRow>)
    requires
        filled_down(old(deque)@, *old(read_rows) as int, row_capacity as int, None),
        line.wf(),
        *old(read_rows) + line.spec_row_len() <= usize::MAX,
    ensures
        final(deque)@ == old(deque)@.push(line),
        *final(read_rows) == *old(read_rows) + line.spec_row_len(),
        filled_down(final(deque)@, *final(read_rows) as int, row_capacity as int, end_row),
{
    proof {
        lemma_rows_push(deque@, line);
        lemma_rows_at_least(deque@, 0, deque@.len() as int);
    }
    let n = line.row_len();
    *read_rows = *read_rows + n;
    let index = deque.len();
    deque.push_back(line);
    proof {
        assert(deque@[index as int] == line);
        assert(lines_ok(deque@)) by {
            assert forall|i: int| 0 <= i < deque@.len() implies (#[trigger] deque@[i]).wf() by {
                if i < index {
                    assert(deque@[i] == old(deque)@[i]);
                }
            }
        }
    }
    if *read_rows < row_capacity {
        return None;
    }
    Some(PageRow { deque_index: index, wrap_row_index: n - 1 - (*read_rows - row_capacity) })
}

/// The first and last rows of a page filled from the top: the first row of
/// the first line, and the row that filled the page or else the last row of
/// the last line.
fn finalize_start_page_rows<Meta>(deque: &VecDeque<PageLine<Meta>>, end_row: Option<PageRow>) -> (r: (
    PageRow,
    PageRow,
))
    requires
        deque@.len() >= 1,
        lines_ok(deque@),
    ensures
        r.0 == (PageRow { deque_index: 0, wrap_row_index: 0 }),
        r.1 == match end_row {
            Some(e) => e,
            None => PageRow {
                deque_index: (deque@.len() - 1) as usize,
                wrap_row_index: (rows_of(deque@, deque@.len() - 1) - 1) as usize,
            },
        },
{
    let start_row = PageRow { deque_index: 0, wrap_row_index: 0 };
    let end_row = match end_row {
        Some(e) => e,
        None => {
            let i = deque.len() - 1;
            proof {
                assert(deque@[i as int].wf());
            }
            PageRow { deque_index: i, wrap_row_index: deque[i].row_len() - 1 }
        },
    };
    (start_row, end_row)
}

/// A page filled from the top with `lines`, which hold `read_rows` rows, is
/// a well formed page.
proof fn lemma_filled_down_page<Meta>(
    lines: Seq<PageLine<Meta>>,
    read_rows: int,
    row_capacity: int,
    end_row: Option<PageRow>,
    start: PageRow,
    end: PageRow,
)
    requires
        filled_down(lines, read_rows, row_capacity, end_row),
        lines.len() >= 1,
        start == (PageRow { deque_index: 0, wrap_row_index: 0 }),
        end == match end_row {
            Some(e) => e,
            None => PageRow {
                deque_index: (lines.len() - 1) as usize,
                wrap_row_index: (rows_of(lines, lines.len() - 1) - 1) as usize,
            },
        },
    ensures
        position_ok(lines, start),
        position_ok(lines, end),
        ordered(start, end),
        shown_rows(lines, start, end) <= row_capacity,
        end_row is Some ==> shown_rows(lines, start, end) == row_capacity,
{
    assert(lines[0].wf());
    assert(lines[lines.len() - 1].wf());
}

/// A page filled from the bottom with `lines`, which hold `read_rows` rows,
/// is a well formed page.
proof fn lemma_filled_up_page<Meta>(
    lines: Seq<PageLine<Meta>>,
    read_rows: int,
    row_capacity: int,
    start_row: Option<PageRow>,
    start: PageRow,
    end: PageRow,
)
    requires
        filled_up(lines, read_rows, row_capacity, start_row),
        lines.len() >= 1,
        start == match start_row {
            Some(s) => s,
            None => PageRow { deque_index: 0, wrap_row_index: 0 },
        },
        end == (PageRow {
            deque_index: (lines.len() - 1) as usize,
            wrap_row_index: (rows_of(lines, lines.len() - 1) - 1) as usize,
        }),
    ensures
        position_ok(lines, start),
        position_ok(lines, end),
        ordered(start, end),
        shown_rows(lines, start, end) <= row_capacity,
        start_row is Some ==> shown_rows(lines, start, end) == row_capacity,
{
    assert(lines[0].wf());
    assert(lines[lines.len() - 1].wf());
    if lines.len() == 1 {
        lemma_rows_one(lines, 0);
    }
}

impl<Meta> NewPageBuilder<Meta> {
    pub closed spec fn spec_lines(&self) -> Seq<PageLine<Meta>> {
        self.deque@
    }

    pub closed spec fn spec_read_rows(&self) -> usize {
        self.read_rows
    }

    pub closed spec fn spec_row_capacity(&self) -> usize {
        self.row_capacity
    }

    pub closed spec fn spec_end_row(&self) -> Option<PageRow> {
        self.end_row
    }

    /// The lines read so far and what they fill of the page.
    pub open spec fn wf(&self) -> bool {
        &&& 1 <= self.spec_row_capacity() < usize::MAX
        &&& filled_down(
            self.spec_lines(),
            self.spec_read_rows() as int,
            self.spec_row_capacity() as int,
            self.spec_end_row(),
        )
    }

    /// A builder for a page of `row_capacity` rows, with no line yet.
    pub fn new(row_capacity: usize) -> (r: NewPageBuilder<Meta>)
        requires
            0 < row_capacity < usize::MAX,
        ensures
            r.wf(),
            r.spec_lines().len() == 0,
            r.spec_row_capacity() == row_capacity,
    {
        NewPageBuilder { deque: VecDeque::with_capacity(row_capacity + 1), end_row: None, row_capacity, read_rows: 0 }
    }

    /// Add `line` below the others. Returns whether the page still has room
    /// for more rows; it must have had room for this one.
    pub fn push_back(&mut self, line: PageLine<Meta>) -> (r: bool)
        requires
            old(self).wf(),
            line.wf(),
            old(self).spec_read_rows() < old(self).spec_row_capacity(),
            old(self).spec_read_rows() + line.spec_row_len() <= usize::MAX,
        ensures
            final(self).wf(),
            final(self).spec_row_capacity() == old(self).spec_row_capacity(),
            final(self).spec_lines() == old(self).spec_lines().push(line),
            final(self).spec_read_rows() == old(self).spec_read_rows() + line.spec_row_len(),
            r == (final(self).spec_read_rows() < final(self).spec_row_capacity()),
            r == (line_rows_between(final(self).spec_lines(), 0, final(self).spec_lines().len() as int)
                < final(self).spec_row_capacity()),
    {
        match push_back_line(line, &mut self.deque, &mut self.read_rows, self.row_capacity) {
            None => true,
            Some(end_row) => {
                self.end_row = Some(end_row);
                false
            },
        }
    }

    /// The page, from the first row of the first line down to the row that
    /// filled it, or to the end of the last line; none without any line.
    pub fn into_page(self) -> (r: Option<FilledPage<Meta>>)
        requires
            self.wf(),
        ensures
            (r is None) == (self.spec_lines().len() == 0),
            r matches Some(p) ==> {
                &&& p.wf()
                &&& p.spec_lines() == self.spec_lines()
                &&& p.spec_row_capacity() == self.spec_row_capacity()
                &&& p.spec_start() == (PageRow { deque_index: 0, wrap_row_index: 0 })
                &&& p.spec_end().deque_index == self.spec_lines().len() - 1
                &&& p.spec_end().wrap_row_index == rows_of(self.spec_lines(), self.spec_lines().len() - 1)
                    - 1 - if self.spec_read_rows() < self.spec_row_capacity() {
                    0
                } else {
                    self.spec_read_rows() - self.spec_row_capacity()
                }
                &&& p.spec_row_len() == if self.spec_read_rows() < self.spec_row_capacity() {
                    self.spec_read_rows() as int
                } else {
                    self.spec_row_capacity() as int
                }
            },
    {
        if self.deque.len() == 0 {
            return None;
        }
        let (start_row, end_row) = finalize_start_page_rows(&self.deque, self.end_row);
        proof {
            lemma_filled_down_page(
                self.deque@,
                self.read_rows as int,
                self.row_capacity as int,
                self.end_row,
                start_row,
                end_row,
            );
        }
        Some(
            FilledPage {
                deque: self.deque,
                line_capacity: self.row_capacity + 1,
                row_capacity: self.row_capacity,
                start_row,
                end_row,
            },
        )
    }
}

/// A page filled again from the top: its lines are dropped and new ones
/// taken in below, until it has as many rows as it can show.
pub struct ForwardPageWriter<Meta> {
    page: FilledPage<Meta>,
    end_row: Option<PageRow>,
    read_rows: usize,
}

impl<Meta> ForwardPageWriter<Meta> {
    pub closed spec fn spec_lines(&self) -> Seq<PageLine<Meta>> {
        self.page.deque@
    }

    pub closed spec fn spec_read_rows(&self) -> usize {
        self.read_rows
    }

    pub closed spec fn spec_row_capacity(&self) -> usize {
        self.page.row_capacity
    }

    /// The lines read so far and what they fill of the page.
    pub closed spec fn wf(&self) -> bool {
        &&& 1 <= self.page.row_capacity
        &&& self.page.line_capacity == self.page.row_capacity + 1
        &&& filled_down(self.page.deque@, self.read_rows as int, self.page.row_capacity as int, self.end_row)
    }

    /// A writer that fills `page` again, which drops all its lines.
    pub fn for_page(page: FilledPage<Meta>) -> (r: ForwardPageWriter<Meta>)
        requires
            page.wf(),
        ensures
            r.wf(),
            r.spec_lines().len() == 0,
            r.spec_row_capacity() == page.spec_row_capacity(),
    {
        let mut page = page;
        page.deque.clear();
        ForwardPageWriter { page, end_row: None, read_rows: 0 }
    }

    /// Add `line` below the others. Returns whether the page still has room
    /// for more rows; it must have had room for this one.
    pub fn push_back(&mut self, line: PageLine<Meta>) -> (r: bool)
        requires
            old(self).wf(),
            line.wf(),
            old(self).spec_read_rows() < old(self).spec_row_capacity(),
            old(self).spec_read_rows() + line.spec_row_len() <= usize::MAX,
        ensures
            final(self).wf(),
            final(self).spec_row_capacity() == old(self).spec_row_capacity(),
            final(self).spec_lines() == old(self).spec_lines().push(line),
            final(self).spec_read_rows() == old(self).spec_read_rows() + line.spec_row_len(),
            r == (final(self).spec_read_rows() < final(self).spec_row_capacity()),
    {
        match push_back_line(line, &mut self.page.deque, &mut self.read_rows, self.page.row_capacity) {
            None => true,
            Some(end_row) => {
                self.end_row = Some(end_row);
                false
            },
        }
    }

    /// The page, from the first row of the first line down to the row that
    /// filled it, or to the end of the last line. At least one line must have
    /// been added.
    pub fn write_to_page(self) -> (p: FilledPage<Meta>)
        requires
            self.wf(),
            self.spec_lines().len() >= 1,
        ensures
            p.wf(),
            p.spec_lines() == self.spec_lines(),
            p.spec_row_capacity() == self.spec_row_capacity(),
            p.spec_start() == (PageRow { deque_index: 0, wrap_row_index: 0 }),
            p.spec_row_len() == if self.spec_read_rows() < self.spec_row_capacity() {
                self.spec_read_rows() as int
            } else {
                self.spec_row_capacity() as int
            },
    {
        let mut page = self.page;
        let (start_row, end_row) = finalize_start_page_rows(&page.deque, self.end_row);
        proof {
            lemma_filled_down_page(
                page.deque@,
                self.read_rows as int,
                page.row_capacity as int,
                self.end_row,
                start_row,
                end_row,
            );
        }
        page.start_row = start_row;
        page.end_row = end_row;
        page
    }
}

/// A page filled again from the bottom: its lines are dropped and new ones
/// taken in above, until it has as many rows as it can show.
pub struct BackwardPageWriter<Meta> {
    page: FilledPage<Meta>,
    start_row: Option<PageRow>,
    read_rows: usize,
}

impl<Meta> BackwardPageWriter<Meta> {
    pub closed spec fn spec_lines(&self) -> Seq<PageLine<Meta>> {
        self.page.deque@
    }

    pub closed spec fn spec_read_rows(&self) -> usize {
        self.read_rows
    }

    pub closed spec fn spec_row_capacity(&self) -> usize {
        self.page.row_capacity
    }

    /// The lines read so far and what they fill of the page.
    pub closed spec fn wf(&self) -> bool {
        &&& 1 <= self.page.row_capacity
        &&& self.page.line_capacity == self.page.row_capacity + 1
        &&& filled_up(self.page.deque@, self.read_rows as int, self.page.row_capacity as int, self.start_row)
    }

    /// A writer that fills `page` again, which drops all its lines.
    pub fn for_page(page: FilledPage<Meta>) -> (r: BackwardPageWriter<Meta>)
        requires
            page.wf(),
        ensures
            r.wf(),
            r.spec_lines().len() == 0,
            r.spec_row_capacity() == page.spec_row_capacity(),
    {
        let mut page = page;
        page.deque.clear();
        BackwardPageWriter { page, start_row: None, read_rows: 0 }
    }

    /// Add `line` above the others. Returns whether the page still has room
    /// for more rows; it must have had room for this one.
    pub fn push_front(&mut self, line: PageLine<Meta>) -> (r: bool)
        requires
            old(self).wf(),
            line.wf(),
            old(self).spec_read_rows() < old(self).spec_row_capacity(),
            old(self).spec_read_rows() + line.spec_row_len() <= usize::MAX,
        ensures
            final(self).wf(),
            final(self).spec_row_capacity() == old(self).spec_row_capacity(),
            final(self).spec_lines() == seq![line] + old(self).spec_lines(),
            final(self).spec_read_rows() == old(self).spec_read_rows() + line.spec_row_len(),
            r == (final(self).spec_read_rows() < final(self).spec_row_capacity()),
    {
        let ghost l1 = self.page.deque@;
        proof {
            lemma_rows_push_front(l1, line);
            lemma_rows_at_least(l1, 0, l1.len() as int);
        }
        let n = line.row_len();
        self.read_rows = self.read_rows + n;
        self.page.deque.push_front(line);
        proof {
            let l2 = self.page.deque@;
            assert(l2[0] == line);
            assert(lines_ok(l2)) by {
                assert forall|i: int| 0 <= i < l2.len() implies (#[trigger] l2[i]).wf() by {
                    if i > 0 {
                        assert(l2[i] == l1[i - 1]);
                    }
                }
            }
        }
        if self.read_rows < self.page.row_capacity {
            return true;
        }
        self.start_row = Some(PageRow { deque_index: 0, wrap_row_index: self.read_rows - self.page.row_capacity });
        false
    }

    /// The page, from the row that filled it, or from the start of the first
    /// line, down to the end of the last line. At least one line must have
    /// been added.
    pub fn write_to_page(self) -> (p: FilledPage<Meta>)
        requires
            self.wf(),
            self.spec_lines().len() >= 1,
        ensures
            p.wf(),
            p.spec_lines() == self.spec_lines(),
            p.spec_row_capacity() == self.spec_row_capacity(),
            p.spec_end() == (PageRow {
                deque_index: (self.spec_lines().len() - 1) as usize,
                wrap_row_index: (rows_of(self.spec_lines(), self.spec_lines().len() - 1) - 1) as usize,
            }),
            p.spec_row_len() == if self.spec_read_rows() < self.spec_row_capacity() {
                self.spec_read_rows() as int
            } else {
                self.spec_row_capacity() as int
            },
    {
        let mut page = self.page;
        let i = page.deque.len() - 1;
        proof {
            assert(page.deque@[i as int].wf());
        }
        let end_row = PageRow { deque_index: i, wrap_row_index: page.deque[i].row_len() - 1 };
        let start_row = match self.start_row {
            Some(s) => s,
            None => PageRow { deque_index: 0, wrap_row_index: 0 },
        };
        proof {
            lemma_filled_up_page(page.deque@, self.read_rows as int, page.row_capacity as int, self.start_row, start_row, end_row);
        }
        page.start_row = start_row;
        page.end_row = end_row;
        page
    }
}

} // verus!
