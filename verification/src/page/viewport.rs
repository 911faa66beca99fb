//! The content area of the page: which document rows it shows, with scrolls
//! that never go above the fixed header lines.

use std::ops::Range;

use vstd::prelude::*;

use crate::document::Document;
use crate::line::{Line, Row};
use crate::pager::rows::{
    all_in_doc, last_at_most, lemma_rows_above_in_doc, lemma_rows_starting_at_in_doc,
    list_backward_above, list_forward, row_in_doc, rows_above, rows_starting_at, take_at_most, wrap_of,
};
use crate::pager::viewport::{lemma_last_in_doc, lemma_take_in_doc};
use crate::screen::NonZeroCount;

verus! {

/// A screen row: which document line, which wrap row within it, and the raw
/// bytes of the line it covers.
#[derive(Debug, PartialEq, Eq, Hash)]
pub struct ScreenRow {
    pub line_index: usize,
    pub wrap_index: usize,
    pub raw_range: Range<usize>,
}

impl Clone for ScreenRow {
    fn clone(&self) -> (r: ScreenRow)
        ensures
            r == *self,
    {
        copy_row(self)
    }
}

/// Direction of a scroll.
#[derive(Debug, Clone, Copy, PartialEq, Eq, Structural)]
pub enum Direction {
    Down,
    Up,
}

/// How the terminal moves after a scroll; only made when something moved.
#[derive(Debug)]
pub struct ScrollPlan {
    pub terminal_scroll: NonZeroCount,
    pub direction: Direction,
}

/// The screen row of a document row.
pub open spec fn screen_row(r: Row) -> ScreenRow {
    ScreenRow { line_index: r.line_index, wrap_index: r.wrap_index, raw_range: r.raw_start..r.raw_end }
}

/// The screen rows of document rows.
pub open spec fn screen_rows(rows: Seq<Row>) -> Seq<ScreenRow> {
    rows.map_values(|r: Row| screen_row(r))
}

/// Every screen row is that of a row of the document at `width`.
pub open spec fn in_doc(lines: Seq<Line>, width: nat, rows: Seq<ScreenRow>) -> bool {
    forall|k: int|
        0 <= k < rows.len() ==> (#[trigger] rows[k]).line_index < lines.len() && rows[k].wrap_index < wrap_of(
            lines,
            width,
            rows[k].line_index as int,
        ).len()
}

/// Screen rows of at most `n` rows read forward from `(line, wrap)`.
pub open spec fn forward(lines: Seq<Line>, width: nat, line: int, wrap: int, n: int) -> Seq<ScreenRow> {
    screen_rows(take_at_most(rows_starting_at(lines, width, line, wrap), n))
}

/// Screen rows of at most `n` rows read backward from `(line, wrap)`,
/// without going above line `min_line`.
pub open spec fn backward(lines: Seq<Line>, width: nat, line: int, wrap: usize, n: int, min_line: int) -> Seq<
    ScreenRow,
> {
    screen_rows(last_at_most(rows_above(lines, width, line, Some(wrap), min_line), n))
}

/// Screen rows of the last `n` rows of the lines from `min_line` on.
pub open spec fn from_end(lines: Seq<Line>, width: nat, n: int, min_line: int) -> Seq<ScreenRow> {
    screen_rows(last_at_most(rows_above(lines, width, lines.len() as int, None, min_line), n))
}

proof fn lemma_screen_rows_in_doc(lines: Seq<Line>, width: nat, rows: Seq<Row>)
    requires
        all_in_doc(lines, width, rows),
    ensures
        in_doc(lines, width, screen_rows(rows)),
{
    assert forall|k: int| 0 <= k < rows.len() implies (#[trigger] screen_rows(rows)[k]).line_index < lines.len()
        && screen_rows(rows)[k].wrap_index < wrap_of(lines, width, screen_rows(rows)[k].line_index as int).len() by {
        assert(row_in_doc(lines, width, rows[k]));
    }
}

fn to_screen_rows(rows: &Vec<Row>) -> (r: Vec<ScreenRow>)
    ensures
        r@ == screen_rows(rows@),
{
    let mut out: Vec<ScreenRow> = Vec::new();
    let mut i: usize = 0;
    while i < rows.len()
        invariant
            i <= rows@.len(),
            out@ == screen_rows(rows@.take(i as int)),
        decreases rows@.len() - i,
    {
        let r = rows[i];
        out.push(ScreenRow { line_index: r.line_index, wrap_index: r.wrap_index, raw_range: r.raw_start..r.raw_end });
        i += 1;
        proof {
            assert(out@ =~= screen_rows(rows@.take(i as int)));
        }
    }
    proof {
        assert(rows@.take(i as int) =~= rows@);
    }
    out
}

/// Whether two screen rows are the same.
fn same_row(a: &ScreenRow, b: &ScreenRow) -> (r: bool)
    ensures
        r == (a == b),
{
    a.line_index == b.line_index && a.wrap_index == b.wrap_index && a.raw_range.start == b.raw_range.start
        && a.raw_range.end == b.raw_range.end
}

/// Whether two lists of screen rows are the same.
fn same_rows(a: &Vec<ScreenRow>, b: &Vec<ScreenRow>) -> (r: bool)
    ensures
        r == (a@ == b@),
{
    if a.len() != b.len() {
        return false;
    }
    let mut i: usize = 0;
    while i < a.len()
        invariant
            a@.len() == b@.len(),
            i <= a@.len(),
            forall|k: int| 0 <= k < i ==> a@[k] == b@[k],
        decreases a@.len() - i,
    {
        if !same_row(&a[i], &b[i]) {
            return false;
        }
        i += 1;
    }
    proof {
        assert(a@ =~= b@);
    }
    true
}

fn copy_row(r: &ScreenRow) -> (c: ScreenRow)
    ensures
        c == *r,
{
    ScreenRow { line_index: r.line_index, wrap_index: r.wrap_index, raw_range: r.raw_range.start..r.raw_range.end }
}

/// The content area of the page: what each of its rows shows, and the scroll
/// operations. It never scrolls above its fixed header lines.
pub struct Viewport {
    rows: Vec<ScreenRow>,
    width: usize,
    height: usize,
    /// Number of fixed header lines; the content starts below them.
    fixed_line_len: usize,
    /// Rows covered by a pinned section header.
    overlay_height: usize,
}

impl Viewport {
    pub closed spec fn spec_rows(&self) -> Seq<ScreenRow> {
        self.rows@
    }

    pub closed spec fn spec_width(&self) -> usize {
        self.width
    }

    pub closed spec fn spec_height(&self) -> usize {
        self.height
    }

    pub closed spec fn spec_fixed_line_len(&self) -> usize {
        self.fixed_line_len
    }

    pub closed spec fn spec_overlay_height(&self) -> usize {
        self.overlay_height
    }

    /// Every row shown is a row of `doc` at the viewport width.
    pub open spec fn fits(&self, doc: &Document) -> bool {
        in_doc(doc.spec_lines(), self.spec_width() as nat, self.spec_rows())
    }

    fn build_rows_forward(doc: &Document, width: usize, start_line: usize, start_wrap: usize, count: usize) -> (r:
        Vec<ScreenRow>)
        requires
            doc.wf(),
        ensures
            r@ == forward(doc.spec_lines(), width as nat, start_line as int, start_wrap as int, count as int),
            in_doc(doc.spec_lines(), width as nat, r@),
    {
        let rows = list_forward(doc, width, (start_line, start_wrap), count);
        proof {
            doc.lemma_wf();
            lemma_rows_starting_at_in_doc(doc.spec_lines(), width as nat, start_line as int, start_wrap as int);
            lemma_take_in_doc(
                doc.spec_lines(),
                width as nat,
                rows_starting_at(doc.spec_lines(), width as nat, start_line as int, start_wrap as int),
                count as int,
            );
            lemma_screen_rows_in_doc(doc.spec_lines(), width as nat, rows@);
        }
        to_screen_rows(&rows)
    }

    fn build_rows_backward(
        doc: &Document,
        width: usize,
        end_line: usize,
        part: Option<usize>,
        count: usize,
        min_line: usize,
    ) -> (r: Vec<ScreenRow>)
        requires
            doc.wf(),
            end_line <= doc.spec_lines().len(),
            part matches Some(p) ==> end_line < doc.spec_lines().len() && p <= wrap_of(
                doc.spec_lines(),
                width as nat,
                end_line as int,
            ).len(),
        ensures
            r@ == screen_rows(
                last_at_most(
                    rows_above(doc.spec_lines(), width as nat, end_line as int, part, min_line as int),
                    count as int,
                ),
            ),
            in_doc(doc.spec_lines(), width as nat, r@),
    {
        let rows = list_backward_above(doc, width, end_line, part, count, min_line);
        proof {
            doc.lemma_wf();
            lemma_rows_above_in_doc(doc.spec_lines(), width as nat, end_line as int, part, min_line as int);
            lemma_last_in_doc(
                doc.spec_lines(),
                width as nat,
                rows_above(doc.spec_lines(), width as nat, end_line as int, part, min_line as int),
                count as int,
            );
            lemma_screen_rows_in_doc(doc.spec_lines(), width as nat, rows@);
        }
        to_screen_rows(&rows)
    }

    /// The content area, `width` by `height`, showing `doc` from the line
    /// right after its `fixed_line_len` fixed header lines.
    pub fn new(doc: &Document, width: usize, height: usize, fixed_line_len: usize) -> (r: Viewport)
        requires
            doc.wf(),
        ensures
            r.fits(doc),
            r.spec_width() == width,
            r.spec_height() == height,
            r.spec_fixed_line_len() == fixed_line_len,
            r.spec_overlay_height() == 0,
            r.spec_rows() == forward(doc.spec_lines(), width as nat, fixed_line_len as int, 0, height as int),
    {
        let rows = Self::build_rows_forward(doc, width, fixed_line_len, 0, height);
        Viewport { rows, width, height, fixed_line_len, overlay_height: 0 }
    }

    /// Width of the content area.
    pub fn width(&self) -> (r: usize)
        ensures
            r == self.spec_width(),
    {
        self.width
    }

    /// Height of the content area.
    pub fn height(&self) -> (r: usize)
        ensures
            r == self.spec_height(),
    {
        self.height
    }

    /// Height of the content area left visible by the overlay.
    pub fn visible_height(&self) -> (r: usize)
        ensures
            r == if self.spec_height() >= self.spec_overlay_height() {
                self.spec_height() - self.spec_overlay_height()
            } else {
                0
            },
    {
        self.height.saturating_sub(self.overlay_height)
    }

    pub fn rows(&self) -> (r: &[ScreenRow])
        ensures
            r@ == self.spec_rows(),
    {
        self.rows.as_slice()
    }

    /// Rows covered by the section header overlay.
    pub fn overlay_height(&self) -> (r: usize)
        ensures
            r == self.spec_overlay_height(),
    {
        self.overlay_height
    }

    /// Set the number of rows covered by the section header overlay.
    pub fn set_overlay_height(&mut self, height: usize)
        ensures
            final(self).spec_overlay_height() == height,
            final(self).spec_rows() == old(self).spec_rows(),
            final(self).spec_width() == old(self).spec_width(),
            final(self).spec_height() == old(self).spec_height(),
            final(self).spec_fixed_line_len() == old(self).spec_fixed_line_len(),
    {
        self.overlay_height = height;
    }

    /// The rows not covered by the overlay.
    pub fn visible_rows(&self) -> (r: &[ScreenRow])
        ensures
            r@ == self.spec_rows().skip(
                if self.spec_overlay_height() <= self.spec_rows().len() {
                    self.spec_overlay_height() as int
                } else {
                    self.spec_rows().len() as int
                },
            ),
    {
        let from = if self.overlay_height <= self.rows.len() {
            self.overlay_height
        } else {
            self.rows.len()
        };
        let r = vstd::slice::slice_subrange(self.rows.as_slice(), from, self.rows.len());
        proof {
            assert(r@ =~= self.rows@.skip(from as int));
        }
        r
    }

    /// Line index of the first row, or 0 when there is none.
    pub fn top_line_index(&self) -> (r: usize)
        ensures
            r == if self.spec_rows().len() > 0 {
                self.spec_rows()[0].line_index
            } else {
                0
            },
    {
        if self.rows.len() > 0 {
            self.rows[0].line_index
        } else {
            0
        }
    }

    /// Wrap index of the first row, or 0 when there is none.
    pub fn top_wrap_index(&self) -> (r: usize)
        ensures
            r == if self.spec_rows().len() > 0 {
                self.spec_rows()[0].wrap_index
            } else {
                0
            },
    {
        if self.rows.len() > 0 {
            self.rows[0].wrap_index
        } else {
            0
        }
    }

    /// Scroll down by up to `n` rows. `None` when nothing moved.
    pub fn scroll_down(&mut self, n: usize, doc: &Document) -> (plan: Option<ScrollPlan>)
        requires
            doc.wf(),
            old(self).fits(doc),
            old(self).spec_rows().len() > 0 ==> forward(
                doc.spec_lines(),
                old(self).spec_width() as nat,
                old(self).spec_rows().last().line_index as int,
                old(self).spec_rows().last().wrap_index + 1,
                n as int,
            ).len() <= old(self).spec_rows().len(),
        ensures
            final(self).fits(doc),
            final(self).spec_width() == old(self).spec_width(),
            final(self).spec_height() == old(self).spec_height(),
            final(self).spec_fixed_line_len() == old(self).spec_fixed_line_len(),
            final(self).spec_overlay_height() == old(self).spec_overlay_height(),
            ({
                let rows = old(self).spec_rows();
                if n == 0 || rows.len() == 0 {
                    plan is None && final(self).spec_rows() == rows
                } else {
                    let added = forward(
                        doc.spec_lines(),
                        old(self).spec_width() as nat,
                        rows.last().line_index as int,
                        rows.last().wrap_index + 1,
                        n as int,
                    );
                    &&& final(self).spec_rows() == rows.skip(added.len() as int) + added
                    &&& match plan {
                        Some(p) => p.direction == Direction::Down && p.terminal_scroll.spec_get() == added.len(),
                        None => added.len() == 0,
                    }
                }
            }),
    {
        if n == 0 || self.rows.len() == 0 {
            return None;
        }
        let last = copy_row(&self.rows[self.rows.len() - 1]);
        proof {
            doc.lemma_wf();
            doc.spec_lines()[last.line_index as int].lemma_wrap_shape(self.width as nat);
        }
        let new_rows = Self::build_rows_forward(doc, self.width, last.line_index, last.wrap_index + 1, n);
        let actual = match NonZeroCount::new(new_rows.len()) {
            Some(c) => c,
            None => {
                proof {
                    assert(self.rows@.skip(0) + new_rows@ =~= self.rows@);
                }
                return None;
            },
        };
        let count = actual.get();
        let mut combined: Vec<ScreenRow> = Vec::new();
        let mut i: usize = count;
        while i < self.rows.len()
            invariant
                count <= i <= self.rows@.len(),
                combined@ == self.rows@.subrange(count as int, i as int),
            decreases self.rows@.len() - i,
        {
            combined.push(copy_row(&self.rows[i]));
            i += 1;
            proof {
                assert(combined@ =~= self.rows@.subrange(count as int, i as int));
            }
        }
        let ghost kept = combined@;
        let mut j: usize = 0;
        while j < new_rows.len()
            invariant
                j <= new_rows@.len(),
                combined@ == kept + new_rows@.take(j as int),
            decreases new_rows@.len() - j,
        {
            combined.push(copy_row(&new_rows[j]));
            j += 1;
            proof {
                assert(combined@ =~= kept + new_rows@.take(j as int));
            }
        }
        proof {
            assert(new_rows@.take(j as int) =~= new_rows@);
            assert(kept =~= self.rows@.skip(count as int));
            assert forall|k: int| 0 <= k < combined@.len() implies (#[trigger] combined@[k]).line_index
                < doc.spec_lines().len() && combined@[k].wrap_index < wrap_of(
                doc.spec_lines(),
                self.width as nat,
                combined@[k].line_index as int,
            ).len() by {
                if k < kept.len() {
                    assert(combined@[k] == self.rows@[k + count]);
                } else {
                    assert(combined@[k] == new_rows@[k - kept.len()]);
                }
            }
        }
        self.rows = combined;
        Some(ScrollPlan { terminal_scroll: actual, direction: Direction::Down })
    }

    /// Scroll up by up to `n` rows, not above the fixed header lines. `None`
    /// when nothing moved.
    pub fn scroll_up(&mut self, n: usize, doc: &Document) -> (plan: Option<ScrollPlan>)
        requires
            doc.wf(),
            old(self).fits(doc),
            old(self).spec_rows().len() > 0 ==> backward(
                doc.spec_lines(),
                old(self).spec_width() as nat,
                old(self).spec_rows()[0].line_index as int,
                old(self).spec_rows()[0].wrap_index,
                n as int,
                old(self).spec_fixed_line_len() as int,
            ).len() <= old(self).spec_rows().len(),
        ensures
            final(self).fits(doc),
            final(self).spec_width() == old(self).spec_width(),
            final(self).spec_height() == old(self).spec_height(),
            final(self).spec_fixed_line_len() == old(self).spec_fixed_line_len(),
            final(self).spec_overlay_height() == old(self).spec_overlay_height(),
            ({
                let rows = old(self).spec_rows();
                if n == 0 || rows.len() == 0 {
                    plan is None && final(self).spec_rows() == rows
                } else {
                    let added = backward(
                        doc.spec_lines(),
                        old(self).spec_width() as nat,
                        rows[0].line_index as int,
                        rows[0].wrap_index,
                        n as int,
                        old(self).spec_fixed_line_len() as int,
                    );
                    &&& final(self).spec_rows() == added + rows.take(rows.len() - added.len())
                    &&& match plan {
                        Some(p) => p.direction == Direction::Up && p.terminal_scroll.spec_get() == added.len(),
                        None => added.len() == 0,
                    }
                }
            }),
    {
        if n == 0 || self.rows.len() == 0 {
            return None;
        }
        let first_line = self.rows[0].line_index;
        let first_wrap = self.rows[0].wrap_index;
        let new_rows = Self::build_rows_backward(
            doc,
            self.width,
            first_line,
            Some(first_wrap),
            n,
            self.fixed_line_len,
        );
        let actual = match NonZeroCount::new(new_rows.len()) {
            Some(c) => c,
            None => {
                proof {
                    assert(new_rows@ + self.rows@.take(self.rows@.len() as int) =~= self.rows@);
                }
                return None;
            },
        };
        let keep = self.rows.len() - actual.get();
        let mut combined: Vec<ScreenRow> = Vec::new();
        let mut j: usize = 0;
        while j < new_rows.len()
            invariant
                j <= new_rows@.len(),
                combined@ == new_rows@.take(j as int),
            decreases new_rows@.len() - j,
        {
            combined.push(copy_row(&new_rows[j]));
            j += 1;
            proof {
                assert(combined@ =~= new_rows@.take(j as int));
            }
        }
        proof {
            assert(new_rows@.take(j as int) =~= new_rows@);
        }
        let mut i: usize = 0;
        while i < keep
            invariant
                i <= keep <= self.rows@.len(),
                combined@ == new_rows@ + self.rows@.take(i as int),
            decreases keep - i,
        {
            combined.push(copy_row(&self.rows[i]));
            i += 1;
            proof {
                assert(combined@ =~= new_rows@ + self.rows@.take(i as int));
            }
        }
        proof {
            assert forall|k: int| 0 <= k < combined@.len() implies (#[trigger] combined@[k]).line_index
                < doc.spec_lines().len() && combined@[k].wrap_index < wrap_of(
                doc.spec_lines(),
                self.width as nat,
                combined@[k].line_index as int,
            ).len() by {
                if k < new_rows@.len() {
                    assert(combined@[k] == new_rows@[k]);
                } else {
                    assert(combined@[k] == self.rows@[k - new_rows@.len()]);
                }
            }
        }
        self.rows = combined;
        Some(ScrollPlan { terminal_scroll: actual, direction: Direction::Up })
    }

    /// Show line `line_index`, or the first line below the fixed header when
    /// it is above it, at the top, keeping the number of rows; near the end of
    /// the document the page is filled from the end instead. Returns whether
    /// the rows changed.
    pub fn jump_to(&mut self, doc: &Document, line_index: usize) -> (r: bool)
        requires
            doc.wf(),
            old(self).fits(doc),
        ensures
            final(self).fits(doc),
            final(self).spec_width() == old(self).spec_width(),
            final(self).spec_height() == old(self).spec_height(),
            final(self).spec_fixed_line_len() == old(self).spec_fixed_line_len(),
            final(self).spec_overlay_height() == old(self).spec_overlay_height(),
            ({
                let n = old(self).spec_rows().len() as int;
                let fixed = old(self).spec_fixed_line_len();
                let line = if line_index >= fixed {
                    line_index
                } else {
                    fixed
                };
                let w = old(self).spec_width() as nat;
                let fwd = forward(doc.spec_lines(), w, line as int, 0, n);
                final(self).spec_rows() == if fwd.len() < n {
                    from_end(doc.spec_lines(), w, n, fixed as int)
                } else {
                    fwd
                }
            }),
            r == (final(self).spec_rows() != old(self).spec_rows()),
    {
        let line = if line_index >= self.fixed_line_len {
            line_index
        } else {
            self.fixed_line_len
        };
        let height = self.rows.len();
        let mut new_rows = Self::build_rows_forward(doc, self.width, line, 0, height);
        if new_rows.len() < height {
            new_rows = Self::build_rows_backward(doc, self.width, doc.line_count(), None, height, self.fixed_line_len);
        }
        if same_rows(&new_rows, &self.rows) {
            return false;
        }
        self.rows = new_rows;
        true
    }

    /// Show the end of the document, its last line at the bottom, keeping
    /// the number of rows. Returns whether the rows changed.
    pub fn jump_to_end(&mut self, doc: &Document) -> (r: bool)
        requires
            doc.wf(),
            old(self).fits(doc),
        ensures
            final(self).fits(doc),
            final(self).spec_width() == old(self).spec_width(),
            final(self).spec_height() == old(self).spec_height(),
            final(self).spec_fixed_line_len() == old(self).spec_fixed_line_len(),
            final(self).spec_overlay_height() == old(self).spec_overlay_height(),
            final(self).spec_rows() == from_end(
                doc.spec_lines(),
                old(self).spec_width() as nat,
                old(self).spec_rows().len() as int,
                old(self).spec_fixed_line_len() as int,
            ),
            r == (final(self).spec_rows() != old(self).spec_rows()),
    {
        let height = self.rows.len();
        let new_rows = Self::build_rows_backward(doc, self.width, doc.line_count(), None, height, self.fixed_line_len);
        if same_rows(&new_rows, &self.rows) {
            return false;
        }
        self.rows = new_rows;
        true
    }

    /// Take a new size, keeping the top row where it is (not above the fixed
    /// header lines).
    pub fn resize(&mut self, doc: &Document, width: usize, height: usize)
        requires
            doc.wf(),
        ensures
            final(self).fits(doc),
            final(self).spec_width() == width,
            final(self).spec_height() == height,
            final(self).spec_fixed_line_len() == old(self).spec_fixed_line_len(),
            final(self).spec_overlay_height() == old(self).spec_overlay_height(),
            ({
                let rows = old(self).spec_rows();
                let (top_line, top_wrap) = if rows.len() > 0 {
                    (rows[0].line_index, rows[0].wrap_index)
                } else {
                    (0usize, 0usize)
                };
                let fixed = old(self).spec_fixed_line_len();
                let line = if top_line >= fixed {
                    top_line
                } else {
                    fixed
                };
                final(self).spec_rows() == forward(doc.spec_lines(), width as nat, line as int, top_wrap as int, height as int)
            }),
    {
        let (top_line, top_wrap) = if self.rows.len() > 0 {
            (self.rows[0].line_index, self.rows[0].wrap_index)
        } else {
            (0, 0)
        };
        let line = if top_line >= self.fixed_line_len {
            top_line
        } else {
            self.fixed_line_len
        };
        self.rows = Self::build_rows_forward(doc, width, line, top_wrap, height);
        self.width = width;
        self.height = height;
    }
}

} // verus!
