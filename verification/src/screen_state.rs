//! What each screen row shows, with scrolls that report the minimal change to
//! draw: the distance the terminal scrolls and the rows that came in.

use vstd::prelude::*;

use crate::document::Document;
use crate::line::{Line, Row};
use crate::pager::rows::{
    all_in_doc, last_at_most, lemma_rows_above_in_doc, lemma_rows_starting_at_in_doc, lemma_wrap_positions,
    list_backward_above, list_forward, row_in_doc, rows_above, rows_starting_at, take_at_most, wrap_of,
};
use crate::pager::viewport::{lemma_last_in_doc, lemma_take_in_doc};

verus! {

/// A screen row: which document line, which wrap row within it.
#[derive(Debug, Clone, Copy, PartialEq, Eq, Structural)]
pub struct ScreenRow {
    pub line_index: usize,
    pub wrap_index: usize,
}

/// Direction of a scroll.
#[derive(Debug, Clone, Copy, PartialEq, Eq, Structural)]
pub enum Direction {
    Down,
    Up,
}

/// What to draw after a scroll.
#[derive(Debug)]
pub struct ScrollPlan {
    /// Rows the terminal scrolls by; zero when nothing moved.
    pub terminal_scroll: usize,
    pub direction: Direction,
    /// The rows that came in, at the bottom or the top.
    pub new_rows: Vec<ScreenRow>,
}

/// The position of a document row.
pub open spec fn pos_of(r: Row) -> ScreenRow {
    ScreenRow { line_index: r.line_index, wrap_index: r.wrap_index }
}

/// The positions of document rows.
pub open spec fn positions_of(rows: Seq<Row>) -> Seq<ScreenRow> {
    rows.map_values(|r: Row| pos_of(r))
}

/// Every position is that of a row of the document at `width`.
pub open spec fn in_doc(lines: Seq<Line>, width: nat, rows: Seq<ScreenRow>) -> bool {
    forall|k: int|
        0 <= k < rows.len() ==> (#[trigger] rows[k]).line_index < lines.len() && rows[k].wrap_index < wrap_of(
            lines,
            width,
            rows[k].line_index as int,
        ).len()
}

/// The positions of at most `n` rows read forward from `(line, wrap)`.
pub open spec fn forward(lines: Seq<Line>, width: nat, line: int, wrap: int, n: int) -> Seq<ScreenRow> {
    positions_of(take_at_most(rows_starting_at(lines, width, line, wrap), n))
}

/// The positions of at most `n` rows read backward from `(line, wrap)`.
pub open spec fn backward(lines: Seq<Line>, width: nat, line: int, wrap: usize, n: int) -> Seq<ScreenRow> {
    positions_of(last_at_most(rows_above(lines, width, line, Some(wrap), 0), n))
}

/// The positions of the last `n` rows of the document.
pub open spec fn from_end(lines: Seq<Line>, width: nat, n: int) -> Seq<ScreenRow> {
    positions_of(last_at_most(rows_above(lines, width, lines.len() as int, None, 0), n))
}

/// Positions of document rows are in the document.
proof fn lemma_positions_in_doc(lines: Seq<Line>, width: nat, rows: Seq<Row>)
    requires
        all_in_doc(lines, width, rows),
    ensures
        in_doc(lines, width, positions_of(rows)),
{
    assert forall|k: int| 0 <= k < rows.len() implies (#[trigger] positions_of(rows)[k]).line_index < lines.len()
        && positions_of(rows)[k].wrap_index < wrap_of(lines, width, positions_of(rows)[k].line_index as int).len() by {
        assert(row_in_doc(lines, width, rows[k]));
    }
}

/// Positions of `rows`.
fn to_positions(rows: &Vec<Row>) -> (r: Vec<ScreenRow>)
    ensures
        r@ == positions_of(rows@),
{
    let mut out: Vec<ScreenRow> = Vec::new();
    let mut i: usize = 0;
    while i < rows.len()
        invariant
            i <= rows@.len(),
            out@ == positions_of(rows@.take(i as int)),
        decreases rows@.len() - i,
    {
        out.push(ScreenRow { line_index: rows[i].line_index, wrap_index: rows[i].wrap_index });
        i += 1;
        proof {
            assert(out@ =~= positions_of(rows@.take(i as int)));
        }
    }
    proof {
        assert(rows@.take(i as int) =~= rows@);
    }
    out
}

/// Whether two lists of positions are the same.
fn same_rows(a: &Vec<ScreenRow>, b: &Vec<ScreenRow>) -> (r: bool)
    ensures
        r == (a@ == b@),
{
    if a.len() != b.len() {
        return false;
    }
    let mut i: usize = 0;
    while i < a.len()
        invariant
            a@.len() == b@.len(),
            i <= a@.len(),
            forall|k: int| 0 <= k < i ==> a@[k] == b@[k],
        decreases a@.len() - i,
    {
        if a[i] != b[i] {
            return false;
        }
        i += 1;
    }
    proof {
        assert(a@ =~= b@);
    }
    true
}

/// Tracks what each screen row shows, with scrolls that return what to draw.
pub struct ScreenState {
    rows: Vec<ScreenRow>,
    /// Full terminal width.
    width: usize,
    /// Full terminal height: the content area and the status line.
    height: usize,
}

impl ScreenState {
    pub closed spec fn spec_rows(&self) -> Seq<ScreenRow> {
        self.rows@
    }

    pub closed spec fn spec_width(&self) -> usize {
        self.width
    }

    pub closed spec fn spec_height(&self) -> usize {
        self.height
    }

    /// Every row shown is a row of `doc` at the screen width.
    pub open spec fn fits(&self, doc: &Document) -> bool {
        in_doc(doc.spec_lines(), self.spec_width() as nat, self.spec_rows())
    }

    /// Rows for document content: all but the status line.
    pub open spec fn spec_content_height(&self) -> usize {
        if self.spec_height() >= 1 {
            (self.spec_height() - 1) as usize
        } else {
            0
        }
    }

    fn build_rows_forward(doc: &Document, width: usize, start_line: usize, start_wrap: usize, count: usize) -> (r:
        Vec<ScreenRow>)
        requires
            doc.wf(),
        ensures
            r@ == forward(doc.spec_lines(), width as nat, start_line as int, start_wrap as int, count as int),
            in_doc(doc.spec_lines(), width as nat, r@),
    {
        let rows = list_forward(doc, width, (start_line, start_wrap), count);
        proof {
            doc.lemma_wf();
            lemma_rows_starting_at_in_doc(doc.spec_lines(), width as nat, start_line as int, start_wrap as int);
            lemma_take_in_doc(
                doc.spec_lines(),
                width as nat,
                rows_starting_at(doc.spec_lines(), width as nat, start_line as int, start_wrap as int),
                count as int,
            );
            lemma_positions_in_doc(doc.spec_lines(), width as nat, rows@);
        }
        to_positions(&rows)
    }

    fn build_rows_backward(doc: &Document, width: usize, end_line: usize, part: Option<usize>, count: usize) -> (r:
        Vec<ScreenRow>)
        requires
            doc.wf(),
            end_line <= doc.spec_lines().len(),
            part matches Some(p) ==> end_line < doc.spec_lines().len() && p <= wrap_of(
                doc.spec_lines(),
                width as nat,
                end_line as int,
            ).len(),
        ensures
            r@ == positions_of(
                last_at_most(rows_above(doc.spec_lines(), width as nat, end_line as int, part, 0), count as int),
            ),
            in_doc(doc.spec_lines(), width as nat, r@),
    {
        let rows = list_backward_above(doc, width, end_line, part, count, 0);
        proof {
            doc.lemma_wf();
            lemma_rows_above_in_doc(doc.spec_lines(), width as nat, end_line as int, part, 0);
            lemma_last_in_doc(
                doc.spec_lines(),
                width as nat,
                rows_above(doc.spec_lines(), width as nat, end_line as int, part, 0),
                count as int,
            );
            lemma_positions_in_doc(doc.spec_lines(), width as nat, rows@);
        }
        to_positions(&rows)
    }

    /// The screen of a `width` by `height` terminal showing `doc` from its
    /// top; the bottom row is kept for the status line.
    pub fn new(doc: &Document, width: usize, height: usize) -> (r: ScreenState)
        requires
            doc.wf(),
        ensures
            r.fits(doc),
            r.spec_width() == width,
            r.spec_height() == height,
            r.spec_rows() == forward(doc.spec_lines(), width as nat, 0, 0, r.spec_content_height() as int),
    {
        let content_height = height.saturating_sub(1);
        let rows = Self::build_rows_forward(doc, width, 0, 0, content_height);
        ScreenState { rows, width, height }
    }

    /// Full terminal width.
    pub fn width(&self) -> (r: usize)
        ensures
            r == self.spec_width(),
    {
        self.width
    }

    /// Rows available for document content.
    pub fn content_height(&self) -> (r: usize)
        ensures
            r == self.spec_content_height(),
    {
        self.height.saturating_sub(1)
    }

    pub fn rows(&self) -> (r: &[ScreenRow])
        ensures
            r@ == self.spec_rows(),
    {
        self.rows.as_slice()
    }

    /// Scroll down by up to `n` rows.
    pub fn scroll_down(&mut self, n: usize, doc: &Document) -> (plan: ScrollPlan)
        requires
            doc.wf(),
            old(self).fits(doc),
            old(self).spec_rows().len() > 0 ==> forward(
                doc.spec_lines(),
                old(self).spec_width() as nat,
                old(self).spec_rows().last().line_index as int,
                old(self).spec_rows().last().wrap_index + 1,
                n as int,
            ).len() <= old(self).spec_rows().len(),
        ensures
            final(self).fits(doc),
            final(self).spec_width() == old(self).spec_width(),
            final(self).spec_height() == old(self).spec_height(),
            plan.direction == Direction::Down,
            ({
                let rows = old(self).spec_rows();
                if n == 0 || rows.len() == 0 {
                    plan.terminal_scroll == 0 && plan.new_rows@.len() == 0 && final(self).spec_rows() == rows
                } else {
                    let added = forward(
                        doc.spec_lines(),
                        old(self).spec_width() as nat,
                        rows.last().line_index as int,
                        rows.last().wrap_index + 1,
                        n as int,
                    );
                    &&& plan.terminal_scroll == added.len()
                    &&& plan.new_rows@ == added
                    &&& final(self).spec_rows() == rows.skip(added.len() as int) + added
                }
            }),
    {
        if n == 0 || self.rows.len() == 0 {
            return ScrollPlan { terminal_scroll: 0, direction: Direction::Down, new_rows: Vec::new() };
        }
        let last = self.rows[self.rows.len() - 1];
        proof {
            doc.lemma_wf();
            lemma_wrap_positions(doc.spec_lines(), self.width as nat, last.line_index as int);
            doc.spec_lines()[last.line_index as int].lemma_wrap_shape(self.width as nat);
        }
        let new_rows = Self::build_rows_forward(doc, self.width, last.line_index, last.wrap_index + 1, n);
        let actual = new_rows.len();
        if actual == 0 {
            proof {
                assert(self.rows@.skip(0) =~= self.rows@);
                assert(self.rows@.skip(0) + new_rows@ =~= self.rows@);
            }
            return ScrollPlan { terminal_scroll: 0, direction: Direction::Down, new_rows: Vec::new() };
        }
        let mut combined: Vec<ScreenRow> = Vec::new();
        let mut i: usize = actual;
        while i < self.rows.len()
            invariant
                actual <= i <= self.rows@.len(),
                combined@ == self.rows@.subrange(actual as int, i as int),
            decreases self.rows@.len() - i,
        {
            combined.push(self.rows[i]);
            i += 1;
            proof {
                assert(combined@ =~= self.rows@.subrange(actual as int, i as int));
            }
        }
        let ghost kept = combined@;
        let mut j: usize = 0;
        while j < new_rows.len()
            invariant
                j <= new_rows@.len(),
                combined@ == kept + new_rows@.take(j as int),
            decreases new_rows@.len() - j,
        {
            combined.push(new_rows[j]);
            j += 1;
            proof {
                assert(combined@ =~= kept + new_rows@.take(j as int));
            }
        }
        proof {
            assert(new_rows@.take(j as int) =~= new_rows@);
            assert(kept =~= self.rows@.skip(actual as int));
            assert forall|k: int| 0 <= k < combined@.len() implies (#[trigger] combined@[k]).line_index
                < doc.spec_lines().len() && combined@[k].wrap_index < wrap_of(
                doc.spec_lines(),
                self.width as nat,
                combined@[k].line_index as int,
            ).len() by {
                if k < kept.len() {
                    assert(combined@[k] == self.rows@[k + actual]);
                } else {
                    assert(combined@[k] == new_rows@[k - kept.len()]);
                }
            }
        }
        self.rows = combined;
        ScrollPlan { terminal_scroll: actual, direction: Direction::Down, new_rows }
    }

    /// Scroll up by up to `n` rows.
    pub fn scroll_up(&mut self, n: usize, doc: &Document) -> (plan: ScrollPlan)
        requires
            doc.wf(),
            old(self).fits(doc),
            old(self).spec_rows().len() > 0 ==> backward(
                doc.spec_lines(),
                old(self).spec_width() as nat,
                old(self).spec_rows()[0].line_index as int,
                old(self).spec_rows()[0].wrap_index,
                n as int,
            ).len() <= old(self).spec_rows().len(),
        ensures
            final(self).fits(doc),
            final(self).spec_width() == old(self).spec_width(),
            final(self).spec_height() == old(self).spec_height(),
            plan.direction == Direction::Up,
            ({
                let rows = old(self).spec_rows();
                if n == 0 || rows.len() == 0 {
                    plan.terminal_scroll == 0 && plan.new_rows@.len() == 0 && final(self).spec_rows() == rows
                } else {
                    let added = backward(
                        doc.spec_lines(),
                        old(self).spec_width() as nat,
                        rows[0].line_index as int,
                        rows[0].wrap_index,
                        n as int,
                    );
                    &&& plan.terminal_scroll == added.len()
                    &&& plan.new_rows@ == added
                    &&& final(self).spec_rows() == added + rows.take(rows.len() - added.len())
                }
            }),
    {
        if n == 0 || self.rows.len() == 0 {
            return ScrollPlan { terminal_scroll: 0, direction: Direction::Up, new_rows: Vec::new() };
        }
        let first = self.rows[0];
        let new_rows = Self::build_rows_backward(doc, self.width, first.line_index, Some(first.wrap_index), n);
        let actual = new_rows.len();
        if actual == 0 {
            proof {
                assert(new_rows@ + self.rows@.take(self.rows@.len() as int) =~= self.rows@);
            }
            return ScrollPlan { terminal_scroll: 0, direction: Direction::Up, new_rows: Vec::new() };
        }
        let keep = self.rows.len() - actual;
        let mut combined: Vec<ScreenRow> = Vec::new();
        let mut j: usize = 0;
        while j < new_rows.len()
            invariant
                j <= new_rows@.len(),
                combined@ == new_rows@.take(j as int),
            decreases new_rows@.len() - j,
        {
            combined.push(new_rows[j]);
            j += 1;
            proof {
                assert(combined@ =~= new_rows@.take(j as int));
            }
        }
        let mut i: usize = 0;
        proof {
            assert(new_rows@.take(j as int) =~= new_rows@);
        }
        while i < keep
            invariant
                i <= keep <= self.rows@.len(),
                combined@ == new_rows@ + self.rows@.take(i as int),
            decreases keep - i,
        {
            combined.push(self.rows[i]);
            i += 1;
            proof {
                assert(combined@ =~= new_rows@ + self.rows@.take(i as int));
            }
        }
        proof {
            assert forall|k: int| 0 <= k < combined@.len() implies (#[trigger] combined@[k]).line_index
                < doc.spec_lines().len() && combined@[k].wrap_index < wrap_of(
                doc.spec_lines(),
                self.width as nat,
                combined@[k].line_index as int,
            ).len() by {
                if k < new_rows@.len() {
                    assert(combined@[k] == new_rows@[k]);
                } else {
                    assert(combined@[k] == self.rows@[k - new_rows@.len()]);
                }
            }
        }
        self.rows = combined;
        ScrollPlan { terminal_scroll: actual, direction: Direction::Up, new_rows }
    }

    /// Show line `line_index` at the top, keeping the number of rows.
    /// Returns whether the rows changed.
    pub fn jump_to(&mut self, doc: &Document, line_index: usize) -> (r: bool)
        requires
            doc.wf(),
            old(self).fits(doc),
        ensures
            final(self).fits(doc),
            final(self).spec_width() == old(self).spec_width(),
            final(self).spec_height() == old(self).spec_height(),
            final(self).spec_rows() == forward(
                doc.spec_lines(),
                old(self).spec_width() as nat,
                line_index as int,
                0,
                old(self).spec_rows().len() as int,
            ),
            r == (final(self).spec_rows() != old(self).spec_rows()),
    {
        let height = self.rows.len();
        let new_rows = Self::build_rows_forward(doc, self.width, line_index, 0, height);
        if same_rows(&new_rows, &self.rows) {
            return false;
        }
        self.rows = new_rows;
        true
    }

    /// Show the end of the document, its last line at the bottom, keeping the
    /// number of rows. Returns whether the rows changed.
    pub fn jump_to_end(&mut self, doc: &Document) -> (r: bool)
        requires
            doc.wf(),
            old(self).fits(doc),
        ensures
            final(self).fits(doc),
            final(self).spec_width() == old(self).spec_width(),
            final(self).spec_height() == old(self).spec_height(),
            final(self).spec_rows() == from_end(
                doc.spec_lines(),
                old(self).spec_width() as nat,
                old(self).spec_rows().len() as int,
            ),
            r == (final(self).spec_rows() != old(self).spec_rows()),
    {
        let height = self.rows.len();
        let new_rows = Self::build_rows_backward(doc, self.width, doc.line_count(), None, height);
        if same_rows(&new_rows, &self.rows) {
            return false;
        }
        self.rows = new_rows;
        true
    }

    /// Take a new terminal size, keeping the top row where it is.
    pub fn resize(&mut self, doc: &Document, width: usize, height: usize)
        requires
            doc.wf(),
        ensures
            final(self).fits(doc),
            final(self).spec_width() == width,
            final(self).spec_height() == height,
            ({
                let top = if old(self).spec_rows().len() > 0 {
                    old(self).spec_rows()[0]
                } else {
                    ScreenRow { line_index: 0, wrap_index: 0 }
                };
                final(self).spec_rows() == forward(
                    doc.spec_lines(),
                    width as nat,
                    top.line_index as int,
                    top.wrap_index as int,
                    final(self).spec_content_height() as int,
                )
            }),
    {
        let top = if self.rows.len() > 0 {
            self.rows[0]
        } else {
            ScreenRow { line_index: 0, wrap_index: 0 }
        };
        let content_height = height.saturating_sub(1);
        let rows = Self::build_rows_forward(doc, width, top.line_index, top.wrap_index, content_height);
        self.rows = rows;
        self.width = width;
        self.height = height;
    }
}

} // verus!
