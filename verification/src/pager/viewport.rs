//! The rows of document lines shown in the page, with the scrolls that move
//! them a few rows at a time.

use vstd::prelude::*;

use crate::document::Document;
use crate::line::{Line, Row};
use crate::pager::rows::{
    all_in_doc, backward_start_ok, indexed, last_at_most, lemma_row_in_doc_position_ok,
    lemma_rows_starting_at_in_doc, lemma_rows_upto_in_doc, lemma_wrap_positions, lines_wf, list_backward,
    list_forward, row_in_doc, rows_before, rows_starting_at, take_at_most, wrap_of, DocPos,
};
use crate::pager::ViewportSize;

verus! {

/// Concatenations of document rows are document rows.
pub proof fn lemma_all_in_doc_concat(lines: Seq<Line>, width: nat, a: Seq<Row>, b: Seq<Row>)
    requires
        all_in_doc(lines, width, a),
        all_in_doc(lines, width, b),
    ensures
        all_in_doc(lines, width, a + b),
{
    assert forall|k: int| 0 <= k < (a + b).len() implies row_in_doc(lines, width, #[trigger] (a + b)[k]) by {
        if k < a.len() {
            assert((a + b)[k] == a[k]);
        } else {
            assert((a + b)[k] == b[k - a.len()]);
        }
    }
}

/// A part of a run of document rows is made of document rows.
pub proof fn lemma_all_in_doc_subrange(lines: Seq<Line>, width: nat, s: Seq<Row>, i: int, j: int)
    requires
        all_in_doc(lines, width, s),
        0 <= i <= j <= s.len(),
    ensures
        all_in_doc(lines, width, s.subrange(i, j)),
{
    assert forall|k: int| 0 <= k < j - i implies row_in_doc(lines, width, #[trigger] s.subrange(i, j)[k]) by {
        assert(s.subrange(i, j)[k] == s[i + k]);
    }
}

/// Rows reachable backward from a valid start are document rows.
pub proof fn lemma_rows_before_in_doc(lines: Seq<Line>, width: nat, start: DocPos)
    requires
        indexed(lines),
        lines_wf(lines),
        backward_start_ok(lines, width, start),
    ensures
        all_in_doc(lines, width, rows_before(lines, width, start)),
{
    match start {
        DocPos::End => {
            lemma_rows_upto_in_doc(lines, width, lines.len() as int);
        },
        DocPos::Before(row) => {
            let l = row.line_index as int;
            let w = row.wrap_index as int;
            if w == 0 {
                if !(l == 0 || l - 1 >= lines.len()) {
                    lemma_rows_upto_in_doc(lines, width, l);
                }
            } else if l < lines.len() {
                lemma_rows_upto_in_doc(lines, width, l);
                lemma_wrap_positions(lines, width, l);
                let ws = wrap_of(lines, width, l);
                lemma_all_in_doc_subrange(lines, width, ws, 0, w);
                assert(ws.take(w) =~= ws.subrange(0, w));
                lemma_all_in_doc_concat(lines, width, crate::pager::rows::rows_upto(lines, width, l), ws.take(w));
            }
        },
    }
}

/// The rows of a backward read, cut to the last `n`, are document rows.
pub proof fn lemma_last_in_doc(lines: Seq<Line>, width: nat, s: Seq<Row>, n: int)
    requires
        all_in_doc(lines, width, s),
        n >= 0,
    ensures
        all_in_doc(lines, width, last_at_most(s, n)),
{
    if n <= s.len() {
        lemma_all_in_doc_subrange(lines, width, s, s.len() - n, s.len() as int);
        assert(s.skip(s.len() - n) =~= s.subrange(s.len() - n, s.len() as int));
    }
}

/// The rows of a forward read, cut to the first `n`, are document rows.
pub proof fn lemma_take_in_doc(lines: Seq<Line>, width: nat, s: Seq<Row>, n: int)
    requires
        all_in_doc(lines, width, s),
        n >= 0,
    ensures
        all_in_doc(lines, width, take_at_most(s, n)),
{
    if n <= s.len() {
        lemma_all_in_doc_subrange(lines, width, s, 0, n);
        assert(s.take(n) =~= s.subrange(0, n));
    }
}

/// The rows of document lines displayed in the page.
#[derive(Debug)]
pub struct Viewport {
    size: ViewportSize,
    rows: Vec<Row>,
}

/// At most `n` rows read forward from `start`.
pub open spec fn forward(doc: &Document, width: usize, start: (usize, usize), n: usize) -> Seq<Row> {
    take_at_most(rows_starting_at(doc.spec_lines(), width as nat, start.0 as int, start.1 as int), n as int)
}

/// At most `n` rows read backward from `start`.
pub open spec fn backward(doc: &Document, width: usize, start: DocPos, n: usize) -> Seq<Row> {
    last_at_most(rows_before(doc.spec_lines(), width as nat, start), n as int)
}

/// Number of rows the page of a jump to `line_index` shows above it: at
/// least `row_offset` and enough to fill the page when the document ends
/// early, but never the whole page.
pub open spec fn jump_padding(height: usize, after_len: int, row_offset: usize) -> int {
    let fill = if height >= after_len {
        height - after_len
    } else {
        0
    };
    let wanted = if row_offset >= fill {
        row_offset as int
    } else {
        fill
    };
    let cap = if height >= 1 {
        height - 1
    } else {
        0
    };
    if cap <= wanted {
        cap
    } else {
        wanted
    }
}

impl Viewport {
    pub closed spec fn spec_size(&self) -> ViewportSize {
        self.size
    }

    pub closed spec fn spec_rows(&self) -> Seq<Row> {
        self.rows@
    }

    /// Every row shown is a row of `doc` at the viewport width.
    pub open spec fn fits(&self, doc: &Document) -> bool {
        all_in_doc(doc.spec_lines(), self.spec_size().width as nat, self.spec_rows())
    }

    proof fn lemma_forward_fits(doc: &Document, width: usize, start: (usize, usize), n: usize)
        requires
            doc.wf(),
        ensures
            all_in_doc(doc.spec_lines(), width as nat, forward(doc, width, start, n)),
    {
        doc.lemma_wf();
        lemma_rows_starting_at_in_doc(doc.spec_lines(), width as nat, start.0 as int, start.1 as int);
        lemma_take_in_doc(
            doc.spec_lines(),
            width as nat,
            rows_starting_at(doc.spec_lines(), width as nat, start.0 as int, start.1 as int),
            n as int,
        );
    }

    proof fn lemma_backward_fits(doc: &Document, width: usize, start: DocPos, n: usize)
        requires
            doc.wf(),
            backward_start_ok(doc.spec_lines(), width as nat, start),
        ensures
            all_in_doc(doc.spec_lines(), width as nat, backward(doc, width, start, n)),
    {
        doc.lemma_wf();
        lemma_rows_before_in_doc(doc.spec_lines(), width as nat, start);
        lemma_last_in_doc(doc.spec_lines(), width as nat, rows_before(doc.spec_lines(), width as nat, start), n as int);
    }

    /// A viewport showing `doc` from its top.
    pub fn new(doc: &Document, size: ViewportSize) -> (r: Viewport)
        requires
            doc.wf(),
        ensures
            r.fits(doc),
            r.spec_size() == size,
            r.spec_rows() == forward(doc, size.width, (0, 0), size.height),
    {
        let rows = list_forward(doc, size.width, (0, 0), size.height);
        proof {
            Self::lemma_forward_fits(doc, size.width, (0, 0), size.height);
        }
        Viewport { size, rows }
    }

    pub fn size(&self) -> (r: &ViewportSize)
        ensures
            *r == self.spec_size(),
    {
        &self.size
    }

    pub fn rows(&self) -> (r: &[Row])
        ensures
            r@ == self.spec_rows(),
    {
        self.rows.as_slice()
    }

    /// Index among the rows of the row `wrap_index` of line `line_index`, if shown.
    pub fn row_index(&self, line_index: usize, wrap_index: usize) -> (r: Option<usize>)
        ensures
            match r {
                Some(i) => i < self.spec_rows().len() && self.spec_rows()[i as int].line_index == line_index
                    && self.spec_rows()[i as int].wrap_index == wrap_index && forall|j: int|
                    0 <= j < i ==> !((#[trigger] self.spec_rows()[j]).line_index == line_index
                        && self.spec_rows()[j].wrap_index == wrap_index),
                None => forall|j: int|
                    0 <= j < self.spec_rows().len() ==> !((#[trigger] self.spec_rows()[j]).line_index
                        == line_index && self.spec_rows()[j].wrap_index == wrap_index),
            },
    {
        let mut i: usize = 0;
        while i < self.rows.len()
            invariant
                i <= self.rows@.len(),
                forall|j: int|
                    0 <= j < i ==> !((#[trigger] self.rows@[j]).line_index == line_index && self.rows@[j].wrap_index
                        == wrap_index),
            decreases self.rows@.len() - i,
        {
            if self.rows[i].line_index == line_index && self.rows[i].wrap_index == wrap_index {
                return Some(i);
            }
            i += 1;
        }
        None
    }

    /// Rebuild the rows from the top of the document, as while the first
    /// screen is still filling in from streamed input.
    pub fn refill_from_top(&mut self, doc: &Document)
        requires
            doc.wf(),
        ensures
            final(self).fits(doc),
            final(self).spec_size() == old(self).spec_size(),
            final(self).spec_rows() == forward(doc, old(self).spec_size().width, (0, 0), old(self).spec_size().height),
    {
        self.rows = list_forward(doc, self.size.width, (0, 0), self.size.height);
        proof {
            Self::lemma_forward_fits(doc, self.size.width, (0, 0), self.size.height);
        }
    }

    /// Take a new size, keeping the top row where it is.
    pub fn resize(&mut self, doc: &Document, size: ViewportSize)
        requires
            doc.wf(),
            old(self).spec_rows().len() > 0,
        ensures
            final(self).fits(doc),
            final(self).spec_size() == size,
            final(self).spec_rows() == forward(
                doc,
                size.width,
                (old(self).spec_rows()[0].line_index, old(self).spec_rows()[0].wrap_index),
                size.height,
            ),
    {
        let top = (self.rows[0].line_index, self.rows[0].wrap_index);
        self.rows = list_forward(doc, size.width, top, size.height);
        self.size = size;
        proof {
            Self::lemma_forward_fits(doc, size.width, top, size.height);
        }
    }

    /// Prepend up to `n_rows` rows from above and drop as many from the end.
    /// Returns the number of rows scrolled.
    pub fn scroll_up(&mut self, doc: &Document, n_rows: usize) -> (r: usize)
        requires
            doc.wf(),
            old(self).fits(doc),
            n_rows <= old(self).spec_size().height,
            old(self).spec_rows().len() > 0 ==> backward(
                doc,
                old(self).spec_size().width,
                DocPos::Before(&old(self).spec_rows()[0]),
                n_rows,
            ).len() <= old(self).spec_rows().len(),
        ensures
            final(self).fits(doc),
            final(self).spec_size() == old(self).spec_size(),
            ({
                let rows = old(self).spec_rows();
                if n_rows == 0 || rows.len() == 0 {
                    r == 0 && final(self).spec_rows() == rows
                } else {
                    let added = backward(doc, old(self).spec_size().width, DocPos::Before(&rows[0]), n_rows);
                    &&& r == added.len()
                    &&& final(self).spec_rows() == added + rows.take(rows.len() - added.len())
                }
            }),
    {
        if n_rows == 0 || self.rows.len() == 0 {
            return 0;
        }
        let ghost lines = doc.spec_lines();
        let first = self.rows[0];
        proof {
            assert(row_in_doc(lines, self.size.width as nat, self.rows@[0]));
            lemma_row_in_doc_position_ok(lines, self.size.width as nat, first);
        }
        let new_rows = list_backward(doc, self.size.width, DocPos::Before(&first), n_rows);
        let scroll_rows = new_rows.len();
        let keep = self.rows.len() - scroll_rows;
        let mut combined = new_rows;
        let mut i: usize = 0;
        let ghost added = combined@;
        while i < keep
            invariant
                i <= keep <= self.rows@.len(),
                combined@ == added + self.rows@.take(i as int),
            decreases keep - i,
        {
            combined.push(self.rows[i]);
            i += 1;
            proof {
                assert(combined@ =~= added + self.rows@.take(i as int));
            }
        }
        proof {
            Self::lemma_backward_fits(doc, self.size.width, DocPos::Before(&first), n_rows);
            lemma_all_in_doc_subrange(lines, self.size.width as nat, self.rows@, 0, keep as int);
            assert(self.rows@.take(keep as int) =~= self.rows@.subrange(0, keep as int));
            lemma_all_in_doc_concat(lines, self.size.width as nat, added, self.rows@.take(keep as int));
        }
        self.rows = combined;
        scroll_rows
    }

    /// Append up to `n_rows` rows from below and drop as many from the start.
    /// Returns the number of rows scrolled.
    pub fn scroll_down(&mut self, doc: &Document, n_rows: usize) -> (r: usize)
        requires
            doc.wf(),
            old(self).fits(doc),
            n_rows <= old(self).spec_size().height,
            old(self).spec_rows().len() > 0 ==> forward(
                doc,
                old(self).spec_size().width,
                (
                    old(self).spec_rows().last().line_index,
                    (old(self).spec_rows().last().wrap_index + 1) as usize,
                ),
                n_rows,
            ).len() <= old(self).spec_rows().len(),
        ensures
            final(self).fits(doc),
            final(self).spec_size() == old(self).spec_size(),
            ({
                let rows = old(self).spec_rows();
                if n_rows == 0 || rows.len() == 0 {
                    r == 0 && final(self).spec_rows() == rows
                } else {
                    let added = forward(
                        doc,
                        old(self).spec_size().width,
                        (rows.last().line_index, (rows.last().wrap_index + 1) as usize),
                        n_rows,
                    );
                    &&& r == added.len()
                    &&& final(self).spec_rows() == rows.skip(added.len() as int) + added
                }
            }),
    {
        if n_rows == 0 || self.rows.len() == 0 {
            return 0;
        }
        let ghost lines = doc.spec_lines();
        let last = self.rows[self.rows.len() - 1];
        proof {
            assert(row_in_doc(lines, self.size.width as nat, self.rows@[self.rows@.len() - 1]));
            doc.lemma_wf();
            lines[last.line_index as int].lemma_wrap_shape(self.size.width as nat);
        }
        let new_rows = list_forward(doc, self.size.width, (last.line_index, last.wrap_index + 1), n_rows);
        let scroll_rows = new_rows.len();
        let mut combined: Vec<Row> = Vec::new();
        let mut i: usize = scroll_rows;
        while i < self.rows.len()
            invariant
                scroll_rows <= i <= self.rows@.len(),
                combined@ == self.rows@.subrange(scroll_rows as int, i as int),
            decreases self.rows@.len() - i,
        {
            combined.push(self.rows[i]);
            i += 1;
            proof {
                assert(combined@ =~= self.rows@.subrange(scroll_rows as int, i as int));
            }
        }
        let ghost kept = combined@;
        let mut j: usize = 0;
        while j < new_rows.len()
            invariant
                j <= new_rows@.len(),
                combined@ == kept + new_rows@.take(j as int),
            decreases new_rows@.len() - j,
        {
            combined.push(new_rows[j]);
            j += 1;
            proof {
                assert(combined@ =~= kept + new_rows@.take(j as int));
            }
        }
        proof {
            assert(new_rows@.take(j as int) =~= new_rows@);
            assert(kept =~= self.rows@.skip(scroll_rows as int));
            Self::lemma_forward_fits(doc, self.size.width, (last.line_index, (last.wrap_index + 1) as usize), n_rows);
            lemma_all_in_doc_subrange(lines, self.size.width as nat, self.rows@, scroll_rows as int, self.rows@.len() as int);
            lemma_all_in_doc_concat(lines, self.size.width as nat, kept, new_rows@);
        }
        self.rows = combined;
        scroll_rows
    }

    /// Rebuild the rows around line `line_index`, placing it `row_offset`
    /// rows down, or lower when the document ends before the page does.
    /// Returns the index of the line's first row among the rows.
    pub fn jump_to(&mut self, doc: &Document, line_index: usize, row_offset: usize) -> (r: usize)
        requires
            doc.wf(),
            line_index < doc.spec_lines().len(),
            old(self).spec_size().height > 0,
        ensures
            final(self).fits(doc),
            final(self).spec_size() == old(self).spec_size(),
            ({
                let size = old(self).spec_size();
                let after = forward(doc, size.width, (line_index, 0), size.height);
                let pad = jump_padding(size.height, after.len() as int, row_offset);
                let before = backward(doc, size.width, DocPos::Before(&after[0]), pad as usize);
                &&& r == before.len()
                &&& final(self).spec_rows() == take_at_most(before + after, size.height as int)
            }),
    {
        let ghost lines = doc.spec_lines();
        let height = self.size.height;
        let width = self.size.width;
        proof {
            doc.lemma_wf();
            lemma_wrap_positions(lines, width as nat, line_index as int);
            assert(rows_starting_at(lines, width as nat, line_index as int, 0).len() > 0) by {
                let ws = wrap_of(lines, width as nat, line_index as int);
                assert(crate::pager::rows::skip_at_most(ws, 0) =~= ws);
            }
        }
        let rows_after_line = list_forward(doc, width, (line_index, 0), height);
        let fill = height.saturating_sub(rows_after_line.len());
        let wanted = if row_offset >= fill {
            row_offset
        } else {
            fill
        };
        let cap = height.saturating_sub(1);
        let padding = if cap <= wanted {
            cap
        } else {
            wanted
        };
        proof {
            Self::lemma_forward_fits(doc, width, (line_index, 0), height);
            assert(row_in_doc(lines, width as nat, rows_after_line@[0]));
            lemma_row_in_doc_position_ok(lines, width as nat, rows_after_line@[0]);
        }
        let first = rows_after_line[0];
        let rows_before_line = list_backward(doc, width, DocPos::Before(&first), padding);
        let final_line_row_index = rows_before_line.len();
        let mut combined = rows_before_line;
        let ghost before = combined@;
        let mut j: usize = 0;
        while j < rows_after_line.len() && combined.len() < height
            invariant
                j <= rows_after_line@.len(),
                combined@ == before + rows_after_line@.take(j as int),
                combined@.len() == before.len() + j,
            decreases rows_after_line@.len() - j,
        {
            combined.push(rows_after_line[j]);
            j += 1;
            proof {
                assert(combined@ =~= before + rows_after_line@.take(j as int));
            }
        }
        let mut out: Vec<Row> = Vec::new();
        let mut k: usize = 0;
        while k < combined.len() && k < height
            invariant
                k <= combined@.len(),
                k <= height,
                out@ == combined@.take(k as int),
                combined@ == before + rows_after_line@.take(j as int),
                j <= rows_after_line@.len(),
                j == rows_after_line@.len() || combined@.len() >= height,
            decreases combined@.len() - k,
        {
            out.push(combined[k]);
            k += 1;
            proof {
                assert(out@ =~= combined@.take(k as int));
            }
        }
        proof {
            let all = before + rows_after_line@;
            Self::lemma_backward_fits(doc, width, DocPos::Before(&first), padding);
            lemma_all_in_doc_concat(lines, width as nat, before, rows_after_line@);
            assert(out@ =~= take_at_most(all, height as int)) by {
                if height as int <= all.len() {
                    assert(k == height);
                    assert forall|q: int| 0 <= q < k implies out@[q] == all[q] by {
                        if q < before.len() {
                        } else {
                            assert(combined@[q] == rows_after_line@.take(j as int)[q - before.len()]);
                        }
                    }
                } else {
                    assert(j == rows_after_line@.len());
                    assert(rows_after_line@.take(j as int) =~= rows_after_line@);
                    assert(k == combined@.len());
                    assert(combined@.take(k as int) =~= combined@);
                }
            }
            lemma_take_in_doc(lines, width as nat, all, height as int);
        }
        self.rows = out;
        final_line_row_index
    }

    /// Fill the page backward from the end, so the last line is at the bottom.
    pub fn jump_to_end(&mut self, doc: &Document)
        requires
            doc.wf(),
        ensures
            final(self).fits(doc),
            final(self).spec_size() == old(self).spec_size(),
            final(self).spec_rows() == backward(doc, old(self).spec_size().width, DocPos::End, old(self).spec_size().height),
    {
        self.rows = list_backward(doc, self.size.width, DocPos::End, self.size.height);
        proof {
            Self::lemma_backward_fits(doc, self.size.width, DocPos::End, self.size.height);
        }
    }
}

} // verus!
