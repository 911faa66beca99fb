//! The header: a fixed number of lines from the start of the document,
//! always shown at the top of the page. Only a change of width rewraps it.

use vstd::prelude::*;

use crate::document::Document;
use crate::line::Row;
use crate::pager::rows::{from_lines, rows_between, take_at_most};
use crate::pager::ViewportSize;

verus! {

/// The rows of the first `num_lines` lines at `size`, at most one row less
/// than the viewport so that some content always shows.
pub open spec fn pinned_rows(doc: &Document, size: ViewportSize, num_lines: usize) -> Seq<Row> {
    let max_height = if size.height > 0 {
        size.height - 1
    } else {
        0
    };
    take_at_most(rows_between(doc.spec_lines(), size.width as nat, 0, num_lines as int), max_height)
}

/// The first lines of the document, wrapped at the viewport width.
#[derive(Debug)]
pub struct Header {
    num_lines: usize,
    rows: Vec<Row>,
}

fn build_rows(doc: &Document, size: &ViewportSize, num_lines: usize) -> (r: Vec<Row>)
    requires
        doc.wf(),
    ensures
        r@ == pinned_rows(doc, *size, num_lines),
{
    let max_height = size.height.saturating_sub(1);
    from_lines(doc, size.width, 0..num_lines, max_height)
}

impl Header {
    pub closed spec fn spec_num_lines(&self) -> usize {
        self.num_lines
    }

    pub closed spec fn spec_rows(&self) -> Seq<Row> {
        self.rows@
    }

    /// The header of the first `num_lines` lines of `doc` at `size`.
    pub fn new(doc: &Document, size: &ViewportSize, num_lines: usize) -> (r: Header)
        requires
            doc.wf(),
        ensures
            r.spec_num_lines() == num_lines,
            r.spec_rows() == pinned_rows(doc, *size, num_lines),
    {
        let rows = build_rows(doc, size, num_lines);
        Header { num_lines, rows }
    }

    /// The rows of the header.
    pub fn rows(&self) -> (r: &[Row])
        ensures
            r@ == self.spec_rows(),
    {
        self.rows.as_slice()
    }

    /// Rewrap the header for a new size.
    pub fn resize(&mut self, doc: &Document, size: &ViewportSize)
        requires
            doc.wf(),
        ensures
            final(self).spec_num_lines() == old(self).spec_num_lines(),
            final(self).spec_rows() == pinned_rows(doc, *size, old(self).spec_num_lines()),
    {
        self.rows = build_rows(doc, size, self.num_lines);
    }

    /// The rows the header takes on screen: more than its lines when they
    /// wrap, fewer when it is cut to fit or the document is shorter.
    pub fn height(&self) -> (r: usize)
        ensures
            r == self.spec_rows().len(),
    {
        self.rows.len()
    }

    /// The number of lines configured as the header, shown or not.
    pub fn num_lines(&self) -> (r: usize)
        ensures
            r == self.spec_num_lines(),
    {
        self.num_lines
    }

    /// Whether line `line_index` is one of the configured header lines.
    pub fn contains(&self, line_index: usize) -> (r: bool)
        ensures
            r == (line_index < self.spec_num_lines()),
    {
        line_index < self.num_lines
    }
}

} // verus!
