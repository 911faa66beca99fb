//! The global header: a fixed number of lines from the start of the document,
//! always shown at the top of the page.

use vstd::prelude::*;

use crate::document::Document;
use crate::line::Row;
use crate::pager::rows::{from_lines, rows_between, take_at_most};
use crate::pager::ViewportSize;

verus! {

/// The header rows for `num_lines` lines at `size`: at most one row less than
/// the viewport, so the header never covers the whole page.
pub open spec fn header_rows_spec(doc: &Document, size: ViewportSize, num_lines: usize) -> Seq<Row> {
    take_at_most(rows_between(doc.spec_lines(), size.width as nat, 0, num_lines as int), size.height - 1)
}

/// The first `num_lines` lines of the document, wrapped at the viewport width.
/// Only a resize changes the rows.
#[derive(Debug)]
pub struct GlobalHeader {
    num_lines: usize,
    rows: Vec<Row>,
}

fn build_rows(doc: &Document, size: &ViewportSize, num_lines: usize) -> (r: Vec<Row>)
    requires
        doc.wf(),
        size.height >= 1,
    ensures
        r@ == header_rows_spec(doc, *size, num_lines),
{
    let max_height = size.height - 1;
    from_lines(doc, size.width, 0..num_lines, max_height)
}

impl GlobalHeader {
    pub closed spec fn spec_num_lines(&self) -> usize {
        self.num_lines
    }

    pub closed spec fn spec_rows(&self) -> Seq<Row> {
        self.rows@
    }

    pub fn new(doc: &Document, size: &ViewportSize, num_lines: usize) -> (r: GlobalHeader)
        requires
            doc.wf(),
            size.height >= 1,
        ensures
            r.spec_num_lines() == num_lines,
            r.spec_rows() == header_rows_spec(doc, *size, num_lines),
    {
        let rows = build_rows(doc, size, num_lines);
        GlobalHeader { num_lines, rows }
    }

    pub fn rows(&self) -> (r: &[Row])
        ensures
            r@ == self.spec_rows(),
    {
        self.rows.as_slice()
    }

    /// Rewrap the header lines for a new size.
    pub fn resize(&mut self, doc: &Document, size: &ViewportSize)
        requires
            doc.wf(),
            size.height >= 1,
        ensures
            final(self).spec_num_lines() == old(self).spec_num_lines(),
            final(self).spec_rows() == header_rows_spec(doc, *size, old(self).spec_num_lines()),
    {
        self.rows = build_rows(doc, size, self.num_lines);
    }

    /// Rows the header takes.
    pub fn height(&self) -> (r: usize)
        ensures
            r == self.spec_rows().len(),
    {
        self.rows.len()
    }

    /// Whether line `line_index` is one of the header lines.
    pub fn contains(&self, line_index: usize) -> (r: bool)
        ensures
            r == (line_index < self.spec_num_lines()),
    {
        line_index < self.num_lines
    }
}

} // verus!
