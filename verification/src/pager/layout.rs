//! Composes the page: which document rows the viewport spans from an anchor,
//! the global header pinned above them, and the sticky heading of the section
//! the page is in.

use vstd::prelude::*;

use crate::document::Document;
use crate::line::{Line, Row};
use crate::options::{HeadingOptions, Options};
use crate::pager::rows::{
    all_in_doc, from_lines, indexed, last_at_most, lemma_rows_preceding_from, lemma_rows_starting_at_in_doc, lemma_wrap_positions,
    lines_wf, rows_from, skip_at_most,
    lemma_rows_upto_in_doc, list_backward, list_forward, position_ok, rows_preceding,
    rows_between, rows_starting_at, rows_upto, take_at_most, wrap_of, DocPos,
};
use crate::pager::ViewportSize;
use crate::query::regex_find_all;

verus! {

/// A row position in the document: `(line_index, wrap_index)`.
pub type RowPos = (usize, usize);

/// Everything needed to compose a [`Frame`] except the anchor. It changes
/// only on resize.
#[derive(Debug)]
pub struct Layout {
    pub size: ViewportSize,
    /// Number of leading document lines pinned as the global header.
    pub header_lines: usize,
    pub heading: Option<HeadingOptions>,
}

/// Rows the global header may occupy: all but one row of the viewport.
pub open spec fn max_header_height(height: usize) -> nat {
    if height >= 1 {
        (height - 1) as nat
    } else {
        0
    }
}

/// Rows the sticky heading may occupy below a header of `header_height` rows,
/// always leaving one row for content.
pub open spec fn max_heading_height(height: usize, header_height: nat) -> nat {
    if height >= header_height + 1 {
        (height - header_height - 1) as nat
    } else {
        0
    }
}

impl Layout {
    pub fn new(options: Options, size: ViewportSize) -> (r: Layout)
        ensures
            r.size == size,
            r.header_lines == options.header,
            r.heading == options.heading,
    {
        Layout { size, header_lines: options.header, heading: options.heading }
    }

    pub fn size(&self) -> (r: &ViewportSize)
        ensures
            *r == self.size,
    {
        &self.size
    }

    /// Whether `line_index` falls in the configured header range.
    pub fn is_header_line(&self, line_index: usize) -> (r: bool)
        ensures
            r == (line_index < self.header_lines),
    {
        line_index < self.header_lines
    }

    fn max_header_height(&self) -> (r: usize)
        ensures
            r == max_header_height(self.size.height),
    {
        if self.size.height >= 1 {
            self.size.height - 1
        } else {
            0
        }
    }

    fn max_heading_height(&self, header_height: usize) -> (r: usize)
        ensures
            r == max_heading_height(self.size.height, header_height as nat),
    {
        let h = self.size.height;
        if h >= header_height && h - header_height >= 1 {
            h - header_height - 1
        } else {
            0
        }
    }
}

/// Whether line `i` of the document has a match of `pattern`.
pub open spec fn line_matches(lines: Seq<Line>, pattern: Seq<char>, i: int) -> bool {
    regex_find_all(pattern, lines[i].spec_plain()).len() > 0
}

/// Line `i` starts a heading block of `num_lines` lines: it matches, and no
/// later line of the block does.
pub open spec fn heading_start(lines: Seq<Line>, pattern: Seq<char>, num_lines: usize, i: int) -> bool {
    &&& 0 <= i < lines.len()
    &&& line_matches(lines, pattern, i)
    &&& forall|k: int|
        1 <= k < num_lines && i + k < lines.len() ==> !line_matches(lines, pattern, #[trigger] (i + k))
}

/// The last line in `lo..=hi` that starts a heading block.
pub open spec fn nearest_heading_start(
    lines: Seq<Line>,
    pattern: Seq<char>,
    num_lines: usize,
    lo: int,
    hi: int,
) -> Option<int>
    decreases hi - lo + 1,
{
    if hi < lo {
        None
    } else if heading_start(lines, pattern, num_lines, hi) {
        Some(hi)
    } else {
        nearest_heading_start(lines, pattern, num_lines, lo, hi - 1)
    }
}

/// The nearest heading start found in `lo..=hi` starts a heading block, and
/// no line after it up to `hi` does; without one, no line of `lo..=hi` does.
pub proof fn lemma_nearest_heading_start(lines: Seq<Line>, pattern: Seq<char>, num_lines: usize, lo: int, hi: int)
    ensures
        nearest_heading_start(lines, pattern, num_lines, lo, hi) matches Some(s) ==> {
            &&& lo <= s <= hi
            &&& heading_start(lines, pattern, num_lines, s)
            &&& forall|x: int| s < x <= hi ==> !#[trigger] heading_start(lines, pattern, num_lines, x)
        },
        nearest_heading_start(lines, pattern, num_lines, lo, hi) is None ==> forall|x: int|
            lo <= x <= hi ==> !#[trigger] heading_start(lines, pattern, num_lines, x),
    decreases hi - lo + 1,
{
    if hi >= lo && !heading_start(lines, pattern, num_lines, hi) {
        lemma_nearest_heading_start(lines, pattern, num_lines, lo, hi - 1);
    }
}

/// A heading start in `lo..=hi` with no other after it up to `hi` is the
/// nearest one.
pub proof fn lemma_nearest_heading_start_is(
    lines: Seq<Line>,
    pattern: Seq<char>,
    num_lines: usize,
    lo: int,
    hi: int,
    s: int,
)
    requires
        lo <= s <= hi,
        heading_start(lines, pattern, num_lines, s),
        forall|x: int| s < x <= hi ==> !#[trigger] heading_start(lines, pattern, num_lines, x),
    ensures
        nearest_heading_start(lines, pattern, num_lines, lo, hi) == Some(s),
    decreases hi - lo + 1,
{
    if hi > s {
        assert(!heading_start(lines, pattern, num_lines, hi));
        lemma_nearest_heading_start_is(lines, pattern, num_lines, lo, hi - 1, s);
    }
}

/// No viewport row of `i..end` starting another section, none is found.
pub proof fn lemma_no_next_section_row(
    lines: Seq<Line>,
    layout: Layout,
    rows: Seq<Row>,
    block_start: int,
    i: int,
    end: int,
)
    requires
        forall|k: int| i <= k < end ==> !#[trigger] starts_section(lines, layout, rows, block_start, k),
    ensures
        next_section_row(lines, layout, rows, block_start, i, end) is None,
    decreases end - i,
{
    if i < end {
        lemma_no_next_section_row(lines, layout, rows, block_start, i + 1, end);
    }
}

/// `a + b`, capped at `usize::MAX`.
pub open spec fn sat_add(a: int, b: int) -> int {
    if a + b > usize::MAX {
        usize::MAX as int
    } else {
        a + b
    }
}

/// The heading block the line `at_line` belongs to: its start line and its
/// rows, capped to the room below a header of `header_height` rows. Lines of
/// the global header are never candidates.
pub open spec fn heading_block(lines: Seq<Line>, layout: Layout, header_height: nat, at_line: int) -> Option<
    (int, Seq<Row>),
> {
    match layout.heading {
        None => None,
        Some(h) => {
            let max_height = max_heading_height(layout.size.height, header_height);
            if max_height == 0 || at_line < layout.header_lines {
                None
            } else {
                match nearest_heading_start(
                    lines,
                    h.pattern@,
                    h.num_lines,
                    layout.header_lines as int,
                    at_line,
                ) {
                    None => None,
                    Some(start) => {
                        let rows = take_at_most(
                            rows_between(
                                lines,
                                layout.size.width as nat,
                                start,
                                sat_add(start, h.num_lines as int),
                            ),
                            max_height as int,
                        );
                        if rows.len() == 0 {
                            None
                        } else {
                            Some((start, rows))
                        }
                    },
                }
            }
        },
    }
}

/// A section row found in `i..end` lies in that range.
pub proof fn lemma_next_section_row_range(
    lines: Seq<Line>,
    layout: Layout,
    rows: Seq<Row>,
    block_start: int,
    i: int,
    end: int,
)
    ensures
        next_section_row(lines, layout, rows, block_start, i, end) matches Some(j) ==> i <= j < end,
    decreases end - i,
{
    if i < end {
        lemma_next_section_row_range(lines, layout, rows, block_start, i + 1, end);
    }
}

/// Row `i` of the viewport starts a section other than the pinned one.
pub open spec fn starts_section(
    lines: Seq<Line>,
    layout: Layout,
    rows: Seq<Row>,
    block_start: int,
    i: int,
) -> bool {
    match layout.heading {
        None => false,
        Some(h) => {
            &&& rows[i].wrap_index == 0
            &&& rows[i].line_index != block_start
            &&& rows[i].line_index >= layout.header_lines
            &&& heading_start(lines, h.pattern@, h.num_lines, rows[i].line_index as int)
        },
    }
}

/// The first viewport row in `i..end` that starts another section.
pub open spec fn next_section_row(
    lines: Seq<Line>,
    layout: Layout,
    rows: Seq<Row>,
    block_start: int,
    i: int,
    end: int,
) -> Option<int>
    decreases end - i,
{
    if i >= end {
        None
    } else if starts_section(lines, layout, rows, block_start, i) {
        Some(i)
    } else {
        next_section_row(lines, layout, rows, block_start, i + 1, end)
    }
}

/// How many rows the pinned heading is pushed up by: one for every row the
/// next section has risen into the band the overlay covers.
pub open spec fn push_up(
    lines: Seq<Line>,
    layout: Layout,
    rows: Seq<Row>,
    header_height: int,
    block_start: int,
    block_len: int,
) -> int {
    match layout.heading {
        None => 0,
        Some(h) => {
            let overlay = header_height + block_len;
            let end = if overlay < rows.len() {
                overlay
            } else {
                rows.len() as int
            };
            match next_section_row(lines, layout, rows, block_start, header_height, end) {
                Some(i) => overlay - i,
                None => 0,
            }
        },
    }
}

/// The viewport rows for `anchor`: `height` rows reading forward from it,
/// pulled back toward the start of the document when too few rows are left.
pub open spec fn fill_rows(lines: Seq<Line>, width: nat, height: usize, anchor: RowPos) -> Seq<Row> {
    let fwd = take_at_most(
        rows_starting_at(lines, width, anchor.0 as int, anchor.1 as int),
        height as int,
    );
    if fwd.len() >= height {
        fwd
    } else if fwd.len() == 0 {
        last_at_most(rows_upto(lines, width, lines.len() as int), height as int)
    } else {
        last_at_most(
            rows_preceding(lines, width, fwd[0].line_index as int, fwd[0].wrap_index as int),
            height - fwd.len(),
        ) + fwd
    }
}

/// The global header rows.
pub open spec fn header_rows(lines: Seq<Line>, layout: Layout) -> Seq<Row> {
    take_at_most(
        rows_between(lines, layout.size.width as nat, 0, layout.header_lines as int),
        max_header_height(layout.size.height) as int,
    )
}

/// The heading rows as displayed for viewport rows `rows`.
pub open spec fn heading_rows(lines: Seq<Line>, layout: Layout, rows: Seq<Row>, header_height: int) -> Seq<
    Row,
> {
    if header_height < rows.len() {
        match heading_block(lines, layout, header_height as nat, rows[header_height].line_index as int) {
            None => Seq::empty(),
            Some((start, block)) => block.skip(
                push_up(lines, layout, rows, header_height, start, block.len() as int),
            ),
        }
    } else {
        Seq::empty()
    }
}

/// A composed page: the viewport rows from the anchor, of which the first
/// [`Frame::overlay_height`] are covered by the pinned header and heading.
#[derive(Debug)]
pub struct Frame {
    rows: Vec<Row>,
    header: Vec<Row>,
    heading: Vec<Row>,
}

impl Frame {
    /// The pinned rows never outnumber what a `usize` counts.
    #[verifier::type_invariant]
    closed spec fn overlay_fits(&self) -> bool {
        self.header@.len() + self.heading@.len() <= usize::MAX
    }

    pub closed spec fn spec_rows(&self) -> Seq<Row> {
        self.rows@
    }

    pub closed spec fn spec_header(&self) -> Seq<Row> {
        self.header@
    }

    pub closed spec fn spec_heading(&self) -> Seq<Row> {
        self.heading@
    }

    /// The frame composed for `anchor`.
    pub open spec fn composed(&self, lines: Seq<Line>, layout: Layout, anchor: RowPos) -> bool {
        &&& self.spec_header() == header_rows(lines, layout)
        &&& self.spec_rows() == fill_rows(lines, layout.size.width as nat, layout.size.height, anchor)
        &&& self.spec_heading() == heading_rows(
            lines,
            layout,
            self.spec_rows(),
            self.spec_header().len() as int,
        )
    }

    /// The anchor this frame was composed from, after clamping.
    pub fn anchor(&self) -> (r: RowPos)
        ensures
            self.spec_rows().len() > 0 ==> r == (
                self.spec_rows()[0].line_index,
                self.spec_rows()[0].wrap_index,
            ),
            self.spec_rows().len() == 0 ==> r == (0usize, 0usize),
    {
        if self.rows.len() > 0 {
            (self.rows[0].line_index, self.rows[0].wrap_index)
        } else {
            (0, 0)
        }
    }

    /// All document rows the viewport spans, including the covered ones.
    pub fn rows(&self) -> (r: &[Row])
        ensures
            r@ == self.spec_rows(),
    {
        self.rows.as_slice()
    }

    pub fn header(&self) -> (r: &[Row])
        ensures
            r@ == self.spec_header(),
    {
        self.header.as_slice()
    }

    pub fn heading(&self) -> (r: &[Row])
        ensures
            r@ == self.spec_heading(),
    {
        self.heading.as_slice()
    }

    /// Number of document rows hidden behind the sticky area.
    pub fn overlay_height(&self) -> (r: usize)
        ensures
            r == self.spec_header().len() + self.spec_heading().len(),
    {
        proof {
            use_type_invariant(self);
        }
        self.header.len() + self.heading.len()
    }

    /// The document rows visible below the sticky area.
    pub fn content(&self) -> (r: &[Row])
        ensures
            r@ == self.spec_content(),
    {
        let overlay = self.overlay_height();
        let start = if overlay < self.rows.len() {
            overlay
        } else {
            self.rows.len()
        };
        vstd::slice::slice_subrange(self.rows.as_slice(), start, self.rows.len())
    }

    /// The rows visible below the sticky area.
    pub open spec fn spec_content(&self) -> Seq<Row> {
        let overlay = self.spec_header().len() + self.spec_heading().len();
        if overlay < self.spec_rows().len() {
            self.spec_rows().skip(overlay as int)
        } else {
            Seq::empty()
        }
    }

    /// The visible rows that form a contiguous range of the document, in
    /// reading order. The sticky rows are included only while they sit right
    /// above the content in the document.
    pub fn contiguous_rows(&self) -> (r: Vec<Row>)
        ensures
            r@ == contiguous(self.spec_header(), self.spec_heading(), self.spec_content()),
    {
        let content = self.content();
        let top_line: usize;
        if content.len() > 0 {
            top_line = content[0].line_index;
        } else if self.heading.len() > 0 {
            top_line = self.heading[0].line_index;
        } else {
            let mut out: Vec<Row> = Vec::new();
            let mut i: usize = 0;
            while i < self.header.len()
                invariant
                    i <= self.header@.len(),
                    out@ == self.header@.take(i as int),
                decreases self.header@.len() - i,
            {
                out.push(self.header[i]);
                i += 1;
                proof {
                    assert(out@ =~= self.header@.take(i as int));
                }
            }
            proof {
                assert(self.header@.take(i as int) =~= self.header@);
            }
            return out;
        }
        let heading_adjacent = if self.heading.len() > 0 {
            self.heading[self.heading.len() - 1].line_index >= top_line
                || self.heading[self.heading.len() - 1].line_index + 1 >= top_line
        } else {
            true
        };
        let heading_top = if self.heading.len() > 0 {
            self.heading[0].line_index
        } else {
            top_line
        };
        let above_line = if heading_adjacent {
            heading_top
        } else {
            top_line
        };
        let header_adjacent = if self.header.len() > 0 {
            self.header[self.header.len() - 1].line_index >= above_line
                || self.header[self.header.len() - 1].line_index + 1 >= above_line
        } else {
            true
        };
        let mut out: Vec<Row> = Vec::new();
        if header_adjacent && heading_adjacent {
            append_rows(&mut out, self.header.as_slice());
        }
        if heading_adjacent {
            append_rows(&mut out, self.heading.as_slice());
        }
        append_rows(&mut out, content);
        out
    }
}

/// Line `l` directly follows (or is covered by) a sticky run ending at `last`.
pub open spec fn adjacent(last: Row, l: int) -> bool {
    last.line_index + 1 >= l
}

/// The rows of a page that form one contiguous run of the document.
pub open spec fn contiguous(header: Seq<Row>, heading: Seq<Row>, content: Seq<Row>) -> Seq<Row> {
    if content.len() == 0 && heading.len() == 0 {
        header
    } else {
        let top_line: int = if content.len() > 0 {
            content[0].line_index as int
        } else {
            heading[0].line_index as int
        };
        let heading_adjacent = heading.len() == 0 || adjacent(heading.last(), top_line);
        let above_line: int = if heading_adjacent && heading.len() > 0 {
            heading[0].line_index as int
        } else {
            top_line
        };
        let header_adjacent = header.len() == 0 || adjacent(header.last(), above_line);
        (if header_adjacent && heading_adjacent {
            header
        } else {
            Seq::empty()
        }) + (if heading_adjacent {
            heading
        } else {
            Seq::empty()
        }) + content
    }
}

fn append_rows(out: &mut Vec<Row>, rows: &[Row])
    ensures
        final(out)@ == old(out)@ + rows@,
{
    let mut i: usize = 0;
    while i < rows.len()
        invariant
            i <= rows@.len(),
            out@ == old(out)@ + rows@.take(i as int),
        decreases rows@.len() - i,
    {
        out.push(rows[i]);
        i += 1;
        proof {
            assert(out@ =~= old(out)@ + rows@.take(i as int));
        }
    }
    proof {
        assert(rows@.take(i as int) =~= rows@);
    }
}

/// Whether line `line_index` starts a heading block.
///
/// With a heading pattern matching a leading `#` and blocks of two lines, in
/// ```text
/// # title 1    <- not a start: `## title 2` follows within the block
/// ## title 2   <- not a start: `### title 3` follows within the block
/// ### title 3  <- a start
/// sentence 1   <- part of the block
/// ```
pub fn is_heading_start(doc: &Document, line_index: usize, options: &HeadingOptions) -> (r: bool)
    requires
        doc.wf(),
    ensures
        r == heading_start(doc.spec_lines(), options.pattern@, options.num_lines, line_index as int),
{
    let ghost lines = doc.spec_lines();
    let len = doc.line_count();
    match doc.line(line_index) {
        Some(line) => {
            if !line.has_match(&options.pattern) {
                return false;
            }
        },
        None => return false,
    }
    let mut i: usize = 1;
    while i < options.num_lines
        invariant
            doc.wf(),
            lines == doc.spec_lines(),
            len == lines.len(),
            line_index < len,
            1 <= i,
            line_matches(lines, options.pattern@, line_index as int),
            forall|k: int|
                1 <= k < i && line_index + k < lines.len() ==> !line_matches(
                    lines,
                    options.pattern@,
                    #[trigger] (line_index + k),
                ),
        decreases options.num_lines - i,
    {
        if i >= len - line_index {
            return true;
        }
        let next = doc.line(line_index + i).unwrap();
        if next.has_match(&options.pattern) {
            return false;
        }
        i += 1;
    }
    true
}


/// A heading block resolved for a position, before the push-up is applied.
pub struct HeadingBlock {
    pub start_line: usize,
    pub rows: Vec<Row>,
}

/// Find the heading the line `at_line` belongs to: the nearest line at or
/// above it that starts a heading. Lines of the global header are never
/// candidates, since the header already shows them.
pub fn resolve_heading(doc: &Document, layout: &Layout, header_height: usize, at_line: usize) -> (r:
    Option<HeadingBlock>)
    requires
        doc.wf(),
    ensures
        match heading_block(doc.spec_lines(), *layout, header_height as nat, at_line as int) {
            None => r is None,
            Some((start, rows)) => r matches Some(b) && b.start_line == start && b.rows@ == rows,
        },
{
    let options = match &layout.heading {
        Some(o) => o,
        None => return None,
    };
    let max_height = layout.max_heading_height(header_height);
    if max_height == 0 || at_line < layout.header_lines {
        return None;
    }
    let ghost lines = doc.spec_lines();
    let ghost pat = options.pattern@;
    let nl = options.num_lines;
    let lo = layout.header_lines;
    let mut i = at_line;
    let mut found: Option<usize> = None;
    let mut exhausted = false;
    while found.is_none() && !exhausted
        invariant
            doc.wf(),
            lines == doc.spec_lines(),
            lo <= i <= at_line,
            found is None && !exhausted ==> nearest_heading_start(lines, pat, nl, lo as int, at_line as int)
                == nearest_heading_start(lines, pat, nl, lo as int, i as int),
            found is None && exhausted ==> nearest_heading_start(lines, pat, nl, lo as int, at_line as int) is None,
            found matches Some(f) ==> nearest_heading_start(lines, pat, nl, lo as int, at_line as int)
                == Some(f as int),
            pat == options.pattern@,
            nl == options.num_lines,
        decreases i + if found is None && !exhausted { 1int } else { 0int },
    {
        if is_heading_start(doc, i, options) {
            found = Some(i);
        } else if i == lo {
            exhausted = true;
        } else {
            i = i - 1;
        }
    }
    let start = match found {
        Some(f) => f,
        None => return None,
    };
    let end = if nl > usize::MAX - start {
        usize::MAX
    } else {
        start + nl
    };
    let rows = from_lines(doc, layout.size.width, start..end, max_height);
    if rows.len() == 0 {
        return None;
    }
    Some(HeadingBlock { start_line: start, rows })
}

/// How many rows the current heading must be shifted up by: the new heading
/// pushes it out one row for every row it has risen into the covered band.
pub fn push_up_offset(
    doc: &Document,
    layout: &Layout,
    rows: &[Row],
    header_height: usize,
    block: &HeadingBlock,
) -> (r: usize)
    requires
        doc.wf(),
        header_height + block.rows@.len() <= usize::MAX,
    ensures
        r == push_up(
            doc.spec_lines(),
            *layout,
            rows@,
            header_height as int,
            block.start_line as int,
            block.rows@.len() as int,
        ),
        r <= block.rows@.len(),
{
    proof {
        let overlay = header_height + block.rows@.len();
        let end = if overlay < rows@.len() { overlay as int } else { rows@.len() as int };
        lemma_next_section_row_range(doc.spec_lines(), *layout, rows@, block.start_line as int, header_height as int, end);
    }
    let options = match &layout.heading {
        Some(o) => o,
        None => return 0,
    };
    let ghost lines = doc.spec_lines();
    let overlay = header_height + block.rows.len();
    let end = if overlay < rows.len() {
        overlay
    } else {
        rows.len()
    };
    let mut i = header_height;
    while i < end
        invariant
            doc.wf(),
            lines == doc.spec_lines(),
            header_height <= i || end <= i,
            end <= rows@.len(),
            end <= overlay,
            end == if overlay < rows@.len() { overlay } else { rows@.len() as usize },
            overlay == header_height + block.rows@.len(),
            layout.heading == Some(*options),
            next_section_row(lines, *layout, rows@, block.start_line as int, header_height as int, end as int)
                == next_section_row(lines, *layout, rows@, block.start_line as int, i as int, end as int),
        decreases end - i,
    {
        let row = rows[i];
        if row.wrap_index == 0 && row.line_index != block.start_line && !layout.is_header_line(row.line_index)
        {
            if is_heading_start(doc, row.line_index, options) {
                proof {
                    assert(starts_section(lines, *layout, rows@, block.start_line as int, i as int));
                    assert(next_section_row(lines, *layout, rows@, block.start_line as int, i as int, end as int)
                        == Some(i as int));
                    assert(next_section_row(lines, *layout, rows@, block.start_line as int, header_height as int, end as int)
                        == Some(i as int));
                }
                return overlay - i;
            }
        }
        i += 1;
    }
    0
}

/// The viewport rows for `anchor`, pulling the anchor back toward the start
/// of the document when there are not enough rows left to fill the page.
pub fn fill_from(doc: &Document, layout: &Layout, anchor: RowPos) -> (r: Vec<Row>)
    requires
        doc.wf(),
    ensures
        r@ == fill_rows(doc.spec_lines(), layout.size.width as nat, layout.size.height, anchor),
{
    let ghost lines = doc.spec_lines();
    let width = layout.size.width;
    let height = layout.size.height;
    let rows = list_forward(doc, width, anchor, height);
    if rows.len() >= height {
        return rows;
    }
    let missing = height - rows.len();
    if rows.len() == 0 {
        return list_backward(doc, width, DocPos::End, height);
    }
    let first = rows[0];
    proof {
        doc.lemma_wf();
        lemma_rows_starting_at_in_doc(lines, width as nat, anchor.0 as int, anchor.1 as int);
        assert(rows@[0] == rows_starting_at(lines, width as nat, anchor.0 as int, anchor.1 as int)[0]);
    }
    let earlier = list_backward(doc, width, DocPos::Before(&first), missing);
    if earlier.len() == 0 {
        proof {
            assert(earlier@ + rows@ =~= rows@);
        }
        return rows;
    }
    let mut filled = earlier;
    append_rows(&mut filled, rows.as_slice());
    filled
}

/// Build the whole page for `anchor`: the global header, the viewport rows and
/// the sticky heading.
pub fn compose(doc: &Document, layout: &Layout, anchor: RowPos) -> (f: Frame)
    requires
        doc.wf(),
    ensures
        f.composed(doc.spec_lines(), *layout, anchor),
{
    let width = layout.size.width;
    let header = from_lines(doc, width, 0..layout.header_lines, layout.max_header_height());
    let rows = fill_from(doc, layout, anchor);
    let hh = header.len();
    let mut heading: Vec<Row> = Vec::new();
    if hh < rows.len() {
        let at_line = rows[hh].line_index;
        match resolve_heading(doc, layout, hh, at_line) {
            None => {},
            Some(block) => {
                proof {
                    assert(block.rows@.len() <= max_heading_height(layout.size.height, hh as nat));
                }
                let push = push_up_offset(doc, layout, rows.as_slice(), hh, &block);
                let mut i = push;
                while i < block.rows.len()
                    invariant
                        push <= i <= block.rows@.len() || i == push,
                        heading@ == block.rows@.subrange(push as int, i as int),
                    decreases block.rows@.len() - i,
                {
                    heading.push(block.rows[i]);
                    i += 1;
                    proof {
                        assert(heading@ =~= block.rows@.subrange(push as int, i as int));
                    }
                }
                proof {
                    assert(heading@ =~= block.rows@.skip(push as int));
                }
            },
        }
    }
    Frame { rows, header, heading }
}


/// Every viewport row of a composed frame is a row of the document.
pub proof fn lemma_fill_rows_in_doc(lines: Seq<Line>, width: nat, height: usize, anchor: RowPos)
    requires
        indexed(lines),
        crate::pager::rows::lines_wf(lines),
    ensures
        all_in_doc(lines, width, fill_rows(lines, width, height, anchor)),
{
    let all = rows_starting_at(lines, width, anchor.0 as int, anchor.1 as int);
    lemma_rows_starting_at_in_doc(lines, width, anchor.0 as int, anchor.1 as int);
    let fwd = take_at_most(all, height as int);
    assert(all_in_doc(lines, width, fwd)) by {
        assert forall|k: int| 0 <= k < fwd.len() implies crate::pager::rows::row_in_doc(
            lines,
            width,
            #[trigger] fwd[k],
        ) by {
            assert(fwd[k] == all[k]);
        }
    }
    if fwd.len() >= height {
    } else if fwd.len() == 0 {
        lemma_rows_upto_in_doc(lines, width, lines.len() as int);
        let up = rows_upto(lines, width, lines.len() as int);
        let e = last_at_most(up, height as int);
        assert forall|k: int| 0 <= k < e.len() implies crate::pager::rows::row_in_doc(
            lines,
            width,
            #[trigger] e[k],
        ) by {
            if height <= up.len() {
                assert(e[k] == up[k + up.len() - height]);
            }
        }
    } else {
        let first = fwd[0];
        let l = first.line_index as int;
        let w = first.wrap_index as int;
        let pre = rows_preceding(lines, width, l, w);
        assert(crate::pager::rows::row_in_doc(lines, width, first));
        assert(all_in_doc(lines, width, pre)) by {
            if w == 0 {
                if l == 0 || l - 1 >= lines.len() {
                } else {
                    lemma_rows_upto_in_doc(lines, width, l);
                }
            } else {
                lemma_rows_upto_in_doc(lines, width, l);
                crate::pager::rows::lemma_wrap_positions(lines, width, l);
                let a = rows_upto(lines, width, l);
                let b = wrap_of(lines, width, l).take(w);
                assert forall|k: int| 0 <= k < (a + b).len() implies crate::pager::rows::row_in_doc(
                    lines,
                    width,
                    #[trigger] (a + b)[k],
                ) by {
                    if k < a.len() {
                        assert((a + b)[k] == a[k]);
                    } else {
                        assert((a + b)[k] == b[k - a.len()]);
                        assert(b[k - a.len()] == wrap_of(lines, width, l)[k - a.len()]);
                    }
                }
            }
        }
        let e = last_at_most(pre, height - fwd.len());
        let r = e + fwd;
        assert forall|k: int| 0 <= k < r.len() implies crate::pager::rows::row_in_doc(
            lines,
            width,
            #[trigger] r[k],
        ) by {
            if k < e.len() {
                assert(r[k] == e[k]);
                if height - fwd.len() <= pre.len() {
                    assert(e[k] == pre[k + pre.len() - (height - fwd.len())]);
                }
            } else {
                assert(r[k] == fwd[k - e.len()]);
            }
        }
    }
}

/// Where the heading would sit for a page showing `at_line`.
pub struct HeadingPlacement {
    /// First document line the heading block displays.
    pub start_line: usize,
    /// One past the last document line the heading block displays.
    pub end_line: usize,
    /// Rows the heading block occupies on screen.
    pub height: usize,
}

/// The heading block for a page showing `at_line`: the lines it displays and
/// the rows it occupies.
pub fn heading_placement(doc: &Document, layout: &Layout, header_height: usize, at_line: usize) -> (r:
    Option<HeadingPlacement>)
    requires
        doc.wf(),
    ensures
        match heading_block(doc.spec_lines(), *layout, header_height as nat, at_line as int) {
            None => r is None,
            Some((start, rows)) => r matches Some(p) && p.start_line == start && p.end_line
                == sat_add(rows.last().line_index as int, 1) && p.height == rows.len(),
        },
{
    let block = match resolve_heading(doc, layout, header_height, at_line) {
        Some(b) => b,
        None => return None,
    };
    let last = block.rows[block.rows.len() - 1].line_index;
    let end = if last < usize::MAX {
        last + 1
    } else {
        usize::MAX
    };
    Some(HeadingPlacement { start_line: block.start_line, end_line: end, height: block.rows.len() })
}

/// Position of a row.
pub open spec fn pos_of(r: Row) -> RowPos {
    (r.line_index, r.wrap_index)
}

/// The anchor that puts line `line_index` exactly `rows_above` rows below the
/// top of the page; near the start of the document fewer rows may be
/// available, and the anchor lands on the first row.
pub fn anchor_above(doc: &Document, layout: &Layout, line_index: usize, rows_above: usize) -> (r:
    RowPos)
    requires
        doc.wf(),
    ensures
        ({
            let lines = doc.spec_lines();
            let earlier = last_at_most(
                rows_preceding(lines, layout.size.width as nat, line_index as int, 0),
                rows_above as int,
            );
            if rows_above == 0 || line_index >= lines.len() || earlier.len() == 0 {
                r == (line_index, 0usize)
            } else {
                r == pos_of(earlier[0])
            }
        }),
{
    let target = (line_index, 0);
    if rows_above == 0 {
        return target;
    }
    let width = layout.size.width;
    let line = match doc.line(line_index) {
        Some(l) => l,
        None => return target,
    };
    let wrapped = line.wrap(width);
    let first_row = wrapped[0];
    proof {
        doc.lemma_wf();
        line.lemma_wrap_shape(width as nat);
        assert(doc.spec_lines()[line_index as int].spec_index() == line_index);
    }
    let earlier = list_backward(doc, width, DocPos::Before(&first_row), rows_above);
    if earlier.len() > 0 {
        (earlier[0].line_index, earlier[0].wrap_index)
    } else {
        target
    }
}


/// Reading forward from the position of any row of `rows_from(lines, width, m)`
/// gives the rest of those rows, from that one on.
pub proof fn lemma_rows_from_resume(lines: Seq<Line>, width: nat, m: int, j: int)
    requires
        indexed(lines),
        lines_wf(lines),
        0 <= j < rows_from(lines, width, m).len(),
    ensures
        rows_starting_at(
            lines,
            width,
            rows_from(lines, width, m)[j].line_index as int,
            rows_from(lines, width, m)[j].wrap_index as int,
        ) == rows_from(lines, width, m).skip(j),
    decreases lines.len() - m,
{
    let all = rows_from(lines, width, m);
    let ws = wrap_of(lines, width, m);
    let rest = rows_from(lines, width, m + 1);
    assert(0 <= m < lines.len());
    assert(all == ws + rest);
    lemma_wrap_positions(lines, width, m);
    if j < ws.len() {
        assert(all[j] == ws[j]);
        assert(skip_at_most(ws, j) =~= ws.skip(j));
        assert(all.skip(j) =~= ws.skip(j) + rest);
    } else {
        lemma_rows_from_resume(lines, width, m + 1, j - ws.len());
        assert(all[j] == rest[j - ws.len()]);
        assert(all.skip(j) =~= rest.skip(j - ws.len()));
    }
}

/// Reading forward from the position of the `k`-th row read from `(l, w)`
/// gives the rows read from `(l, w)` without the first `k`.
pub proof fn lemma_resume(lines: Seq<Line>, width: nat, l: int, w: int, k: int)
    requires
        indexed(lines),
        lines_wf(lines),
        0 <= w,
        0 <= k < rows_starting_at(lines, width, l, w).len(),
    ensures
        rows_starting_at(
            lines,
            width,
            rows_starting_at(lines, width, l, w)[k].line_index as int,
            rows_starting_at(lines, width, l, w)[k].wrap_index as int,
        ) == rows_starting_at(lines, width, l, w).skip(k),
{
    let all = rows_starting_at(lines, width, l, w);
    assert(0 <= l < lines.len());
    let ws = wrap_of(lines, width, l);
    let a = skip_at_most(ws, w);
    let rest = rows_from(lines, width, l + 1);
    assert(all == a + rest);
    lemma_wrap_positions(lines, width, l);
    if k < a.len() {
        assert(all[k] == ws[w + k]);
        assert(skip_at_most(ws, w + k) =~= ws.skip(w + k));
        assert(all.skip(k) =~= ws.skip(w + k) + rest);
    } else {
        lemma_rows_from_resume(lines, width, l + 1, k - a.len());
        assert(all[k] == rest[k - a.len()]);
        assert(all.skip(k) =~= rest.skip(k - a.len()));
    }
}

/// Advancing the page by one row moves every row of it up by exactly one:
/// where more rows follow the page, the rows shown after a scroll by one are
/// those shown before without the first, followed by the next row of the
/// document. The pinned rows are an overlay and do not enter into it.
pub proof fn law_scroll_by_one_row(lines: Seq<Line>, width: nat, height: usize, anchor: RowPos)
    requires
        indexed(lines),
        lines_wf(lines),
        height >= 1,
        rows_starting_at(lines, width, anchor.0 as int, anchor.1 as int).len() > height,
    ensures
        fill_rows(lines, width, height, forward_anchor(lines, width, anchor, 1)) == fill_rows(
            lines,
            width,
            height,
            anchor,
        ).skip(1).push(rows_starting_at(lines, width, anchor.0 as int, anchor.1 as int)[height as int]),
{
    let all = rows_starting_at(lines, width, anchor.0 as int, anchor.1 as int);
    let ahead = take_at_most(all, 2);
    assert(ahead.len() == 2);
    assert(ahead.last() == all[1]);
    lemma_resume(lines, width, anchor.0 as int, anchor.1 as int, 1);
    let next = forward_anchor(lines, width, anchor, 1);
    assert(next == pos_of(all[1]));
    let moved = rows_starting_at(lines, width, next.0 as int, next.1 as int);
    assert(moved == all.skip(1));
    assert(take_at_most(moved, height as int) =~= all.take(height as int).skip(1).push(all[height as int]));
}

/// Reading forward from the `k`-th row of the document for `n` rows more
/// lands on the row `k + n`, and reading back `n` rows from there lands on
/// row `k` again.
pub proof fn lemma_anchor_moves(lines: Seq<Line>, width: nat, k: int, n: int)
    requires
        indexed(lines),
        lines_wf(lines),
        0 <= k,
        0 <= n,
        k + n < rows_from(lines, width, 0).len(),
    ensures
        forward_anchor(lines, width, pos_of(rows_from(lines, width, 0)[k]), n) == pos_of(
            rows_from(lines, width, 0)[k + n],
        ),
        backward_anchor(lines, width, pos_of(rows_from(lines, width, 0)[k + n]), n) == pos_of(
            rows_from(lines, width, 0)[k],
        ),
{
    let all = rows_from(lines, width, 0);
    lemma_rows_from_resume(lines, width, 0, k);
    let ahead = take_at_most(all.skip(k), n + 1);
    assert(ahead.last() == all[k + n]);
    lemma_rows_preceding_from(lines, width, 0, k + n);
    assert(rows_upto(lines, width, 0) =~= Seq::<Row>::empty());
    let before = rows_upto(lines, width, 0) + all.take(k + n);
    assert(before =~= all.take(k + n));
    let to = pos_of(all[k + n]);
    assert(rows_preceding(lines, width, to.0 as int, to.1 as int) == before);
    assert(before.len() == k + n);
    if n > 0 {
        let earlier = last_at_most(before, n);
        assert(earlier =~= before.skip(k));
        assert(earlier[0] == before[k]);
    }
}

/// The page shown from row `k` of the document when `height` rows or more
/// follow: it starts on that row.
proof fn lemma_full_page_starts_at(lines: Seq<Line>, width: nat, height: usize, k: int)
    requires
        indexed(lines),
        lines_wf(lines),
        height >= 1,
        0 <= k,
        k + height <= rows_from(lines, width, 0).len(),
    ensures
        fill_rows(lines, width, height, pos_of(rows_from(lines, width, 0)[k])).len() == height,
        fill_rows(lines, width, height, pos_of(rows_from(lines, width, 0)[k]))[0] == rows_from(lines, width, 0)[k],
{
    let all = rows_from(lines, width, 0);
    lemma_rows_from_resume(lines, width, 0, k);
    let fwd = take_at_most(all.skip(k), height as int);
    assert(fwd.len() == height);
    assert(fwd[0] == all[k]);
}

/// Scrolling down by `n` rows and then up by `n` rows shows the page that was
/// shown before, when a full page of rows follows the row the page moves to.
/// The scroll up reads back from the first row that the page shows after the
/// scroll down, as `Pager::scroll` does.
pub proof fn law_scroll_down_then_up(lines: Seq<Line>, width: nat, height: usize, k: int, n: int)
    requires
        indexed(lines),
        lines_wf(lines),
        height >= 1,
        0 <= k,
        0 <= n,
        k + n + height <= rows_from(lines, width, 0).len(),
    ensures
        ({
            let start = pos_of(rows_from(lines, width, 0)[k]);
            let down = fill_rows(lines, width, height, forward_anchor(lines, width, start, n));
            let back = backward_anchor(lines, width, pos_of(down[0]), n);
            &&& back == start
            &&& fill_rows(lines, width, height, back) == fill_rows(lines, width, height, start)
        }),
{
    let all = rows_from(lines, width, 0);
    lemma_anchor_moves(lines, width, k, n);
    lemma_full_page_starts_at(lines, width, height, k + n);
    assert(pos_of(all[k + n]) == forward_anchor(lines, width, pos_of(all[k]), n));
}

/// Scrolling up by `n` rows and then down by `n` rows shows the page that was
/// shown before, when `n` rows are above the page and a full page follows its
/// first row.
pub proof fn law_scroll_up_then_down(lines: Seq<Line>, width: nat, height: usize, k: int, n: int)
    requires
        indexed(lines),
        lines_wf(lines),
        height >= 1,
        0 <= n <= k,
        k + height <= rows_from(lines, width, 0).len(),
    ensures
        ({
            let start = pos_of(rows_from(lines, width, 0)[k]);
            let up = fill_rows(lines, width, height, backward_anchor(lines, width, start, n));
            let again = forward_anchor(lines, width, pos_of(up[0]), n);
            &&& again == start
            &&& fill_rows(lines, width, height, again) == fill_rows(lines, width, height, start)
        }),
{
    let all = rows_from(lines, width, 0);
    lemma_anchor_moves(lines, width, k - n, n);
    lemma_full_page_starts_at(lines, width, height, k - n);
    assert(k - n + n == k);
}

/// The position of the first row of the last `height` rows of the document.
pub open spec fn last_page_anchor(lines: Seq<Line>, width: nat, height: usize) -> RowPos {
    let last_page = last_at_most(rows_upto(lines, width, lines.len() as int), height as int);
    if last_page.len() == 0 {
        (0usize, 0usize)
    } else {
        pos_of(last_page[0])
    }
}

/// The position `count` rows after `from`, or of the last row when fewer are left.
pub open spec fn forward_anchor(lines: Seq<Line>, width: nat, from: RowPos, count: int) -> RowPos {
    let ahead = take_at_most(rows_starting_at(lines, width, from.0 as int, from.1 as int), count + 1);
    if ahead.len() == 0 {
        from
    } else {
        pos_of(ahead.last())
    }
}

/// The position `count` rows before `from`, or of the first row when fewer are above.
pub open spec fn backward_anchor(lines: Seq<Line>, width: nat, from: RowPos, count: int) -> RowPos {
    let earlier = last_at_most(rows_preceding(lines, width, from.0 as int, from.1 as int), count);
    if earlier.len() == 0 {
        from
    } else {
        pos_of(earlier[0])
    }
}

/// The anchor that shows the last page of the document.
pub fn end_anchor(doc: &Document, layout: &Layout) -> (r: RowPos)
    requires
        doc.wf(),
    ensures
        r == last_page_anchor(doc.spec_lines(), layout.size.width as nat, layout.size.height),
{
    let last_page = list_backward(doc, layout.size.width, DocPos::End, layout.size.height);
    if last_page.len() > 0 {
        (last_page[0].line_index, last_page[0].wrap_index)
    } else {
        (0, 0)
    }
}

/// The anchor `count` rows after `from`, clamped to the last row of the document.
pub fn anchor_forward(doc: &Document, layout: &Layout, from: RowPos, count: usize) -> (r: RowPos)
    requires
        doc.wf(),
        count < usize::MAX,
    ensures
        r == forward_anchor(doc.spec_lines(), layout.size.width as nat, from, count as int),
{
    let ahead = list_forward(doc, layout.size.width, from, count + 1);
    if ahead.len() > 0 {
        (ahead[ahead.len() - 1].line_index, ahead[ahead.len() - 1].wrap_index)
    } else {
        from
    }
}

/// The anchor `count` rows before `from`, clamped to the first row of the document.
pub fn anchor_backward(doc: &Document, layout: &Layout, from: RowPos, count: usize) -> (r: RowPos)
    requires
        doc.wf(),
        position_ok(doc.spec_lines(), layout.size.width as nat, from.0 as int, from.1 as int),
    ensures
        r == backward_anchor(doc.spec_lines(), layout.size.width as nat, from, count as int),
{
    let pivot = Row { line_index: from.0, wrap_index: from.1, raw_start: 0, raw_end: 0 };
    let earlier = list_backward(doc, layout.size.width, DocPos::Before(&pivot), count);
    if earlier.len() > 0 {
        (earlier[0].line_index, earlier[0].wrap_index)
    } else {
        from
    }
}

} // verus!
