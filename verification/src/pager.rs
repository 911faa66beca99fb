//! Pagination state: which document rows the page shows, with the pinned
//! header and heading, and the status line.

use vstd::prelude::*;

use crate::document::{pump_result, pumped, Document, StreamMsg};
use crate::line::{Line, MatchPosition, Row};
use crate::line_editor::{edit_result, LineEdit, LineEditor};
use crate::options::Options;
use crate::pager::layout::{
    anchor_backward, anchor_forward, backward_anchor, compose, end_anchor, fill_rows, forward_anchor,
    header_rows, heading_block, heading_placement, heading_rows, heading_start, last_page_anchor,
    lemma_anchor_moves, lemma_fill_rows_in_doc, lemma_nearest_heading_start, lemma_nearest_heading_start_is,
    lemma_no_next_section_row, lemma_rows_from_resume, max_header_height, max_heading_height, pos_of, push_up,
    sat_add, starts_section, Frame, Layout, RowPos,
};
use crate::pager::rows::{
    all_in_doc, lemma_rows_between_lines, lemma_rows_between_prefix, lemma_rows_from_lines,
    lemma_rows_split_at, lemma_rows_upto_between, lemma_rows_upto_lines, lemma_wrap_positions, lines_wf,
    row_in_doc, rows_between, rows_from, rows_upto, take_at_most, wrap_of,
};
use crate::query::{regex_compiles, Query};
use crate::screen::ScreenSize;
use crate::search::{search_document, search_spec, SearchDirection, SearchFrom};
pub use crate::search::SearchState;
use crate::line::raw_offset;
use crate::pager::layout::contiguous;

pub mod layout;
pub mod rows;
pub mod status_line;
pub mod viewport;
pub mod global_header;
pub mod line;
pub mod page;
pub mod headings;
pub mod header;
pub mod section_header;
pub mod line_store;
pub mod line_reader;

verus! {

/// Dimensions of the viewport: the screen minus the status line.
#[derive(Debug, Clone, Copy, PartialEq, Eq, Structural)]
pub struct ViewportSize {
    pub width: usize,
    pub height: usize,
}

impl ViewportSize {
    /// The viewport of a screen.
    pub open spec fn spec_new(screen_width: usize, screen_height: usize) -> ViewportSize {
        ViewportSize { width: screen_width, height: (screen_height - 1) as usize }
    }

    /// The viewport of a screen, which keeps its last row for the status line.
    pub fn new(screen_width: usize, screen_height: usize) -> (r: ViewportSize)
        requires
            screen_height >= 1,
        ensures
            r.width == screen_width,
            r.height == screen_height - 1,
    {
        ViewportSize { width: screen_width, height: screen_height - 1 }
    }

    pub fn width(&self) -> (r: usize)
        ensures
            r == self.width,
    {
        self.width
    }

    pub fn height(&self) -> (r: usize)
        ensures
            r == self.height,
    {
        self.height
    }
}

/// What the pager is doing: showing the page, or taking a search query.
pub enum PagerMode {
    View,
    SearchInput(SearchInputMode),
}

/// State of the search prompt.
pub struct SearchInputMode {
    pub direction: SearchDirection,
    pub editor: LineEditor,
    /// Top line when the search started: where the preview searches from, and
    /// where a cancel goes back to.
    pub start_line_index: usize,
    pub draft: SearchDraft,
}

/// Live search state derived from the input typed so far, before it is
/// committed.
pub enum SearchDraft {
    /// The input is empty: there is nothing to preview.
    Empty,
    /// The input compiled; the state matches it.
    Valid(SearchState),
    /// The input does not compile, as is common in the middle of typing; the
    /// preview stays at the last valid state, if any.
    Invalid(Option<SearchState>),
}

/// The search a draft previews.
pub open spec fn draft_preview(d: SearchDraft) -> Option<SearchState> {
    match d {
        SearchDraft::Valid(s) => Some(s),
        SearchDraft::Invalid(s) => s,
        SearchDraft::Empty => None,
    }
}

impl SearchDraft {
    /// Whether the input can be committed: anything but an invalid pattern.
    pub fn is_submittable(&self) -> (r: bool)
        ensures
            r == !(self is Invalid),
    {
        match self {
            SearchDraft::Invalid(_) => false,
            _ => true,
        }
    }

    /// The search to preview, if any.
    pub fn preview(&self) -> (r: Option<&SearchState>)
        ensures
            match draft_preview(*self) {
                Some(s) => r matches Some(x) && *x == s,
                None => r is None,
            },
    {
        match self {
            SearchDraft::Valid(s) => Some(s),
            SearchDraft::Invalid(Some(s)) => Some(s),
            _ => None,
        }
    }

    /// The search to preview, taken out of the draft.
    pub fn into_preview(self) -> (r: Option<SearchState>)
        ensures
            r == draft_preview(self),
    {
        match self {
            SearchDraft::Valid(s) => Some(s),
            SearchDraft::Invalid(s) => s,
            SearchDraft::Empty => None,
        }
    }
}

/// What the renderer needs to draw one frame.
pub struct PageSnapshot<'pager> {
    pub header: &'pager [Row],
    pub heading: &'pager [Row],
    pub content: &'pager [Row],
    /// Viewport height.
    pub height: usize,
    pub search: Option<&'pager SearchState>,
    pub status_line: String,
}

impl<'pager> PageSnapshot<'pager> {
    /// Rows the pinned header and heading take.
    pub fn total_header_height(&self) -> (r: usize)
        requires
            self.header@.len() + self.heading@.len() <= usize::MAX,
        ensures
            r == self.header@.len() + self.heading@.len(),
    {
        self.header.len() + self.heading.len()
    }

    /// Rows of the viewport that show something.
    pub fn viewport_height(&self) -> (r: usize)
        requires
            self.header@.len() + self.heading@.len() + self.content@.len() <= usize::MAX,
        ensures
            r == self.header@.len() + self.heading@.len() + self.content@.len(),
    {
        self.total_header_height() + self.content.len()
    }
}

/// Appending lines keeps every row of the document where it was.
pub proof fn lemma_in_doc_extend(old_lines: Seq<Line>, new_lines: Seq<Line>, width: nat, rows: Seq<Row>)
    requires
        old_lines.len() <= new_lines.len(),
        new_lines.take(old_lines.len() as int) == old_lines,
        all_in_doc(old_lines, width, rows),
    ensures
        all_in_doc(new_lines, width, rows),
{
    assert forall|k: int| 0 <= k < rows.len() implies row_in_doc(new_lines, width, #[trigger] rows[k]) by {
        let li = rows[k].line_index as int;
        assert(row_in_doc(old_lines, width, rows[k]));
        assert(new_lines[li] == new_lines.take(old_lines.len() as int)[li]);
    }
}

/// Where a jump to line `line_index` puts the page: the line comes right below
/// the pinned rows; a line of the global header jumps to the top of the
/// document; a line of the heading that would be pinned shows as that heading.
pub open spec fn jump_anchor(lines: Seq<Line>, layout: Layout, header_height: nat, line_index: usize) -> RowPos {
    let target: usize = if line_index < layout.header_lines {
        0
    } else {
        line_index
    };
    let heading_height = match heading_block(lines, layout, header_height, target as int) {
        None => 0,
        Some((start, rows)) => if start <= target && target < sat_add(rows.last().line_index as int, 1) {
            0
        } else {
            rows.len() as int
        },
    };
    backward_anchor(
        lines,
        layout.size.width as nat,
        (target, 0usize),
        sat_add(header_height as int, heading_height),
    )
}

/// A jump to line `l` below the global header, and outside the heading
/// block that starts at or before it, brings `l` right below the pinned
/// rows: its first row is the first row of the content, the first row that
/// the pinned header and heading do not cover. This holds where a screenful
/// of rows lies above the line and another from it on.
pub proof fn law_jump_puts_the_line_below_the_pinned_rows(
    before: Pager,
    after: Pager,
    anchor: RowPos,
    l: usize,
)
    requires
        before.wf(),
        before.shows(anchor),
        after.spec_doc() == before.spec_doc(),
        after.spec_layout() == before.spec_layout(),
        after.shows(
            jump_anchor(
                before.spec_doc().spec_lines(),
                before.spec_layout(),
                before.spec_frame().spec_header().len(),
                l,
            ),
        ),
        before.spec_layout().size.height >= 1,
        before.spec_layout().header_lines <= l < before.spec_doc().spec_lines().len(),
        before.spec_layout().heading matches Some(h) ==> forall|s: int|
            before.spec_layout().header_lines <= s <= l < s + h.num_lines ==> !#[trigger] heading_start(
                before.spec_doc().spec_lines(),
                h.pattern@,
                h.num_lines,
                s,
            ),
        rows_upto(before.spec_doc().spec_lines(), before.spec_layout().size.width as nat, l as int).len()
            >= before.spec_layout().size.height,
        rows_from(before.spec_doc().spec_lines(), before.spec_layout().size.width as nat, l as int).len()
            >= before.spec_layout().size.height,
    ensures
        after.spec_frame().spec_content().len() > 0,
        after.spec_frame().spec_content()[0].line_index == l,
        after.spec_frame().spec_content()[0].wrap_index == 0,
{
    let lines = before.spec_doc().spec_lines();
    let layout = before.spec_layout();
    let width = layout.size.width as nat;
    let height = layout.size.height;
    let frame = after.spec_frame();
    before.spec_doc().lemma_wf();
    let hh = before.spec_frame().spec_header().len();
    assert(hh == header_rows(lines, layout).len());
    assert(hh <= height - 1);
    let all = rows_from(lines, width, 0);
    let t = rows_upto(lines, width, l as int).len() as int;
    lemma_rows_split_at(lines, width, l as int);
    lemma_wrap_positions(lines, width, l as int);
    assert(all[t] == rows_from(lines, width, l as int)[0]);
    assert(rows_from(lines, width, l as int)[0] == wrap_of(lines, width, l as int)[0]);
    assert(pos_of(all[t]) == (l, 0usize));
    lemma_rows_upto_lines(lines, width, l as int);
    // The heading rows a jump leaves room for.
    let bh: int = match heading_block(lines, layout, hh, l as int) {
        None => 0,
        Some((st, block)) => block.len() as int,
    };
    match heading_block(lines, layout, hh, l as int) {
        None => {},
        Some((st, block)) => {
            let h = layout.heading->Some_0;
            lemma_nearest_heading_start(lines, h.pattern@, h.num_lines, layout.header_lines as int, l as int);
            assert(heading_start(lines, h.pattern@, h.num_lines, st));
            assert(st + h.num_lines <= l);
            assert(sat_add(st, h.num_lines as int) == st + h.num_lines);
            lemma_rows_between_lines(lines, width, st, st + h.num_lines);
            let full = rows_between(lines, width, st, st + h.num_lines);
            assert(block.last() == full[block.len() - 1]);
            assert(block.last().line_index < st + h.num_lines);
        },
    }
    let k = hh + bh;
    assert(k <= height - 1);
    assert(jump_anchor(lines, layout, hh, l) == backward_anchor(lines, width, (l, 0usize), k));
    lemma_anchor_moves(lines, width, t - k, k);
    assert(t - k + k == t);
    let start = t - k;
    assert(backward_anchor(lines, width, pos_of(all[t]), k) == pos_of(all[start]));
    lemma_rows_from_resume(lines, width, 0, start);
    let rows = frame.spec_rows();
    assert(rows == all.skip(start).take(height as int));
    assert(rows.len() == height);
    assert(frame.spec_header().len() == hh);
    assert(rows[k] == all[t]);
    match heading_block(lines, layout, hh, l as int) {
        None => {
            assert(rows[hh as int] == all[t]);
            assert(frame.spec_heading() =~= Seq::<Row>::empty());
        },
        Some((st, block)) => {
            let h = layout.heading->Some_0;
            let n = h.num_lines as int;
            lemma_nearest_heading_start(lines, h.pattern@, h.num_lines, layout.header_lines as int, l as int);
            // The rows between the heading block's start and `l` hold the block's rows.
            lemma_rows_upto_between(lines, width, st, l as int);
            lemma_rows_between_prefix(lines, width, st, st + n, l as int);
            let s_idx = rows_upto(lines, width, st).len() as int;
            assert(t - bh >= s_idx);
            lemma_rows_split_at(lines, width, st);
            lemma_rows_from_lines(lines, width, st);
            assert forall|j: int| t - bh <= j < t implies st <= #[trigger] all[j].line_index < l by {
                assert(all[j] == rows_from(lines, width, st)[j - s_idx]);
                assert(all[j] == rows_upto(lines, width, l as int)[j]);
            }
            let m = rows[hh as int].line_index as int;
            assert(rows[hh as int] == all[t - bh]);
            lemma_nearest_heading_start_is(lines, h.pattern@, h.num_lines, layout.header_lines as int, m, st);
            assert(heading_block(lines, layout, hh, m) == Some((st, block)));
            assert forall|i: int| hh <= i < k implies !#[trigger] starts_section(lines, layout, rows, st, i) by {
                assert(rows[i] == all[t - bh + (i - hh)]);
            }
            lemma_no_next_section_row(lines, layout, rows, st, hh as int, k);
            assert(push_up(lines, layout, rows, hh as int, st, bh) == 0);
            assert(frame.spec_heading() =~= block);
        },
    }
    assert(frame.spec_content() == rows.skip(k));
}

/// A jump to a line of the global header shows the document from its top:
/// the first row of the page is the first row of the document.
pub proof fn law_jump_into_the_header_goes_to_the_top(before: Pager, after: Pager, l: usize)
    requires
        before.wf(),
        after.spec_doc() == before.spec_doc(),
        after.spec_layout() == before.spec_layout(),
        after.shows(
            jump_anchor(
                before.spec_doc().spec_lines(),
                before.spec_layout(),
                before.spec_frame().spec_header().len(),
                l,
            ),
        ),
        before.spec_layout().size.height >= 1,
        l < before.spec_layout().header_lines,
        before.spec_doc().spec_lines().len() > 0,
    ensures
        after.spec_frame().spec_rows().len() > 0,
        after.spec_frame().spec_rows()[0].line_index == 0,
        after.spec_frame().spec_rows()[0].wrap_index == 0,
{
    let lines = before.spec_doc().spec_lines();
    let layout = before.spec_layout();
    let width = layout.size.width as nat;
    let hh = before.spec_frame().spec_header().len();
    before.spec_doc().lemma_wf();
    assert(heading_block(lines, layout, hh, 0) is None);
    assert(jump_anchor(lines, layout, hh, l) == (0usize, 0usize));
    lemma_wrap_positions(lines, width, 0);
    let fwd = rows_from(lines, width, 0);
    assert(fwd[0] == wrap_of(lines, width, 0)[0]);
    assert(wrap_of(lines, width, 0).skip(0) =~= wrap_of(lines, width, 0));
}

/// Where the page goes to show the whole of line `line_index` with its last
/// row at the bottom.
pub open spec fn bottom_anchor(lines: Seq<Line>, layout: Layout, line_index: usize) -> RowPos {
    let row_count = if line_index < lines.len() {
        wrap_of(lines, layout.size.width as nat, line_index as int).len() as int
    } else {
        1
    };
    let rows_above = if layout.size.height >= row_count {
        layout.size.height - row_count
    } else {
        0
    };
    backward_anchor(lines, layout.size.width as nat, (line_index, 0usize), rows_above)
}

/// Centrally manages the pagination state: the document, the layout, the
/// composed frame and the search state. The pinned rows are an overlay: they
/// cover the first rows of the viewport rather than pushing them down, so
/// scrolling by one row always moves the content by one row.
pub struct Pager {
    doc: Document,
    mode: PagerMode,
    layout: Layout,
    frame: Frame,
    search: Option<SearchState>,
}

impl Pager {
    /// The document is well formed and every viewport row is a document row.
    pub closed spec fn wf(&self) -> bool {
        &&& self.doc.wf()
        &&& all_in_doc(self.doc.spec_lines(), self.layout.size.width as nat, self.frame.spec_rows())
    }

    pub closed spec fn spec_doc(&self) -> Document {
        self.doc
    }

    pub closed spec fn spec_layout(&self) -> Layout {
        self.layout
    }

    pub closed spec fn spec_frame(&self) -> Frame {
        self.frame
    }

    pub closed spec fn spec_mode(&self) -> PagerMode {
        self.mode
    }

    pub closed spec fn spec_search(&self) -> Option<SearchState> {
        self.search
    }

    /// The rows of the page that read contiguously.
    pub open spec fn spec_page_rows(&self) -> Seq<Row> {
        contiguous(
            self.spec_frame().spec_header(),
            self.spec_frame().spec_heading(),
            self.spec_frame().spec_content(),
        )
    }

    /// The frame shows the page composed for `anchor` on the current document.
    pub open spec fn shows(&self, anchor: RowPos) -> bool {
        self.spec_frame().composed(self.spec_doc().spec_lines(), self.spec_layout(), anchor)
    }

    proof fn lemma_frame_in_doc(doc: Document, layout: Layout, frame: Frame, anchor: RowPos)
        requires
            doc.wf(),
            frame.composed(doc.spec_lines(), layout, anchor),
        ensures
            all_in_doc(doc.spec_lines(), layout.size.width as nat, frame.spec_rows()),
    {
        doc.lemma_wf();
        lemma_fill_rows_in_doc(doc.spec_lines(), layout.size.width as nat, layout.size.height, anchor);
    }

    /// A pager showing `doc` from its top.
    pub fn new(doc: Document, options: Options, screen_size: ScreenSize) -> (p: Pager)
        requires
            doc.wf(),
            screen_size.height >= 1,
        ensures
            p.wf(),
            p.shows((0, 0)),
            p.spec_doc() == doc,
            p.spec_layout().size == ViewportSize::spec_new(screen_size.width, screen_size.height),
            p.spec_mode() is View,
    {
        let size = ViewportSize::new(screen_size.width(), screen_size.height());
        let layout = Layout::new(options, size);
        let frame = compose(&doc, &layout, (0, 0));
        proof {
            Self::lemma_frame_in_doc(doc, layout, frame, (0, 0));
        }
        Pager { doc, mode: PagerMode::View, layout, frame, search: None }
    }

    pub fn mode(&self) -> (r: &PagerMode)
        ensures
            *r == self.spec_mode(),
    {
        &self.mode
    }

    pub fn doc(&self) -> (r: &Document)
        ensures
            *r == self.spec_doc(),
    {
        &self.doc
    }

    pub fn frame(&self) -> (r: &Frame)
        ensures
            *r == self.spec_frame(),
    {
        &self.frame
    }

    /// The committed search, if any.
    pub fn search(&self) -> (r: Option<&SearchState>)
        ensures
            match self.spec_search() {
                Some(s) => r matches Some(x) && *x == s,
                None => r is None,
            },
    {
        match &self.search {
            Some(s) => Some(s),
            None => None,
        }
    }

    /// The search whose matches the page highlights: while a query is typed,
    /// its preview if it has one; else the committed search.
    pub open spec fn spec_shown_search(&self) -> Option<SearchState> {
        match self.spec_mode() {
            PagerMode::SearchInput(m) => match draft_preview(m.draft) {
                Some(s) => Some(s),
                None => self.spec_search(),
            },
            PagerMode::View => self.spec_search(),
        }
    }

    /// Everything the renderer needs to draw the page.
    pub fn snapshot(&self) -> (snap: PageSnapshot)
        requires
            self.wf(),
        ensures
            snap.header@ == self.spec_frame().spec_header(),
            snap.heading@ == self.spec_frame().spec_heading(),
            snap.content@ == self.spec_frame().spec_content(),
            snap.height == self.spec_layout().size.height,
            match self.spec_shown_search() {
                Some(s) => snap.search matches Some(x) && *x == s,
                None => snap.search is None,
            },
            snap.status_line@ == status_line::build_spec(
                self.spec_mode(),
                self.spec_frame().spec_rows(),
                self.spec_layout().size.width,
                self.spec_doc(),
            ),
    {
        let status_line = status_line::build(&self.mode, self.frame.rows(), self.layout.size.width, &self.doc);
        let search = match &self.mode {
            PagerMode::SearchInput(m) => match m.draft.preview() {
                Some(s) => Some(s),
                None => self.search(),
            },
            PagerMode::View => self.search(),
        };
        PageSnapshot {
            header: self.frame.header(),
            heading: self.frame.heading(),
            content: self.frame.content(),
            height: self.layout.size.height,
            search,
            status_line,
        }
    }

    fn compose_at(&mut self, anchor: RowPos)
        requires
            old(self).wf(),
        ensures
            final(self).wf(),
            final(self).spec_search() == old(self).spec_search(),
            final(self).shows(anchor),
            final(self).spec_doc() == old(self).spec_doc(),
            final(self).spec_layout() == old(self).spec_layout(),
            final(self).spec_mode() == old(self).spec_mode(),
    {
        let frame = compose(&self.doc, &self.layout, anchor);
        proof {
            Self::lemma_frame_in_doc(self.doc, self.layout, frame, anchor);
        }
        self.frame = frame;
    }

    /// Rows of content below the pinned rows.
    pub fn content_height(&self) -> (r: usize)
        ensures
            r == self.spec_frame().spec_content().len(),
    {
        self.frame.content().len()
    }

    /// Whether the whole document fits within `height` rows at the viewport width.
    pub fn fits_within(&self, height: usize) -> (r: bool)
        requires
            self.wf(),
        ensures
            r == (rows_upto(
                self.spec_doc().spec_lines(),
                self.spec_layout().size.width as nat,
                self.spec_doc().spec_lines().len() as int,
            ).len() <= height),
    {
        let ghost lines = self.doc.spec_lines();
        let width = self.layout.size.width;
        let n = self.doc.line_count();
        let mut total: usize = 0;
        let mut i: usize = 0;
        proof {
            self.doc.lemma_wf();
        }
        while i < n
            invariant
                self.doc.wf(),
                lines == self.doc.spec_lines(),
                width == self.layout.size.width,
                n == lines.len(),
                i <= n,
                total == rows_upto(lines, width as nat, i as int).len(),
                total <= height,
                lines_wf(lines),
            decreases n - i,
        {
            let line = self.doc.line(i).unwrap();
            let c = line.row_count(width);
            if c > height - total {
                proof {
                    assert(rows_upto(lines, width as nat, i + 1).len() == total + c);
                    lemma_rows_upto_grows(lines, width as nat, i + 1, n as int);
                }
                return false;
            }
            total = total + c;
            i += 1;
        }
        true
    }

    /// Take in the messages the reader sent since the last pump (see
    /// [`Document::pump`]). While the first screen is still filling in, new
    /// lines extend the page; once it is full they stay below the fold, but
    /// the status line still changes, so the result reports any change.
    pub fn pump_input(&mut self, msgs: Vec<StreamMsg>, disconnected: bool) -> (r: bool)
        requires
            old(self).wf(),
        ensures
            final(self).wf(),
            final(self).spec_search() == old(self).spec_search(),
            final(self).spec_layout() == old(self).spec_layout(),
            final(self).spec_mode() == old(self).spec_mode(),
            pumped(old(self).spec_doc(), msgs@, disconnected, final(self).spec_doc()),
            ({
                let pr = pump_result(old(self).spec_doc(), msgs@, disconnected);
                &&& r == (pr.grew || pr.reached_eof)
                &&& if pr.grew && old(self).spec_frame().spec_rows().len() < old(self).spec_layout().size.height {
                    final(self).shows(old(self).spec_frame_anchor())
                } else {
                    final(self).spec_frame() == old(self).spec_frame()
                }
            }),
    {
        let ghost old_lines = self.doc.spec_lines();
        let result = self.doc.pump(msgs, disconnected);
        proof {
            assert(self.doc.spec_lines().take(old_lines.len() as int) =~= old_lines);
            lemma_in_doc_extend(old_lines, self.doc.spec_lines(), self.layout.size.width as nat, self.frame.spec_rows());
        }
        if result.grew && self.frame.rows().len() < self.layout.size.height {
            self.recompose();
            return true;
        }
        result.grew || result.reached_eof
    }

    /// Whether more input may still arrive.
    pub fn is_loading(&self) -> (r: bool)
        ensures
            r == !self.spec_doc().spec_complete(),
    {
        !self.doc.is_complete()
    }

    /// Rebuild the page at the current anchor.
    fn recompose(&mut self)
        requires
            old(self).wf(),
        ensures
            final(self).wf(),
            final(self).spec_search() == old(self).spec_search(),
            final(self).shows(old(self).spec_frame_anchor()),
            final(self).spec_doc() == old(self).spec_doc(),
            final(self).spec_layout() == old(self).spec_layout(),
            final(self).spec_mode() == old(self).spec_mode(),
    {
        let anchor = self.frame.anchor();
        self.compose_at(anchor);
    }

    /// The anchor of the frame shown.
    pub open spec fn spec_frame_anchor(&self) -> RowPos {
        let rows = self.spec_frame().spec_rows();
        if rows.len() > 0 {
            (rows[0].line_index, rows[0].wrap_index)
        } else {
            (0, 0)
        }
    }

    /// Resize the page to a new screen size.
    pub fn resize(&mut self, screen_width: usize, screen_height: usize) -> (r: bool)
        requires
            old(self).wf(),
            screen_height >= 1,
        ensures
            final(self).wf(),
            final(self).spec_search() == old(self).spec_search(),
            r,
            final(self).spec_layout().size == ViewportSize::spec_new(screen_width, screen_height),
            final(self).spec_layout().header_lines == old(self).spec_layout().header_lines,
            final(self).spec_layout().heading == old(self).spec_layout().heading,
            final(self).spec_doc() == old(self).spec_doc(),
            final(self).spec_mode() == old(self).spec_mode(),
            final(self).shows(old(self).spec_frame_anchor()),
    {
        let anchor = self.frame.anchor();
        let size = ViewportSize::new(screen_width, screen_height);
        self.layout.size = size;
        let frame = compose(&self.doc, &self.layout, anchor);
        proof {
            Self::lemma_frame_in_doc(self.doc, self.layout, frame, anchor);
        }
        self.frame = frame;
        true
    }

    proof fn lemma_anchor_ok(&self)
        requires
            self.wf(),
        ensures
            crate::pager::rows::position_ok(
                self.spec_doc().spec_lines(),
                self.spec_layout().size.width as nat,
                self.spec_frame_anchor().0 as int,
                self.spec_frame_anchor().1 as int,
            ),
    {
        if self.spec_frame().spec_rows().len() > 0 {
            assert(row_in_doc(self.doc.spec_lines(), self.layout.size.width as nat, self.frame.spec_rows()[0]));
        }
    }

    /// Scroll by `num_rows` rows (positive down, negative up). Returns whether
    /// the page moved.
    pub fn scroll(&mut self, num_rows: i32) -> (r: bool)
        requires
            old(self).wf(),
            num_rows != i32::MIN,
        ensures
            final(self).wf(),
            final(self).spec_search() == old(self).spec_search(),
            final(self).spec_doc() == old(self).spec_doc(),
            final(self).spec_layout() == old(self).spec_layout(),
            final(self).spec_mode() == old(self).spec_mode(),
            num_rows == 0 ==> !r && final(self).spec_frame() == old(self).spec_frame(),
            num_rows != 0 ==> r == (final(self).spec_frame_anchor() != old(self).spec_frame_anchor()),
            num_rows < 0 ==> final(self).shows(
                backward_anchor(
                    old(self).spec_doc().spec_lines(),
                    old(self).spec_layout().size.width as nat,
                    old(self).spec_frame_anchor(),
                    -num_rows,
                ),
            ),
            num_rows > 0 ==> final(self).shows(
                forward_anchor(
                    old(self).spec_doc().spec_lines(),
                    old(self).spec_layout().size.width as nat,
                    old(self).spec_frame_anchor(),
                    num_rows as int,
                ),
            ),
    {
        let before = self.frame.anchor();
        if num_rows == 0 {
            return false;
        }
        proof {
            self.lemma_anchor_ok();
        }
        let anchor = if num_rows < 0 {
            let n: usize = (-num_rows) as usize;
            anchor_backward(&self.doc, &self.layout, before, n)
        } else {
            let n: usize = num_rows as usize;
            anchor_forward(&self.doc, &self.layout, before, n)
        };
        self.compose_at(anchor);
        let after = self.frame.anchor();
        after.0 != before.0 || after.1 != before.1
    }

    /// Move the page so that line `line_index` comes right below the pinned
    /// rows. A line of the global header jumps to the top of the document; a
    /// line of the heading that would be pinned is shown as that heading.
    pub fn jump_to(&mut self, line_index: usize) -> (r: bool)
        requires
            old(self).wf(),
        ensures
            final(self).wf(),
            final(self).spec_search() == old(self).spec_search(),
            r,
            final(self).spec_doc() == old(self).spec_doc(),
            final(self).spec_layout() == old(self).spec_layout(),
            final(self).spec_mode() == old(self).spec_mode(),
            final(self).shows(jump_anchor(old(self).spec_doc().spec_lines(), old(self).spec_layout(), old(self).spec_frame().spec_header().len(), line_index)),
    {
        let target = if self.layout.is_header_line(line_index) {
            0
        } else {
            line_index
        };
        let header_height = self.frame.header().len();
        let heading_height = match heading_placement(&self.doc, &self.layout, header_height, target) {
            Some(p) => if p.start_line <= target && target < p.end_line {
                0
            } else {
                p.height
            },
            None => 0,
        };
        let rows_above = header_height.saturating_add(heading_height);
        let anchor = anchor_backward(&self.doc, &self.layout, (target, 0), rows_above);
        self.compose_at(anchor);
        true
    }

    /// Jump to the end of the document, with the last line at the bottom.
    pub fn jump_to_end(&mut self) -> (r: bool)
        requires
            old(self).wf(),
        ensures
            final(self).wf(),
            final(self).spec_search() == old(self).spec_search(),
            r,
            final(self).spec_doc() == old(self).spec_doc(),
            final(self).spec_layout() == old(self).spec_layout(),
            final(self).spec_mode() == old(self).spec_mode(),
            final(self).shows(
                last_page_anchor(
                    old(self).spec_doc().spec_lines(),
                    old(self).spec_layout().size.width as nat,
                    old(self).spec_layout().size.height,
                ),
            ),
    {
        let anchor = end_anchor(&self.doc, &self.layout);
        self.compose_at(anchor);
        true
    }

    /// Move the page so that the whole of line `line_index` shows with its
    /// last row at the bottom.
    pub fn jump_to_bottom(&mut self, line_index: usize) -> (r: bool)
        requires
            old(self).wf(),
        ensures
            final(self).wf(),
            final(self).spec_search() == old(self).spec_search(),
            r,
            final(self).spec_doc() == old(self).spec_doc(),
            final(self).spec_layout() == old(self).spec_layout(),
            final(self).spec_mode() == old(self).spec_mode(),
            final(self).shows(
                bottom_anchor(old(self).spec_doc().spec_lines(), old(self).spec_layout(), line_index),
            ),
    {
        let width = self.layout.size.width;
        let row_count = match self.doc.line(line_index) {
            Some(l) => l.row_count(width),
            None => 1,
        };
        let rows_above = self.layout.size.height.saturating_sub(row_count);
        let anchor = anchor_backward(&self.doc, &self.layout, (line_index, 0), rows_above);
        self.compose_at(anchor);
        true
    }

    /// Whether a search query is being typed and is not empty.
    pub fn has_search_input(&self) -> (r: bool)
        ensures
            r == match self.spec_mode() {
                PagerMode::SearchInput(m) => m.editor@.0.len() > 0,
                PagerMode::View => false,
            },
    {
        match &self.mode {
            PagerMode::SearchInput(mode) => !mode.editor.is_empty(),
            PagerMode::View => false,
        }
    }

    /// Open the search prompt. The search starts from the top of the rows that
    /// read contiguously, so a match in the sticky rows is reachable.
    pub fn start_search_input(&mut self, direction: SearchDirection) -> (r: bool)
        requires
            old(self).wf(),
        ensures
            final(self).wf(),
            r,
            final(self).spec_doc() == old(self).spec_doc(),
            final(self).spec_frame() == old(self).spec_frame(),
            final(self).spec_layout() == old(self).spec_layout(),
            final(self).spec_mode() matches PagerMode::SearchInput(m) && m.direction == direction
                && m.editor@.0.len() == 0 && m.draft is Empty && m.start_line_index == (if contiguous(
                old(self).spec_frame().spec_header(),
                old(self).spec_frame().spec_heading(),
                old(self).spec_frame().spec_content(),
            ).len() > 0 {
                contiguous(
                    old(self).spec_frame().spec_header(),
                    old(self).spec_frame().spec_heading(),
                    old(self).spec_frame().spec_content(),
                )[0].line_index
            } else {
                0
            }),
    {
        let rows = self.frame.contiguous_rows();
        let start_line_index = if rows.len() > 0 {
            rows[0].line_index
        } else {
            0
        };
        self.mode = PagerMode::SearchInput(
            SearchInputMode { direction, editor: LineEditor::new(), start_line_index, draft: SearchDraft::Empty },
        );
        true
    }

    /// Apply an edit to the search query being typed. An edit that changes
    /// the text updates the preview: an empty input previews nothing; one
    /// that is not a valid pattern yet keeps the last preview; a valid one
    /// searches from where the search started and jumps to the match found.
    pub fn update_search_query(&mut self, edit: LineEdit) -> (r: bool)
        requires
            old(self).wf(),
        ensures
            final(self).wf(),
            query_edited(*old(self), edit, *final(self), r),
    {
        let mut mode = PagerMode::View;
        std::mem::swap(&mut mode, &mut self.mode);
        let mut m = match mode {
            PagerMode::SearchInput(m) => m,
            PagerMode::View => {
                return false;
            },
        };
        let changes_text = edit.changes_text();
        if m.editor.len() < usize::MAX {
            m.editor.edit(edit);
        }
        if !changes_text {
            self.mode = PagerMode::SearchInput(m);
            return true;
        }
        if m.editor.is_empty() {
            m.draft = SearchDraft::Empty;
            self.mode = PagerMode::SearchInput(m);
            return true;
        }
        let input = m.editor.input();
        match Query::new(input.as_str()) {
            Err(_) => {
                let mut old_draft = SearchDraft::Empty;
                std::mem::swap(&mut old_draft, &mut m.draft);
                m.draft = SearchDraft::Invalid(old_draft.into_preview());
                self.mode = PagerMode::SearchInput(m);
                true
            },
            Ok(query) => {
                let matched = search_document(&self.doc, &query, SearchFrom::Line(m.start_line_index), m.direction);
                m.draft = SearchDraft::Valid(SearchState { query, direction: m.direction, current: matched });
                self.mode = PagerMode::SearchInput(m);
                match matched {
                    Some(pos) => {
                        self.jump_to(pos.line_index);
                    },
                    None => {},
                }
                true
            },
        }
    }

    /// Cancel the search: drop the input and go back to where it started.
    pub fn cancel_search_input(&mut self) -> (r: bool)
        requires
            old(self).wf(),
        ensures
            final(self).wf(),
            r,
            final(self).spec_mode() is View,
            final(self).spec_doc() == old(self).spec_doc(),
            final(self).spec_layout() == old(self).spec_layout(),
            final(self).spec_search() == old(self).spec_search(),
            old(self).spec_mode() is View ==> final(self).spec_frame() == old(self).spec_frame(),
            old(self).spec_mode() matches PagerMode::SearchInput(m) ==> final(self).shows(
                jump_anchor(
                    old(self).spec_doc().spec_lines(),
                    old(self).spec_layout(),
                    old(self).spec_frame().spec_header().len(),
                    m.start_line_index,
                ),
            ),
    {
        let mut mode = PagerMode::View;
        std::mem::swap(&mut mode, &mut self.mode);
        if let PagerMode::SearchInput(m) = mode {
            self.jump_to(m.start_line_index);
        }
        true
    }

    /// Commit the search input. Does nothing, keeping the prompt open, when
    /// the input is not a valid pattern, so it can be fixed; an empty input
    /// just closes the prompt.
    pub fn submit_search(&mut self) -> (r: bool)
        requires
            old(self).wf(),
        ensures
            final(self).wf(),
            submitted(*old(self), *final(self), r),
    {
        let mut mode = PagerMode::View;
        std::mem::swap(&mut mode, &mut self.mode);
        let mut m = match mode {
            PagerMode::SearchInput(m) => m,
            PagerMode::View => {
                return false;
            },
        };
        if !m.draft.is_submittable() {
            self.mode = PagerMode::SearchInput(m);
            return false;
        }
        let mut draft = SearchDraft::Empty;
        std::mem::swap(&mut draft, &mut m.draft);
        if let SearchDraft::Valid(st) = draft {
            self.search = Some(st);
        }
        true
    }

    /// Whether match `pos` shows on the page, and if so nothing to do; else
    /// move the page as little as possible: a match above the page brings
    /// its line to the top, one below brings it to the bottom.
    fn reveal_match(&mut self, pos: &MatchPosition)
        requires
            old(self).wf(),
        ensures
            final(self).wf(),
            final(self).spec_doc() == old(self).spec_doc(),
            final(self).spec_layout() == old(self).spec_layout(),
            final(self).spec_mode() == old(self).spec_mode(),
            final(self).spec_search() == old(self).spec_search(),
            revealed(*old(self), *final(self), *pos),
    {
        let raw_offset = match self.doc.line(pos.line_index) {
            Some(line) => line.match_raw_range(pos).start,
            None => {
                return;
            },
        };
        let visible = self.frame.contiguous_rows();
        if visible.len() == 0 {
            return;
        }
        let top = visible[0];
        let bottom = visible[visible.len() - 1];
        let target = pos.line_index;
        let above = target < top.line_index || (target == top.line_index && raw_offset < top.raw_start);
        let below = target > bottom.line_index || (target == bottom.line_index && raw_offset >= bottom.raw_end);
        if above {
            self.jump_to(target);
        } else if below {
            self.jump_to_bottom(target);
        }
    }

    /// The current match, if it shows on the page.
    pub fn current_match_pos_in_page(&self) -> (r: Option<MatchPosition>)
        requires
            self.wf(),
        ensures
            r == current_in_page(self.spec_doc().spec_lines(), self.spec_page_rows(), self.spec_search()),
    {
        let pos = match &self.search {
            Some(s) => match s.current {
                Some(c) => c,
                None => {
                    return None;
                },
            },
            None => {
                return None;
            },
        };
        let line = match self.doc.line(pos.line_index) {
            Some(l) => l,
            None => {
                return None;
            },
        };
        let at = line.match_raw_range(&pos).start;
        let rows = self.frame.contiguous_rows();
        let mut k: usize = 0;
        while k < rows.len()
            invariant
                k <= rows@.len(),
                rows@ == self.spec_page_rows(),
                pos.line_index < self.doc.spec_lines().len(),
                at == match_start(self.doc.spec_lines()[pos.line_index as int], pos),
                self.search matches Some(s) && s.current == Some(pos),
                forall|j: int| 0 <= j < k ==> !row_holds(#[trigger] rows@[j], pos.line_index, at as int),
            decreases rows@.len() - k,
        {
            if rows[k].line_index == pos.line_index && rows[k].raw_start <= at && at < rows[k].raw_end {
                proof {
                    assert(row_holds(rows@[k as int], pos.line_index, at as int));
                }
                return Some(pos);
            }
            k += 1;
        }
        None
    }

    /// The match to move to next: past the current match when it shows on the
    /// page (backward against the search direction when `reverse`); else the
    /// first match from the top of the page on.
    pub fn find_next_match_position(&self, reverse: bool) -> (r: Option<MatchPosition>)
        requires
            self.wf(),
        ensures
            r == next_match(self.spec_doc().spec_lines(), self.spec_page_rows(), self.spec_search(), reverse),
    {
        let current_in_page = self.current_match_pos_in_page();
        let search = match &self.search {
            Some(s) => s,
            None => {
                return None;
            },
        };
        proof {
            self.doc.lemma_wf();
        }
        match current_in_page {
            Some(current) => {
                let direction = if reverse {
                    search.direction.opposite()
                } else {
                    search.direction
                };
                search_document(&self.doc, &search.query, SearchFrom::NextOf(current), direction)
            },
            None => {
                let rows = self.frame.contiguous_rows();
                if rows.len() == 0 {
                    return None;
                }
                search_document(&self.doc, &search.query, SearchFrom::Row(rows[0]), SearchDirection::Forward)
            },
        }
    }

    /// Jump to the next match (the previous one, against the search
    /// direction, when `reverse`), moving the page as little as possible.
    /// Returns whether a match was found.
    pub fn jump_to_next_match(&mut self, reverse: bool) -> (r: bool)
        requires
            old(self).wf(),
        ensures
            final(self).wf(),
            final(self).spec_doc() == old(self).spec_doc(),
            final(self).spec_layout() == old(self).spec_layout(),
            final(self).spec_mode() == old(self).spec_mode(),
            ({
                let next = next_match(
                    old(self).spec_doc().spec_lines(),
                    old(self).spec_page_rows(),
                    old(self).spec_search(),
                    reverse,
                );
                match next {
                    None => !r && final(self).spec_frame() == old(self).spec_frame() && final(self).spec_search()
                        == old(self).spec_search(),
                    Some(pos) => {
                        &&& r
                        &&& revealed(*old(self), *final(self), pos)
                        &&& final(self).spec_search() matches Some(s)
                        &&& old(self).spec_search() matches Some(o)
                        &&& s.query == o.query
                        &&& s.direction == o.direction
                        &&& s.current == Some(pos)
                    },
                }
            }),
    {
        let next = self.find_next_match_position(reverse);
        let pos = match next {
            Some(p) => p,
            None => {
                return false;
            },
        };
        self.reveal_match(&pos);
        let mut search: Option<SearchState> = None;
        std::mem::swap(&mut search, &mut self.search);
        match search {
            Some(mut s) => {
                s.current = Some(pos);
                self.search = Some(s);
                true
            },
            None => false,
        }
    }
}

/// `after` is `before` with match `pos` brought into view: a match above the
/// page puts its line at the top of the content, one below puts its line at
/// the bottom, and one on the page, or one in no line, leaves the frame.
pub open spec fn revealed(before: Pager, after: Pager, pos: MatchPosition) -> bool {
    let lines = before.spec_doc().spec_lines();
    let rows = before.spec_page_rows();
    if pos.line_index >= lines.len() || rows.len() == 0 {
        after.spec_frame() == before.spec_frame()
    } else {
        let at = match_start(lines[pos.line_index as int], pos);
        let top = rows[0];
        let bottom = rows.last();
        if pos.line_index < top.line_index || (pos.line_index == top.line_index && at < top.raw_start) {
            after.shows(
                jump_anchor(
                    lines,
                    before.spec_layout(),
                    before.spec_frame().spec_header().len(),
                    pos.line_index,
                ),
            )
        } else if pos.line_index > bottom.line_index || (pos.line_index == bottom.line_index && at
            >= bottom.raw_end) {
            after.shows(bottom_anchor(lines, before.spec_layout(), pos.line_index))
        } else {
            after.spec_frame() == before.spec_frame()
        }
    }
}

/// `after` is `before` with `edit` applied to the search query being typed,
/// and `r` what `Pager::update_search_query` returns: an edit that changes
/// the text updates the preview, searching from where the search started
/// with a valid pattern and jumping to the match found; an empty input
/// previews nothing, and one that is not a valid pattern yet keeps the last
/// preview. Outside the prompt nothing changes.
pub open spec fn query_edited(before: Pager, edit: LineEdit, after: Pager, r: bool) -> bool {
    &&& after.spec_doc() == before.spec_doc()
    &&& after.spec_layout() == before.spec_layout()
    &&& after.spec_search() == before.spec_search()
    &&& r == (before.spec_mode() is SearchInput)
    &&& before.spec_mode() is View ==> after.spec_mode() == before.spec_mode() && after.spec_frame()
        == before.spec_frame()
    &&& before.spec_mode() matches PagerMode::SearchInput(m) ==> {
        &&& after.spec_mode() is SearchInput
        &&& query_edit_step(before, m, edit, after, after.spec_mode()->SearchInput_0)
    }
}

/// What editing the query in prompt `m` of `before` makes of it, prompt `n`
/// of `after`.
pub open spec fn query_edit_step(before: Pager, m: SearchInputMode, edit: LineEdit, after: Pager, n: SearchInputMode) -> bool {
    &&& n.direction == m.direction
    &&& n.start_line_index == m.start_line_index
    &&& m.editor@.0.len() < usize::MAX ==> n.editor@ == edit_result(m.editor@.0, m.editor@.1, edit)
    &&& m.editor@.0.len() == usize::MAX ==> n.editor@ == m.editor@
    &&& {
        let input = n.editor@.0;
        if !edit_changes_text(edit) || input.len() == 0 || !regex_compiles(input) {
            &&& after.spec_frame() == before.spec_frame()
            &&& !edit_changes_text(edit) ==> n.draft == m.draft
            &&& edit_changes_text(edit) && input.len() == 0 ==> n.draft is Empty
            &&& edit_changes_text(edit) && input.len() > 0 && !regex_compiles(input) ==> n.draft
                == SearchDraft::Invalid(draft_preview(m.draft))
        } else {
            let found = search_spec(
                before.spec_doc().spec_lines(),
                input,
                SearchFrom::Line(m.start_line_index),
                m.direction,
            );
            &&& n.draft matches SearchDraft::Valid(st) && st.query@ == input && st.direction == m.direction
                && st.current == found
            &&& match found {
                Some(pos) => after.shows(
                    jump_anchor(
                        before.spec_doc().spec_lines(),
                        before.spec_layout(),
                        before.spec_frame().spec_header().len(),
                        pos.line_index,
                    ),
                ),
                None => after.spec_frame() == before.spec_frame(),
            }
        }
    }
}

/// `after` is `before` with the search input committed, and `r` what
/// `Pager::submit_search` returns: a valid pattern becomes the search and
/// closes the prompt, an empty input just closes it, and one that is not a
/// valid pattern keeps the prompt open; the page does not move.
pub open spec fn submitted(before: Pager, after: Pager, r: bool) -> bool {
    &&& after.spec_doc() == before.spec_doc()
    &&& after.spec_frame() == before.spec_frame()
    &&& after.spec_layout() == before.spec_layout()
    &&& match before.spec_mode() {
        PagerMode::View => !r && after.spec_mode() == before.spec_mode() && after.spec_search()
            == before.spec_search(),
        PagerMode::SearchInput(m) => match m.draft {
            SearchDraft::Invalid(_) => !r && after.spec_mode() == before.spec_mode() && after.spec_search()
                == before.spec_search(),
            SearchDraft::Valid(st) => r && after.spec_mode() is View && after.spec_search() == Some(st),
            SearchDraft::Empty => r && after.spec_mode() is View && after.spec_search() == before.spec_search(),
        },
    }
}

/// Whether `text` of a line edit changes.
pub open spec fn edit_changes_text(edit: LineEdit) -> bool {
    edit is AddChar || edit is DeleteCharBeforeCursor
}

/// Raw byte offset where match `m` of `line` starts.
pub open spec fn match_start(line: Line, m: MatchPosition) -> int {
    raw_offset(line.spec_map(), line.spec_raw_len(), m.plain_start as int) as int
}

/// Row `r` of line `l` holds raw offset `at`.
pub open spec fn row_holds(r: Row, l: usize, at: int) -> bool {
    r.line_index == l && r.raw_start <= at && at < r.raw_end
}

/// The current match of `search`, when a row of `rows` holds its start.
pub open spec fn current_in_page(lines: Seq<Line>, rows: Seq<Row>, search: Option<SearchState>) -> Option<
    MatchPosition,
> {
    match search {
        Some(s) => match s.current {
            Some(c) => if c.line_index < lines.len() && exists|j: int|
                0 <= j < rows.len() && row_holds(rows[j], c.line_index, match_start(lines[c.line_index as int], c)) {
                Some(c)
            } else {
                None
            },
            None => None,
        },
        None => None,
    }
}

/// The match a move to the next match goes to.
pub open spec fn next_match(lines: Seq<Line>, rows: Seq<Row>, search: Option<SearchState>, reverse: bool) -> Option<
    MatchPosition,
> {
    match search {
        None => None,
        Some(s) => match current_in_page(lines, rows, search) {
            Some(c) => search_spec(
                lines,
                s.query@,
                SearchFrom::NextOf(c),
                if reverse {
                    match s.direction {
                        SearchDirection::Forward => SearchDirection::Backward,
                        SearchDirection::Backward => SearchDirection::Forward,
                    }
                } else {
                    s.direction
                },
            ),
            None => if rows.len() > 0 {
                search_spec(lines, s.query@, SearchFrom::Row(rows[0]), SearchDirection::Forward)
            } else {
                None
            },
        },
    }
}

/// Rows before line `i` are a prefix of the rows before any later line.
pub proof fn lemma_rows_upto_grows(lines: Seq<Line>, width: nat, i: int, j: int)
    requires
        0 <= i <= j,
    ensures
        rows_upto(lines, width, i).len() <= rows_upto(lines, width, j).len(),
    decreases j - i,
{
    if i < j {
        lemma_rows_upto_grows(lines, width, i, j - 1);
    }
}

} // verus!
