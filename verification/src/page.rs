//! The page of the earlier layout: a fixed header above the content area.

pub mod viewport;

use vstd::prelude::*;

use crate::document::Document;
use crate::header::{lemma_overlay_within, reads_row_distance, resolved, Header};
use crate::line::Line;
use crate::options::Options;
use crate::page::viewport::{backward, forward, ScreenRow, ScrollPlan, Viewport};
use crate::pager::rows::{indexed, lines_wf, rows_above, rows_between, wrap_of};

verus! {

/// The rows of the header: the fixed header lines, then the rows of a section
/// header that overlays the top of the content area.
pub struct HeaderLayout {
    rows: Vec<ScreenRow>,
    fixed_height: usize,
}

impl HeaderLayout {
    /// The fixed rows come first, so there are at least as many rows as fixed ones.
    #[verifier::type_invariant]
    closed spec fn fixed_fits(&self) -> bool {
        self.fixed_height <= self.rows@.len()
    }

    pub closed spec fn spec_rows(&self) -> Seq<ScreenRow> {
        self.rows@
    }

    pub closed spec fn spec_fixed_height(&self) -> usize {
        self.fixed_height
    }

    /// A header of `rows`, the first `fixed_height` of them fixed.
    pub fn new(rows: Vec<ScreenRow>, fixed_height: usize) -> (r: HeaderLayout)
        requires
            fixed_height <= rows@.len(),
        ensures
            r.spec_rows() == rows@,
            r.spec_fixed_height() == fixed_height,
    {
        HeaderLayout { rows, fixed_height }
    }

    /// All header rows, fixed and overlaid.
    pub fn rows(&self) -> (r: &[ScreenRow])
        ensures
            r@ == self.spec_rows(),
    {
        self.rows.as_slice()
    }

    /// Total height of the header.
    pub fn height(&self) -> (r: usize)
        ensures
            r == self.spec_rows().len(),
    {
        self.rows.len()
    }

    /// Rows of the fixed header.
    pub fn fixed_height(&self) -> (r: usize)
        ensures
            r == self.spec_fixed_height(),
            r <= self.spec_rows().len(),
    {
        proof {
            use_type_invariant(self);
        }
        self.fixed_height
    }

    /// Rows overlaid on the content area.
    pub fn overlay_height(&self) -> (r: usize)
        ensures
            r == self.spec_rows().len() - self.spec_fixed_height(),
    {
        proof {
            use_type_invariant(self);
        }
        self.rows.len() - self.fixed_height
    }
}

/// The rows of the lines of `lines` above row `wrap` of line `line`, down
/// from line `min_line`: how far a page whose first row that is can still
/// scroll up.
pub open spec fn rows_up_to(lines: Seq<Line>, width: nat, line: int, wrap: usize, min_line: int) -> nat {
    rows_above(lines, width, line, Some(wrap), min_line).len()
}

/// `after` is `before` with its header resolved at `width` for the first row
/// of the page (the section looked up again when `sync` asks for it), and
/// `layout` holds the rows found: all of them, the fixed ones first, the
/// rows the section header overlays after them.
pub open spec fn header_resolved(before: Page, after: Page, width: usize, sync: bool, layout: HeaderLayout) -> bool {
    let top = top_of(before.spec_viewport());
    &&& resolved(
        before.spec_doc().spec_lines(),
        before.spec_header(),
        after.spec_header(),
        width as nat,
        top.0,
        top.1 as int,
        sync,
        layout.spec_rows(),
    )
    &&& layout.spec_fixed_height() == layout.spec_rows().len() - after.spec_header().spec_overlay()
}

/// `row` is the first row of line `line`.
pub open spec fn is_line_start(row: ScreenRow, line: usize) -> bool {
    row.line_index == line && row.wrap_index == 0
}

/// The first row of line `line` is among `rows`, first found at a position
/// that the overlay of `overlay` rows does not cover.
pub open spec fn shows_below(rows: Seq<ScreenRow>, overlay: int, line: usize) -> bool {
    exists|k: int|
        overlay <= k < rows.len() && is_line_start(#[trigger] rows[k], line) && forall|j: int|
            0 <= j < k ==> !is_line_start(#[trigger] rows[j], line)
}

/// The row just above a row of the document is one row closer to the top.
proof fn lemma_row_above(lines: Seq<Line>, width: nat, line: int, wrap: usize, min_line: int)
    requires
        lines_wf(lines),
        indexed(lines),
        0 <= min_line,
        0 <= line < lines.len(),
        wrap < wrap_of(lines, width, line).len(),
        rows_above(lines, width, line, Some(wrap), min_line).len() > 0,
    ensures
        ({
            let r = rows_above(lines, width, line, Some(wrap), min_line).last();
            &&& 0 <= r.line_index < lines.len()
            &&& r.wrap_index < wrap_of(lines, width, r.line_index as int).len()
            &&& rows_up_to(lines, width, r.line_index as int, r.wrap_index, min_line) + 1 == rows_up_to(
                lines,
                width,
                line,
                wrap,
                min_line,
            )
        }),
{
    let a = rows_above(lines, width, line, Some(wrap), min_line);
    let b = rows_between(lines, width, min_line, line);
    assert(lines[line].wf());
    lines[line].lemma_wrap_shape(width);
    if wrap > 0 {
        let w = wrap_of(lines, width, line);
        assert(a.last() == w[wrap - 1]);
        let r = a.last();
        assert(rows_above(lines, width, r.line_index as int, Some(r.wrap_index), min_line) =~= b + w.take(wrap - 1));
    } else {
        assert(w_take_zero(wrap_of(lines, width, line)) == Seq::<crate::line::Row>::empty());
        assert(a =~= b);
        assert(line > min_line);
        let p = line - 1;
        assert(lines[p].wf());
        lines[p].lemma_wrap_shape(width);
        let w = wrap_of(lines, width, p);
        assert(b == rows_between(lines, width, min_line, p) + w);
        let r = a.last();
        assert(r == w.last());
        assert(rows_above(lines, width, r.line_index as int, Some(r.wrap_index), min_line) =~= rows_between(
            lines,
            width,
            min_line,
            p,
        ) + w.take(w.len() - 1));
    }
}

/// The first `0` elements of a sequence.
spec fn w_take_zero<A>(s: Seq<A>) -> Seq<A> {
    s.take(0)
}

/// The first row of the content area, or line 0 when it shows nothing.
pub open spec fn top_of(viewport: Viewport) -> (int, usize) {
    if viewport.spec_rows().len() > 0 {
        (viewport.spec_rows()[0].line_index as int, viewport.spec_rows()[0].wrap_index)
    } else {
        (0, 0)
    }
}

/// The document, the sticky header and the content area: everything drawing
/// a frame needs, but the search highlight.
pub struct Page {
    pub doc: Document,
    header: Header,
    pub viewport: Viewport,
}

impl Page {
    pub closed spec fn spec_header(&self) -> Header {
        self.header
    }

    pub closed spec fn spec_doc(&self) -> Document {
        self.doc
    }

    pub closed spec fn spec_viewport(&self) -> Viewport {
        self.viewport
    }

    /// The document is well formed, the content area shows rows of it below
    /// the fixed header lines, and heading blocks span at least one line.
    pub open spec fn wf(&self) -> bool {
        &&& self.spec_doc().wf()
        &&& self.spec_header().wf()
        &&& self.spec_viewport().fits(&self.spec_doc())
        &&& self.spec_viewport().spec_fixed_line_len() == self.spec_header().spec_fixed_lines()
    }

    /// A page of `doc` for a `width` by `height` terminal: the content area
    /// takes the rows left by the fixed header and the status line.
    pub fn new(doc: Document, options: Options, width: usize, height: usize) -> (p: Page)
        requires
            doc.wf(),
            options.heading matches Some(h) ==> h.num_lines >= 1,
        ensures
            p.wf(),
            p.spec_doc() == doc,
            p.spec_header().spec_fixed_lines() == options.header,
            ({
                let fixed_rows = rows_between(doc.spec_lines(), width as nat, 0, options.header as int).len();
                let content_height = if height >= 1 + fixed_rows {
                    height - 1 - fixed_rows
                } else {
                    0
                };
                p.spec_viewport().spec_rows() == forward(doc.spec_lines(), width as nat, options.header as int, 0, content_height)
            }),
    {
        let header = Header::new(options.header, options.heading);
        let header_height = header.resolve_fixed_height(&doc, width);
        let content_height = height.saturating_sub(1).saturating_sub(header_height);
        let viewport = Viewport::new(&doc, width, content_height, header.min_top_line());
        Page { doc, header, viewport }
    }

    /// Whether the whole document fits on a terminal of `screen_height` rows
    /// when printed without the pager, leaving `shell_lines` rows for the
    /// shell prompt that follows.
    pub fn content_fits_on_screen(&self, screen_height: usize, shell_lines: usize) -> (r: bool)
        requires
            self.wf(),
        ensures
            r == (rows_between(
                self.spec_doc().spec_lines(),
                self.spec_viewport().spec_width() as nat,
                0,
                self.spec_doc().spec_lines().len() as int,
            ).len() <= if screen_height >= shell_lines {
                screen_height - shell_lines
            } else {
                0
            }),
    {
        let ghost lines = self.doc.spec_lines();
        let width = self.viewport.width();
        let available = screen_height.saturating_sub(shell_lines);
        let count = self.doc.line_count();
        let mut total_rows: usize = 0;
        let mut i: usize = 0;
        while i < count
            invariant
                self.wf(),
                lines == self.doc.spec_lines(),
                count == lines.len(),
                width == self.viewport.spec_width(),
                i <= count,
                total_rows == rows_between(lines, width as nat, 0, i as int).len(),
                total_rows <= available,
                available == if screen_height >= shell_lines {
                    screen_height - shell_lines
                } else {
                    0
                },
            decreases count - i,
        {
            let line = match self.doc.line(i) {
                Some(l) => l,
                None => {
                    return false;
                },
            };
            let n = line.row_count(width);
            proof {
                assert(rows_between(lines, width as nat, 0, i + 1) == rows_between(lines, width as nat, 0, i as int)
                    + wrap_of(lines, width as nat, i as int));
            }
            if n > available - total_rows {
                proof {
                    lemma_rows_between_grows(lines, width as nat, i + 1, lines.len() as int);
                }
                return false;
            }
            total_rows = total_rows + n;
            i = i + 1;
        }
        true
    }

    /// Adapt to a `width` by `height` terminal: the header is laid out
    /// again, and the content area takes the rows left.
    pub fn resize(&mut self, width: usize, height: usize)
        requires
            old(self).wf(),
            reads_row_distance(
                old(self).spec_doc().spec_lines(),
                old(self).spec_header().spec_index(),
                top_of(old(self).spec_viewport()).0,
                true,
            ) && top_of(old(self).spec_viewport()).0 < old(self).spec_doc().spec_lines().len() ==> top_of(old(self).spec_viewport()).1
                < wrap_of(old(self).spec_doc().spec_lines(), width as nat, top_of(old(self).spec_viewport()).0).len(),
        ensures
            final(self).wf(),
            final(self).spec_doc() == old(self).spec_doc(),
            final(self).spec_viewport().spec_width() == width,
            final(self).spec_viewport().spec_height() <= if height >= 1 {
                height - 1
            } else {
                0
            },
            ({
                let vp = old(self).spec_viewport();
                let (top_line, top_wrap) = top_of(vp);
                let fixed = vp.spec_fixed_line_len();
                let line = if top_line >= fixed {
                    top_line
                } else {
                    fixed as int
                };
                final(self).spec_viewport().spec_rows() == forward(
                    old(self).spec_doc().spec_lines(),
                    width as nat,
                    line,
                    top_wrap as int,
                    final(self).spec_viewport().spec_height() as int,
                )
            }),
    {
        let layout = self.resolve_header_within(width, true);
        let content_height = height.saturating_sub(1).saturating_sub(layout.fixed_height());
        self.viewport.resize(&self.doc, width, content_height);
    }

    /// Scroll by `rows` rows (down when positive), at most the rows the
    /// content area shows; the sticky section follows. `None` when nothing
    /// moved.
    pub fn plan_scroll(&mut self, rows: isize) -> (plan: Option<ScrollPlan>)
        requires
            old(self).wf(),
            rows != isize::MIN,
            (if rows < 0 {
                -rows
            } else {
                rows as int
            }) <= old(self).spec_viewport().spec_rows().len(),
        ensures
            final(self).wf(),
            final(self).spec_doc() == old(self).spec_doc(),
            plan is None ==> final(self).spec_viewport().spec_rows() == old(self).spec_viewport().spec_rows(),
            ({
                let vp = old(self).spec_viewport();
                let lines = old(self).spec_doc().spec_lines();
                let n = vp.spec_rows().len();
                let w = vp.spec_width() as nat;
                if rows == 0 || n == 0 {
                    plan is None
                } else if rows > 0 {
                    let added = forward(
                        lines,
                        w,
                        vp.spec_rows().last().line_index as int,
                        vp.spec_rows().last().wrap_index + 1,
                        rows as int,
                    );
                    final(self).spec_viewport().spec_rows() == vp.spec_rows().skip(added.len() as int) + added
                } else {
                    let added = backward(
                        lines,
                        w,
                        vp.spec_rows()[0].line_index as int,
                        vp.spec_rows()[0].wrap_index,
                        -rows,
                        vp.spec_fixed_line_len() as int,
                    );
                    final(self).spec_viewport().spec_rows() == added + vp.spec_rows().take(n - added.len())
                }
            }),
    {
        let old_top = self.viewport.top_line_index();
        let plan = if rows > 0 {
            self.viewport.scroll_down(rows as usize, &self.doc)
        } else {
            self.viewport.scroll_up((-rows) as usize, &self.doc)
        };
        if plan.is_some() {
            let new_top = self.viewport.top_line_index();
            self.header.update_section_on_scroll(&self.doc, old_top, new_top, rows > 0);
        }
        plan
    }

    /// Jump to line `line`, then scroll up until the line shows below any
    /// sticky section header: a block of several lines can grow as the page
    /// moves up, so this repeats. Returns whether the page moved.
    pub fn jump_to_visible(&mut self, line: usize) -> (r: bool)
        requires
            old(self).wf(),
        ensures
            final(self).wf(),
            final(self).spec_doc() == old(self).spec_doc(),
            !r ==> final(self).spec_viewport().spec_rows() == old(self).spec_viewport().spec_rows(),
            ({
                let vp = final(self).spec_viewport();
                ||| shows_below(vp.spec_rows(), vp.spec_overlay_height() as int, line)
                ||| vp.spec_rows().len() == 0
                ||| rows_up_to(
                    final(self).spec_doc().spec_lines(),
                    vp.spec_width() as nat,
                    top_of(vp).0,
                    top_of(vp).1,
                    vp.spec_fixed_line_len() as int,
                ) == 0
            }),
    {
        let mut changed = self.viewport.jump_to(&self.doc, line);
        loop
            invariant_except_break
                self.wf(),
                self.doc == old(self).spec_doc(),
                !changed ==> self.spec_viewport().spec_rows() == old(self).spec_viewport().spec_rows(),
            ensures
                self.wf(),
                self.doc == old(self).spec_doc(),
                !changed ==> self.spec_viewport().spec_rows() == old(self).spec_viewport().spec_rows(),
                ({
                    let vp = self.spec_viewport();
                    ||| shows_below(vp.spec_rows(), vp.spec_overlay_height() as int, line)
                    ||| vp.spec_rows().len() == 0
                    ||| rows_up_to(
                        self.spec_doc().spec_lines(),
                        vp.spec_width() as nat,
                        top_of(vp).0,
                        top_of(vp).1,
                        vp.spec_fixed_line_len() as int,
                    ) == 0
                }),
            decreases rows_up_to(
                self.spec_doc().spec_lines(),
                self.spec_viewport().spec_width() as nat,
                top_of(self.viewport).0,
                top_of(self.viewport).1,
                self.spec_viewport().spec_fixed_line_len() as int,
            ),
        {
            self.resolve_header_synced();
            let overlay = self.viewport.overlay_height();
            let rows = self.viewport.rows();
            let mut target_row: Option<usize> = None;
            let mut k: usize = 0;
            while k < rows.len()
                invariant_except_break
                    target_row is None,
                    forall|j: int| 0 <= j < k ==> !is_line_start(#[trigger] rows@[j], line),
                invariant
                    k <= rows@.len(),
                ensures
                    match target_row {
                        Some(t) => t < rows@.len() && is_line_start(rows@[t as int], line) && forall|j: int|
                            0 <= j < t ==> !is_line_start(#[trigger] rows@[j], line),
                        None => forall|j: int| 0 <= j < rows@.len() ==> !is_line_start(#[trigger] rows@[j], line),
                    },
                decreases rows@.len() - k,
            {
                if rows[k].line_index == line && rows[k].wrap_index == 0 {
                    target_row = Some(k);
                    break;
                }
                k = k + 1;
            }
            let visible = match target_row {
                Some(row) => row >= overlay,
                None => false,
            };
            if visible {
                break;
            }
            let ghost before = self.viewport;
            proof {
                self.doc.lemma_wf();
            }
            match self.viewport.scroll_up(1, &self.doc) {
                None => {
                    break;
                },
                Some(plan) => {
                    let moved = plan.terminal_scroll.get();
                    proof {
                        let lines = self.doc.spec_lines();
                        let w = before.spec_width() as nat;
                        let top = before.spec_rows()[0];
                        lemma_row_above(
                            lines,
                            w,
                            top.line_index as int,
                            top.wrap_index,
                            before.spec_fixed_line_len() as int,
                        );
                    }
                },
            }
            changed = true;
        }
        changed
    }

    /// The header rows for the page as it is, with the sticky section as the
    /// last scroll left it. The section header overlay of the content area
    /// follows.
    pub fn resolve_header(&mut self) -> (r: HeaderLayout)
        requires
            old(self).wf(),
        ensures
            final(self).wf(),
            final(self).spec_doc() == old(self).spec_doc(),
            final(self).spec_viewport().spec_rows() == old(self).spec_viewport().spec_rows(),
            final(self).spec_viewport().spec_width() == old(self).spec_viewport().spec_width(),
            final(self).spec_viewport().spec_overlay_height() == r.spec_rows().len() - r.spec_fixed_height(),
            header_resolved(*old(self), *final(self), old(self).spec_viewport().spec_width(), false, r),
    {
        let width = self.viewport.width();
        self.resolve_header_within(width, false)
    }

    /// The header rows for the page as it is, with the sticky section looked
    /// up again, as a full redraw needs.
    pub fn resolve_header_synced(&mut self) -> (r: HeaderLayout)
        requires
            old(self).wf(),
        ensures
            final(self).wf(),
            final(self).spec_doc() == old(self).spec_doc(),
            final(self).spec_viewport().spec_rows() == old(self).spec_viewport().spec_rows(),
            final(self).spec_viewport().spec_width() == old(self).spec_viewport().spec_width(),
            final(self).spec_viewport().spec_fixed_line_len() == old(self).spec_viewport().spec_fixed_line_len(),
            final(self).spec_viewport().spec_overlay_height() == r.spec_rows().len() - r.spec_fixed_height(),
            header_resolved(*old(self), *final(self), old(self).spec_viewport().spec_width(), true, r),
    {
        let width = self.viewport.width();
        self.resolve_header_within(width, true)
    }

    /// The header rows at `width`; the rows of a block overlaying the
    /// content area go to the content area.
    fn resolve_header_within(&mut self, width: usize, sync_section: bool) -> (r: HeaderLayout)
        requires
            old(self).wf(),
            width == old(self).spec_viewport().spec_width() || (reads_row_distance(
                old(self).spec_doc().spec_lines(),
                old(self).spec_header().spec_index(),
                top_of(old(self).spec_viewport()).0,
                sync_section,
            ) && top_of(old(self).spec_viewport()).0 < old(self).spec_doc().spec_lines().len() ==> top_of(old(self).spec_viewport()).1
                < wrap_of(old(self).spec_doc().spec_lines(), width as nat, top_of(old(self).spec_viewport()).0).len()),
        ensures
            final(self).wf(),
            final(self).spec_doc() == old(self).spec_doc(),
            final(self).spec_viewport().spec_rows() == old(self).spec_viewport().spec_rows(),
            final(self).spec_viewport().spec_width() == old(self).spec_viewport().spec_width(),
            final(self).spec_viewport().spec_fixed_line_len() == old(self).spec_viewport().spec_fixed_line_len(),
            final(self).spec_viewport().spec_overlay_height() == r.spec_rows().len() - r.spec_fixed_height(),
            header_resolved(*old(self), *final(self), width, sync_section, r),
    {
        proof {
            self.doc.lemma_wf();
            let lines = self.doc.spec_lines();
            if self.viewport.spec_rows().len() == 0 && lines.len() > 0 {
                assert(lines[0].wf());
                lines[0].lemma_wrap_shape(width as nat);
            }
        }
        let top = self.viewport.top_line_index();
        let top_wrap = self.viewport.top_wrap_index();
        let rows = self.header.resolve(&self.doc, width, top, top_wrap, sync_section);
        let overlay = self.header.section_overlay();
        proof {
            let h = self.header;
            if let Some(i) = h.spec_index() {
                lemma_overlay_within(
                    self.doc.spec_lines(),
                    i.spec_query(),
                    i.spec_header_lines(),
                    h.spec_fixed_lines(),
                    i.spec_current(),
                    width as nat,
                    top as int,
                    top_wrap as int,
                );
            }
        }
        let fixed = rows.len() - overlay;
        self.viewport.set_overlay_height(overlay);
        HeaderLayout::new(rows, fixed)
    }
}

/// The rows of the first lines of a document only grow with more lines.
proof fn lemma_rows_between_grows(lines: Seq<Line>, width: nat, i: int, j: int)
    requires
        0 <= i <= j,
    ensures
        rows_between(lines, width, 0, i).len() <= rows_between(lines, width, 0, j).len(),
    decreases j - i,
{
    if i < j {
        lemma_rows_between_grows(lines, width, i, j - 1);
    }
}

} // verus!
