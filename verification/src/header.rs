//! Sticky header lines pinned at the top of the screen: a fixed number of
//! lines from the start of the document, then the heading block of the
//! section the page is in.

use vstd::prelude::*;

use crate::document::Document;
use crate::line::Line;
use crate::options::HeadingOptions;
use crate::page::viewport::{screen_rows, ScreenRow};
use crate::pager::headings::line_matches;
use crate::pager::rows::{rows_between, wrap_of};
use crate::query::Query;

verus! {

/// The first line in `a..b` that matches `query`.
pub open spec fn first_match_in(lines: Seq<Line>, query: Seq<char>, a: int, b: int) -> Option<int>
    decreases b - a,
{
    if b <= a {
        None
    } else if line_matches(lines, query, a) {
        Some(a)
    } else {
        first_match_in(lines, query, a + 1, b)
    }
}

/// The last line before `top` that matches `query`.
pub open spec fn last_match_below(lines: Seq<Line>, query: Seq<char>, top: int) -> Option<int>
    decreases top,
{
    if top <= 0 {
        None
    } else if line_matches(lines, query, top - 1) {
        Some(top - 1)
    } else {
        last_match_below(lines, query, top - 1)
    }
}

/// Where the section of a match at line `cur` really starts: a match within
/// the heading block of an earlier match belongs to that earlier section.
pub open spec fn section_start_of(lines: Seq<Line>, query: Seq<char>, header_lines: usize, cur: int) -> int
    decreases cur,
{
    let check_start = if cur >= header_lines - 1 {
        cur - (header_lines - 1)
    } else {
        0
    };
    match first_match_in(lines, query, check_start, cur) {
        Some(j) => if 0 <= j < cur {
            section_start_of(lines, query, header_lines, j)
        } else {
            cur
        },
        None => cur,
    }
}

/// The section sticky above a page whose first line is `top`: the section
/// of the last match above it.
pub open spec fn section_above(lines: Seq<Line>, query: Seq<char>, header_lines: usize, top: int) -> Option<int> {
    match last_match_below(lines, query, top) {
        Some(i) => Some(section_start_of(lines, query, header_lines, i)),
        None => None,
    }
}

/// The sticky section after scrolling down over lines `i..end`: each match
/// outside the heading block of the sticky section starts a new one.
pub open spec fn scan_down(
    lines: Seq<Line>,
    query: Seq<char>,
    header_lines: usize,
    current: Option<usize>,
    skip_until: int,
    i: int,
    end: int,
) -> Option<usize>
    decreases end - i,
{
    if i >= end {
        current
    } else if i >= skip_until && line_matches(lines, query, i) {
        scan_down(lines, query, header_lines, Some(i as usize), i + header_lines, i + 1, end)
    } else {
        scan_down(lines, query, header_lines, current, skip_until, i + 1, end)
    }
}

/// Where the heading block of the sticky section ends.
pub open spec fn block_end(current: Option<usize>, header_lines: usize) -> int {
    match current {
        Some(s) => s + header_lines,
        None => 0,
    }
}

/// The screen rows from line `idx` on until the next section start outside
/// the heading block ending at `skip_until`, counting `count` rows so far;
/// none when `max_rows` rows go by first or the lines run out. Of line `top`
/// only the rows from `top_wrap` on count.
pub open spec fn rows_to_next_section(
    lines: Seq<Line>,
    query: Seq<char>,
    width: nat,
    top: int,
    top_wrap: int,
    skip_until: int,
    max_rows: int,
    idx: int,
    count: int,
) -> Option<int>
    decreases lines.len() - idx,
{
    if count >= max_rows || idx < 0 || idx >= lines.len() {
        None
    } else if idx >= skip_until && line_matches(lines, query, idx) {
        Some(count)
    } else {
        let rows = wrap_of(lines, width, idx).len() - if idx == top {
            top_wrap
        } else {
            0
        };
        rows_to_next_section(lines, query, width, top, top_wrap, skip_until, max_rows, idx + 1, count + rows)
    }
}

/// The screen rows of lines `a..b` that exist, at `width`.
fn rows_of_lines(doc: &Document, width: usize, a: usize, b: usize) -> (r: Vec<ScreenRow>)
    requires
        doc.wf(),
    ensures
        r@ == screen_rows(rows_between(doc.spec_lines(), width as nat, a as int, b as int)),
{
    let ghost lines = doc.spec_lines();
    let mut rows: Vec<ScreenRow> = Vec::new();
    if a >= b {
        proof {
            assert(rows@ =~= screen_rows(rows_between(lines, width as nat, a as int, b as int)));
        }
        return rows;
    }
    let mut i = a;
    while i < b
        invariant
            doc.wf(),
            lines == doc.spec_lines(),
            a <= i <= b,
            rows@ == screen_rows(rows_between(lines, width as nat, a as int, i as int)),
        decreases b - i,
    {
        let ghost before = rows@;
        if let Some(line) = doc.line(i) {
            let wrapped = line.wrap(width);
            let mut t: usize = 0;
            while t < wrapped.len()
                invariant
                    t <= wrapped@.len(),
                    rows@ == before + screen_rows(wrapped@.take(t as int)),
                decreases wrapped@.len() - t,
            {
                let r = wrapped[t];
                rows.push(ScreenRow { line_index: r.line_index, wrap_index: r.wrap_index, raw_range: r.raw_start..r.raw_end });
                t += 1;
                proof {
                    assert(rows@ =~= before + screen_rows(wrapped@.take(t as int)));
                }
            }
            proof {
                assert(wrapped@.take(t as int) =~= wrapped@);
            }
        }
        i += 1;
        proof {
            assert(rows@ =~= screen_rows(rows_between(lines, width as nat, a as int, i as int)));
        }
    }
    rows
}

/// Tracks where sections start, to find the section sticky above the page.
/// A section starts at a line matching the pattern; its heading block spans
/// `header_lines` lines from there.
#[derive(Debug)]
pub struct SectionIndex {
    pattern: Query,
    header_lines: usize,
    cached_section: Option<usize>,
}

impl SectionIndex {
    pub closed spec fn spec_query(&self) -> Seq<char> {
        self.pattern@
    }

    pub closed spec fn spec_header_lines(&self) -> usize {
        self.header_lines
    }

    pub closed spec fn spec_current(&self) -> Option<usize> {
        self.cached_section
    }

    /// Sections of `pattern` with heading blocks of `header_lines` lines; no
    /// section is sticky yet.
    pub fn new(pattern: Query, header_lines: usize) -> (r: SectionIndex)
        ensures
            r.spec_query() == pattern@,
            r.spec_header_lines() == header_lines,
            r.spec_current() is None,
    {
        SectionIndex { pattern, header_lines, cached_section: None }
    }

    /// How many lines a heading block spans.
    pub fn header_lines(&self) -> (r: usize)
        ensures
            r == self.spec_header_lines(),
    {
        self.header_lines
    }

    /// The start of the sticky section, if any.
    pub fn current_section(&self) -> (r: Option<usize>)
        ensures
            r == self.spec_current(),
    {
        self.cached_section
    }

    fn is_match(&self, doc: &Document, i: usize) -> (r: bool)
        ensures
            r == line_matches(doc.spec_lines(), self.spec_query(), i as int),
    {
        match doc.line(i) {
            Some(line) => line.has_match(&self.pattern),
            None => false,
        }
    }

    /// Where the section of a match at `match_line` really starts, walking
    /// back through the heading blocks it falls within.
    pub fn resolve_section_start(&self, doc: &Document, match_line: usize) -> (r: usize)
        requires
            self.spec_header_lines() >= 1,
        ensures
            r == section_start_of(doc.spec_lines(), self.spec_query(), self.spec_header_lines(), match_line as int),
    {
        let ghost lines = doc.spec_lines();
        let ghost q = self.spec_query();
        let ghost h = self.spec_header_lines();
        let mut current = match_line;
        loop
            invariant
                h >= 1,
                lines == doc.spec_lines(),
                q == self.spec_query(),
                h == self.spec_header_lines(),
                section_start_of(lines, q, h, match_line as int) == section_start_of(lines, q, h, current as int),
            decreases current,
        {
            let check_start = current.saturating_sub(self.header_lines - 1);
            let mut j = check_start;
            let mut earlier: Option<usize> = None;
            while j < current
                invariant_except_break
                    earlier is None,
                    check_start <= j <= current,
                    first_match_in(lines, q, check_start as int, current as int) == first_match_in(
                        lines,
                        q,
                        j as int,
                        current as int,
                    ),
                invariant
                    lines == doc.spec_lines(),
                    q == self.spec_query(),
                ensures
                    earlier == match first_match_in(lines, q, check_start as int, current as int) {
                        Some(k) => Some(k as usize),
                        None => None,
                    },
                    earlier matches Some(k) ==> check_start <= k < current,
                decreases current - j,
            {
                if self.is_match(doc, j) {
                    earlier = Some(j);
                    break;
                }
                j = j + 1;
            }
            proof {
                lemma_first_match_in_range(lines, q, check_start as int, current as int);
            }
            match earlier {
                Some(k) => {
                    current = k;
                },
                None => {
                    return current;
                },
            }
        }
    }

    /// The section sticky above a page whose first line is `viewport_top`:
    /// scanning back from it, the section of the nearest match above.
    pub fn find_section(&mut self, doc: &Document, viewport_top: usize) -> (r: Option<usize>)
        requires
            old(self).spec_header_lines() >= 1,
        ensures
            final(self).spec_query() == old(self).spec_query(),
            final(self).spec_header_lines() == old(self).spec_header_lines(),
            r == final(self).spec_current(),
            match section_above(doc.spec_lines(), old(self).spec_query(), old(self).spec_header_lines(), viewport_top as int) {
                Some(s) => r == Some(s as usize),
                None => r is None,
            },
    {
        let r = self.section_above_top(doc, viewport_top);
        self.cached_section = r;
        r
    }

    /// The section of the nearest match above `top`.
    fn section_above_top(&self, doc: &Document, top: usize) -> (r: Option<usize>)
        requires
            self.spec_header_lines() >= 1,
        ensures
            match section_above(doc.spec_lines(), self.spec_query(), self.spec_header_lines(), top as int) {
                Some(s) => r == Some(s as usize),
                None => r is None,
            },
    {
        let ghost lines = doc.spec_lines();
        let ghost q = self.spec_query();
        let mut i = top;
        while i > 0
            invariant
                i <= top,
                self.spec_header_lines() >= 1,
                lines == doc.spec_lines(),
                q == self.spec_query(),
                last_match_below(lines, q, top as int) == last_match_below(lines, q, i as int),
            decreases i,
        {
            if self.is_match(doc, i - 1) {
                let start = self.resolve_section_start(doc, i - 1);
                return Some(start);
            }
            i = i - 1;
        }
        None
    }

    /// The screen rows from the first line of the page, `viewport_top` at wrap
    /// row `viewport_top_wrap`, down to the next section start outside the
    /// sticky heading block; none when `max_rows` rows go by first or the
    /// lines run out.
    pub fn find_next_section_row_distance(
        &self,
        doc: &Document,
        viewport_top: usize,
        viewport_top_wrap: usize,
        max_rows: usize,
        width: usize,
    ) -> (r: Option<usize>)
        requires
            doc.wf(),
            viewport_top < doc.spec_lines().len() ==> viewport_top_wrap < wrap_of(
                doc.spec_lines(),
                width as nat,
                viewport_top as int,
            ).len(),
        ensures
            ({
                let found = rows_to_next_section(
                    doc.spec_lines(),
                    self.spec_query(),
                    width as nat,
                    viewport_top as int,
                    viewport_top_wrap as int,
                    block_end(self.spec_current(), self.spec_header_lines()),
                    max_rows as int,
                    viewport_top as int,
                    0,
                );
                match r {
                    Some(d) => found == Some(d as int),
                    None => found is None,
                }
            }),
    {
        let ghost lines = doc.spec_lines();
        let ghost q = self.spec_query();
        let ghost skip = block_end(self.spec_current(), self.spec_header_lines());
        let skip_until = match self.cached_section {
            Some(s) => s.saturating_add(self.header_lines),
            None => 0,
        };
        let count = doc.line_count();
        let mut row_count: usize = 0;
        let mut line_idx = viewport_top;
        let ghost goal = rows_to_next_section(
            lines,
            q,
            width as nat,
            viewport_top as int,
            viewport_top_wrap as int,
            skip,
            max_rows as int,
            viewport_top as int,
            0,
        );
        while row_count < max_rows
            invariant
                doc.wf(),
                lines == doc.spec_lines(),
                q == self.spec_query(),
                viewport_top <= line_idx,
                count == lines.len(),
                skip == block_end(self.spec_current(), self.spec_header_lines()),
                goal == rows_to_next_section(
                    lines,
                    q,
                    width as nat,
                    viewport_top as int,
                    viewport_top_wrap as int,
                    skip,
                    max_rows as int,
                    viewport_top as int,
                    0,
                ),
                skip_until == (if skip <= usize::MAX { skip } else { usize::MAX as int }),
                viewport_top < lines.len() ==> viewport_top_wrap < wrap_of(lines, width as nat, viewport_top as int).len(),
                goal == rows_to_next_section(
                    lines,
                    q,
                    width as nat,
                    viewport_top as int,
                    viewport_top_wrap as int,
                    skip,
                    max_rows as int,
                    line_idx as int,
                    row_count as int,
                ),
            decreases lines.len() - line_idx,
        {
            let line = match doc.line(line_idx) {
                Some(l) => l,
                None => {
                    assert(goal is None);
                    return None;
                },
            };
            if line_idx >= skip_until && line.has_match(&self.pattern) {
                assert(line_matches(lines, q, line_idx as int));
                assert(line_idx >= skip);
                assert(goal == Some(row_count as int));
                return Some(row_count);
            }
            let rows = line.row_count(width);
            let add = if line_idx == viewport_top {
                rows - viewport_top_wrap
            } else {
                rows
            };
            let ghost exact = row_count + add;
            row_count = row_count.saturating_add(add);
            proof {
                assert(rows_to_next_section(
                    lines,
                    q,
                    width as nat,
                    viewport_top as int,
                    viewport_top_wrap as int,
                    skip,
                    max_rows as int,
                    line_idx + 1,
                    exact,
                ) == rows_to_next_section(
                    lines,
                    q,
                    width as nat,
                    viewport_top as int,
                    viewport_top_wrap as int,
                    skip,
                    max_rows as int,
                    line_idx + 1,
                    row_count as int,
                ));
            }
            line_idx = line_idx + 1;
        }
        None
    }

    /// After scrolling down from `old_top` to `new_top`, the last section
    /// started in the lines scrolled past, skipping matches within the sticky
    /// heading block, becomes sticky.
    pub fn update_on_scroll_down(&mut self, doc: &Document, old_top: usize, new_top: usize)
        ensures
            final(self).spec_query() == old(self).spec_query(),
            final(self).spec_header_lines() == old(self).spec_header_lines(),
            final(self).spec_current() == scan_down(
                doc.spec_lines(),
                old(self).spec_query(),
                old(self).spec_header_lines(),
                old(self).spec_current(),
                block_end(old(self).spec_current(), old(self).spec_header_lines()),
                old_top as int,
                new_top as int,
            ),
    {
        let ghost lines = doc.spec_lines();
        let ghost q = self.spec_query();
        let ghost h = self.spec_header_lines();
        let ghost goal = scan_down(lines, q, h, self.cached_section, block_end(self.cached_section, h), old_top as int, new_top as int);
        let mut skip_until = match self.cached_section {
            Some(s) => s.saturating_add(self.header_lines),
            None => 0,
        };
        let ghost mut skip: int = block_end(self.cached_section, h);
        let mut i = old_top;
        while i < new_top
            invariant
                lines == doc.spec_lines(),
                q == self.spec_query(),
                h == self.spec_header_lines(),
                old_top <= i,
                skip_until == (if skip <= usize::MAX { skip } else { usize::MAX as int }),
                goal == scan_down(lines, q, h, self.cached_section, skip, i as int, new_top as int),
            decreases new_top - i,
        {
            if i >= skip_until && self.is_match(doc, i) {
                self.cached_section = Some(i);
                skip_until = i.saturating_add(self.header_lines);
                proof {
                    skip = i + h;
                }
            }
            i = i + 1;
        }
    }

    /// After scrolling up to `new_top`, a sticky section that starts on the
    /// page or below is dropped for the section above the page, if any.
    pub fn update_on_scroll_up(&mut self, doc: &Document, new_top: usize)
        requires
            old(self).spec_header_lines() >= 1,
        ensures
            final(self).spec_query() == old(self).spec_query(),
            final(self).spec_header_lines() == old(self).spec_header_lines(),
            match old(self).spec_current() {
                Some(s) if s >= new_top => match section_above(
                    doc.spec_lines(),
                    old(self).spec_query(),
                    old(self).spec_header_lines(),
                    new_top as int,
                ) {
                    Some(t) => final(self).spec_current() == Some(t as usize),
                    None => final(self).spec_current() is None,
                },
                _ => final(self).spec_current() == old(self).spec_current(),
            },
    {
        let section_start = match self.cached_section {
            None => {
                return;
            },
            Some(s) => s,
        };
        if section_start >= new_top {
            self.cached_section = None;
            if new_top == 0 {
                return;
            }
            self.cached_section = self.section_above_top(doc, new_top);
        }
    }
}

/// The first match in `a..b` lies in that range.
proof fn lemma_first_match_in_range(lines: Seq<Line>, query: Seq<char>, a: int, b: int)
    ensures
        first_match_in(lines, query, a, b) matches Some(k) ==> a <= k < b,
    decreases b - a,
{
    if a < b && !line_matches(lines, query, a) {
        lemma_first_match_in_range(lines, query, a + 1, b);
    }
}

/// The end of the heading block of a section starting at `s`, as far as a
/// line index goes.
pub open spec fn block_limit(s: usize, header_lines: usize) -> int {
    if s + header_lines <= usize::MAX {
        s + header_lines
    } else {
        usize::MAX as int
    }
}

/// The header rows: every row of the fixed lines, then of the heading block
/// of the sticky section `current`, without the fixed lines again. A block of
/// more than one line overlays the content and is pushed up, row by row, by
/// the next section as it comes near: only its last rows, as many as there
/// are rows down to the next section, show. Also gives how many rows overlay
/// the content.
pub open spec fn header_rows_spec(
    lines: Seq<Line>,
    query: Seq<char>,
    header_lines: usize,
    fixed_lines: usize,
    current: Option<usize>,
    width: nat,
    top: int,
    top_wrap: int,
) -> (Seq<ScreenRow>, nat) {
    let fixed = screen_rows(rows_between(lines, width, 0, fixed_lines as int));
    match current {
        None => (fixed, 0),
        Some(s) => {
            let start = if s > fixed_lines {
                s
            } else {
                fixed_lines
            };
            let block = screen_rows(rows_between(lines, width, start as int, block_limit(s, header_lines)));
            let overlay = header_lines > 1;
            let shown = if overlay {
                match rows_to_next_section(
                    lines,
                    query,
                    width,
                    top,
                    top_wrap,
                    block_end(current, header_lines),
                    block.len() as int,
                    top,
                    0,
                ) {
                    Some(d) => if 0 <= d < block.len() {
                        d as nat
                    } else {
                        block.len()
                    },
                    None => block.len(),
                }
            } else {
                block.len()
            };
            (
                fixed + block.skip(block.len() - shown),
                if overlay {
                    shown
                } else {
                    0
                },
            )
        },
    }
}

/// The rows overlaying the content are among the header rows.
pub proof fn lemma_overlay_within(
    lines: Seq<Line>,
    query: Seq<char>,
    header_lines: usize,
    fixed_lines: usize,
    current: Option<usize>,
    width: nat,
    top: int,
    top_wrap: int,
)
    ensures
        ({
            let (rows, overlay) = header_rows_spec(lines, query, header_lines, fixed_lines, current, width, top, top_wrap);
            overlay <= rows.len()
        }),
{
    if let Some(s) = current {
        let start = if s > fixed_lines {
            s
        } else {
            fixed_lines
        };
        let block = screen_rows(rows_between(lines, width, start as int, block_limit(s, header_lines)));
        let fixed = screen_rows(rows_between(lines, width, 0, fixed_lines as int));
        let (rows, overlay) = header_rows_spec(lines, query, header_lines, fixed_lines, current, width, top, top_wrap);
        let shown: nat = if header_lines > 1 {
            match rows_to_next_section(lines, query, width, top, top_wrap, block_end(current, header_lines), block.len() as int, top, 0) {
                Some(d) => if 0 <= d < block.len() {
                    d as nat
                } else {
                    block.len()
                },
                None => block.len(),
            }
        } else {
            block.len()
        };
        assert(shown <= block.len());
        assert(rows == fixed + block.skip(block.len() - shown));
        assert(block.skip(block.len() - shown).len() == shown);
    }
}

/// Whether resolving the header at `top` reads how far down the next section
/// is, which it does for a sticky heading block of more than one line.
pub open spec fn reads_row_distance(lines: Seq<Line>, index: Option<SectionIndex>, top: int, sync: bool) -> bool {
    match index {
        None => false,
        Some(i) => i.spec_header_lines() > 1 && if sync {
            section_above(lines, i.spec_query(), i.spec_header_lines(), top) is Some
        } else {
            i.spec_current() is Some
        },
    }
}

/// `after` is `before` after resolving the header rows `rows` at `width`
/// for a page whose first row is wrap row `top_wrap` of line `top`: without
/// a section index, the rows are those of the fixed lines; with one, the
/// section is looked up again when `sync` asks for it, and the rows and the
/// overlay are those `header_rows_spec` gives.
pub open spec fn resolved(
    lines: Seq<Line>,
    before: Header,
    after: Header,
    width: nat,
    top: int,
    top_wrap: int,
    sync: bool,
    rows: Seq<ScreenRow>,
) -> bool {
    &&& after.spec_fixed_lines() == before.spec_fixed_lines()
    &&& match (before.spec_index(), after.spec_index()) {
        (None, None) => {
            let fixed = screen_rows(rows_between(lines, width, 0, before.spec_fixed_lines() as int));
            rows == fixed && after.spec_overlay() == 0
        },
        (Some(a), Some(b)) => {
            &&& b.spec_query() == a.spec_query()
            &&& b.spec_header_lines() == a.spec_header_lines()
            &&& b.spec_current() == if sync {
                match section_above(lines, a.spec_query(), a.spec_header_lines(), top) {
                    Some(t) => Some(t as usize),
                    None => None,
                }
            } else {
                a.spec_current()
            }
            &&& (rows, after.spec_overlay() as nat) == header_rows_spec(
                lines,
                b.spec_query(),
                b.spec_header_lines(),
                before.spec_fixed_lines(),
                b.spec_current(),
                width,
                top,
                top_wrap,
            )
        },
        _ => false,
    }
}

/// Manages the sticky header lines pinned at the top of the screen.
#[derive(Debug)]
pub struct Header {
    /// Number of lines pinned from the top of the document.
    fixed_lines: usize,
    /// Section index for the sticky section headers.
    section_index: Option<SectionIndex>,
    /// The rows of the content the section header overlays, as the last
    /// resolve found them. A block of one line never overlays: the content is
    /// moved down instead.
    cached_overlay: usize,
}

impl Header {
    pub closed spec fn spec_fixed_lines(&self) -> usize {
        self.fixed_lines
    }

    pub closed spec fn spec_index(&self) -> Option<SectionIndex> {
        self.section_index
    }

    pub closed spec fn spec_overlay(&self) -> usize {
        self.cached_overlay
    }

    /// Heading blocks span at least one line.
    pub open spec fn wf(&self) -> bool {
        self.spec_index() matches Some(i) ==> i.spec_header_lines() >= 1
    }

    /// A header of `fixed_lines` lines, with sticky sections of `section`.
    pub fn new(fixed_lines: usize, section: Option<HeadingOptions>) -> (r: Header)
        requires
            section matches Some(o) ==> o.num_lines >= 1,
        ensures
            r.wf(),
            r.spec_fixed_lines() == fixed_lines,
            r.spec_overlay() == 0,
            match section {
                None => r.spec_index() is None,
                Some(o) => r.spec_index() matches Some(i) && i.spec_query() == o.pattern@ && i.spec_header_lines()
                    == o.num_lines && i.spec_current() is None,
            },
    {
        let section_index = match section {
            None => None,
            Some(o) => Some(SectionIndex::new(o.pattern, o.num_lines)),
        };
        Header { fixed_lines, section_index, cached_overlay: 0 }
    }

    /// The first line the content may start from: the lines above are pinned.
    pub fn min_top_line(&self) -> (r: usize)
        ensures
            r == self.spec_fixed_lines(),
    {
        self.fixed_lines
    }

    /// The start of the sticky section, if any.
    pub fn current_section(&self) -> (r: Option<usize>)
        ensures
            r == match self.spec_index() {
                Some(i) => i.spec_current(),
                None => None,
            },
    {
        match &self.section_index {
            Some(index) => index.current_section(),
            None => None,
        }
    }

    /// The rows of the content the section header overlays.
    pub fn section_overlay(&self) -> (r: usize)
        ensures
            r == self.spec_overlay(),
    {
        self.cached_overlay
    }

    /// Follow a scroll from `old_top` to `new_top` in the section index.
    pub fn update_section_on_scroll(&mut self, doc: &Document, old_top: usize, new_top: usize, is_down: bool)
        requires
            old(self).wf(),
        ensures
            final(self).wf(),
            final(self).spec_fixed_lines() == old(self).spec_fixed_lines(),
            final(self).spec_overlay() == old(self).spec_overlay(),
            match (old(self).spec_index(), final(self).spec_index()) {
                (None, None) => true,
                (Some(a), Some(b)) => {
                    &&& b.spec_query() == a.spec_query()
                    &&& b.spec_header_lines() == a.spec_header_lines()
                    &&& is_down ==> b.spec_current() == scan_down(
                        doc.spec_lines(),
                        a.spec_query(),
                        a.spec_header_lines(),
                        a.spec_current(),
                        block_end(a.spec_current(), a.spec_header_lines()),
                        old_top as int,
                        new_top as int,
                    )
                    &&& !is_down ==> match a.spec_current() {
                        Some(s) if s >= new_top => match section_above(
                            doc.spec_lines(),
                            a.spec_query(),
                            a.spec_header_lines(),
                            new_top as int,
                        ) {
                            Some(t) => b.spec_current() == Some(t as usize),
                            None => b.spec_current() is None,
                        },
                        _ => b.spec_current() == a.spec_current(),
                    }
                },
                _ => false,
            },
    {
        let mut index = None;
        std::mem::swap(&mut index, &mut self.section_index);
        if let Some(mut idx) = index {
            if is_down {
                idx.update_on_scroll_down(doc, old_top, new_top);
            } else {
                idx.update_on_scroll_up(doc, new_top);
            }
            self.section_index = Some(idx);
        }
    }

    /// The header rows for a page whose first row is wrap row
    /// `viewport_top_wrap` of line `viewport_top`, at `width`; with
    /// `sync_section`, the sticky section is looked up again first, as a jump
    /// or a full redraw needs.
    pub fn resolve(
        &mut self,
        doc: &Document,
        width: usize,
        viewport_top: usize,
        viewport_top_wrap: usize,
        sync_section: bool,
    ) -> (rows: Vec<ScreenRow>)
        requires
            old(self).wf(),
            doc.wf(),
            reads_row_distance(doc.spec_lines(), old(self).spec_index(), viewport_top as int, sync_section)
                && viewport_top < doc.spec_lines().len() ==> viewport_top_wrap < wrap_of(
                doc.spec_lines(),
                width as nat,
                viewport_top as int,
            ).len(),
        ensures
            final(self).wf(),
            final(self).spec_fixed_lines() == old(self).spec_fixed_lines(),
            resolved(
                doc.spec_lines(),
                *old(self),
                *final(self),
                width as nat,
                viewport_top as int,
                viewport_top_wrap as int,
                sync_section,
                rows@,
            ),
    {
        let mut index = None;
        std::mem::swap(&mut index, &mut self.section_index);
        let mut rows = self.resolve_fixed(doc, width);
        let ghost fixed = rows@;
        let idx = match index {
            None => {
                self.cached_overlay = 0;
                return rows;
            },
            Some(mut idx) => {
                if sync_section {
                    idx.find_section(doc, viewport_top);
                }
                idx
            },
        };
        let mut overlay: usize = 0;
        if let Some(section_start) = idx.current_section() {
            let n = idx.header_lines();
            let use_overlay = n > 1;
            let effective_start = if section_start > self.fixed_lines {
                section_start
            } else {
                self.fixed_lines
            };
            let block_rows = rows_of_lines(doc, width, effective_start, section_start.saturating_add(n));
            let display_rows = if use_overlay {
                let max_rows = match idx.find_next_section_row_distance(
                    doc,
                    viewport_top,
                    viewport_top_wrap,
                    block_rows.len(),
                    width,
                ) {
                    Some(d) => d,
                    None => block_rows.len(),
                };
                if max_rows < block_rows.len() {
                    max_rows
                } else {
                    block_rows.len()
                }
            } else {
                block_rows.len()
            };
            let skip = block_rows.len() - display_rows;
            let ghost before = rows@;
            let mut k = skip;
            while k < block_rows.len()
                invariant
                    skip <= k <= block_rows@.len(),
                    rows@ == before + block_rows@.subrange(skip as int, k as int),
                decreases block_rows@.len() - k,
            {
                rows.push(block_rows[k].clone());
                k = k + 1;
                proof {
                    assert(rows@ =~= before + block_rows@.subrange(skip as int, k as int));
                }
            }
            proof {
                assert(block_rows@.subrange(skip as int, k as int) =~= block_rows@.skip(skip as int));
            }
            if use_overlay {
                overlay = display_rows;
            }
        }
        self.cached_overlay = overlay;
        self.section_index = Some(idx);
        rows
    }

    /// The rows of the fixed lines alone, for the first layout.
    pub fn resolve_fixed_height(&self, doc: &Document, width: usize) -> (r: usize)
        requires
            doc.wf(),
        ensures
            r == rows_between(doc.spec_lines(), width as nat, 0, self.spec_fixed_lines() as int).len(),
    {
        self.resolve_fixed(doc, width).len()
    }

    /// The rows of the fixed lines.
    fn resolve_fixed(&self, doc: &Document, width: usize) -> (rows: Vec<ScreenRow>)
        requires
            doc.wf(),
        ensures
            rows@ == screen_rows(rows_between(doc.spec_lines(), width as nat, 0, self.spec_fixed_lines() as int)),
    {
        rows_of_lines(doc, width, 0, self.fixed_lines)
    }
}

} // verus!
