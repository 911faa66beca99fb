//! The section header: the nearest heading above the page, pinned below the
//! global header while the page scrolls through its section, the way CSS
//! `position: sticky` pins an element.

use std::ops::Range;

use vstd::prelude::*;

use crate::document::Document;
use crate::line::Row;
use crate::options::HeadingOptions;
use crate::pager::headings::{is_heading_start, is_start_spec, nearest_start};
use crate::pager::rows::{from_lines, rows_between, take_at_most};
use crate::pager::ViewportSize;

verus! {

/// Where section headers can be and how tall they can be.
#[derive(Debug, Clone, Copy, PartialEq, Eq, Structural)]
pub struct SectionConfig {
    /// Lines above this one belong to the global header and are never a
    /// section header.
    pub min_line_index: usize,
    /// At least one row of the viewport is left to the content.
    pub max_header_height: usize,
    pub width: usize,
}

impl SectionConfig {
    /// The configuration for `size` below a global header of
    /// `global_header_height` rows.
    pub open spec fn spec_new(size: ViewportSize, global_header_height: usize) -> SectionConfig {
        let room = if size.height > global_header_height {
            size.height - global_header_height
        } else {
            0
        };
        SectionConfig {
            min_line_index: global_header_height,
            max_header_height: if room > 0 {
                (room - 1) as usize
            } else {
                0
            },
            width: size.width,
        }
    }

    fn new(size: &ViewportSize, global_header_height: usize) -> (r: SectionConfig)
        ensures
            r == SectionConfig::spec_new(*size, global_header_height),
    {
        let max_header_height = size.height.saturating_sub(global_header_height).saturating_sub(1);
        SectionConfig { min_line_index: global_header_height, max_header_height, width: size.width }
    }
}

/// A section header shown: its lines, its rows, and how many of its first
/// rows are pushed up out of view.
#[derive(Debug)]
struct HeaderState {
    line_range: Range<usize>,
    rows: Vec<Row>,
    offset: usize,
}

/// The heading lines a section header starting at line `start` spans.
pub open spec fn header_end(options: HeadingOptions, config: SectionConfig, start: int) -> int {
    start + if options.num_lines < config.max_header_height {
        options.num_lines as int
    } else {
        config.max_header_height as int
    }
}

/// The lines of the nearest section header in `lo..hi`: the nearest heading
/// start, spanning the heading lines, as many as fit.
pub open spec fn header_lines(
    lines: Seq<crate::line::Line>,
    options: Option<HeadingOptions>,
    config: SectionConfig,
    lo: int,
    hi: int,
) -> Option<(int, int)> {
    match options {
        None => None,
        Some(o) => if config.max_header_height == 0 {
            None
        } else {
            match nearest_start(lines, o.pattern@, o.num_lines, lo, hi - 1) {
                None => None,
                Some(i) => Some((i, header_end(o, config, i))),
            }
        },
    }
}

/// The rows of a section header of lines `a..b`, as many as fit.
pub open spec fn header_rows(lines: Seq<crate::line::Line>, config: SectionConfig, a: int, b: int) -> Seq<Row> {
    take_at_most(rows_between(lines, config.width as nat, a, b), config.max_header_height as int)
}

/// The section header: which heading is pinned, if any.
#[derive(Debug)]
pub struct SectionHeader {
    config: SectionConfig,
    options: Option<HeadingOptions>,
    current: Option<HeaderState>,
}

impl SectionHeader {
    pub closed spec fn spec_config(&self) -> SectionConfig {
        self.config
    }

    pub closed spec fn spec_options(&self) -> Option<HeadingOptions> {
        self.options
    }

    /// The lines of the header shown, if any.
    pub closed spec fn spec_lines(&self) -> Option<(int, int)> {
        match self.current {
            None => None,
            Some(h) => Some((h.line_range.start as int, h.line_range.end as int)),
        }
    }

    /// All rows of the header shown, those pushed up included.
    pub closed spec fn spec_full_rows(&self) -> Seq<Row> {
        match self.current {
            None => Seq::empty(),
            Some(h) => h.rows@,
        }
    }

    /// How many of the first rows are pushed up out of view.
    pub closed spec fn spec_offset(&self) -> nat {
        match self.current {
            None => 0,
            Some(h) => h.offset as nat,
        }
    }

    /// The rows of the header in view.
    pub open spec fn spec_rows(&self) -> Seq<Row> {
        self.spec_full_rows().skip(self.spec_offset() as int)
    }

    /// No more rows are pushed up than the header has.
    #[verifier::type_invariant]
    closed spec fn offset_ok(&self) -> bool {
        match self.current {
            None => true,
            Some(h) => h.offset <= h.rows@.len(),
        }
    }

    /// A section header of `options` for `size`, below a global header of
    /// `global_header_height` rows; no heading is pinned yet.
    pub fn new(options: Option<HeadingOptions>, size: &ViewportSize, global_header_height: usize) -> (r:
        SectionHeader)
        ensures
            r.spec_config() == SectionConfig::spec_new(*size, global_header_height),
            r.spec_options() == options,
            r.spec_lines() is None,
    {
        SectionHeader { config: SectionConfig::new(size, global_header_height), options, current: None }
    }

    /// Whether line `line_index` starts a section header: it matches the
    /// pattern and no other line of its heading does.
    pub fn is_header(&self, doc: &Document, line_index: usize) -> (r: bool)
        ensures
            r == match self.spec_options() {
                None => false,
                Some(o) => is_start_spec(doc.spec_lines(), o.pattern@, o.num_lines, line_index as int),
            },
    {
        match &self.options {
            Some(options) => is_heading_start(doc, line_index, options),
            None => false,
        }
    }

    /// The first line of the header shown, if any.
    pub fn start_line_index(&self) -> (r: Option<usize>)
        ensures
            match self.spec_lines() {
                None => r is None,
                Some((a, _)) => r == Some(a as usize),
            },
    {
        match &self.current {
            None => None,
            Some(h) => Some(h.line_range.start),
        }
    }

    /// The rows of the header in view.
    pub fn rows(&self) -> (r: &[Row])
        ensures
            r@ == self.spec_rows(),
    {
        proof {
            use_type_invariant(self);
        }
        match &self.current {
            None => {
                let r: &[Row] = &[];
                proof {
                    assert(r@ =~= self.spec_rows());
                }
                r
            },
            Some(h) => vstd::slice::slice_subrange(h.rows.as_slice(), h.offset, h.rows.len()),
        }
    }

    /// The rows of the header in view.
    pub fn height(&self) -> (r: usize)
        ensures
            r == self.spec_rows().len(),
    {
        self.rows().len()
    }

    /// The rows of the header, those pushed up included.
    pub fn full_height(&self) -> (r: usize)
        ensures
            r == self.spec_full_rows().len(),
    {
        match &self.current {
            None => 0,
            Some(h) => h.rows.len(),
        }
    }

    /// Whether line `line_index` shows in the header.
    pub fn contains(&self, line_index: usize) -> (r: bool)
        ensures
            r == (self.spec_rows().len() > 0 && self.spec_rows()[0].line_index <= line_index
                <= self.spec_rows().last().line_index),
    {
        let rows = self.rows();
        rows.len() > 0 && rows[0].line_index <= line_index && line_index <= rows[rows.len() - 1].line_index
    }

    /// Adapt to a new size: the header shown is wrapped again.
    pub fn resize(&mut self, doc: &Document, size: &ViewportSize, global_header_height: usize)
        requires
            doc.wf(),
        ensures
            final(self).spec_config() == SectionConfig::spec_new(*size, global_header_height),
            final(self).spec_options() == old(self).spec_options(),
            final(self).spec_lines() == old(self).spec_lines(),
            match final(self).spec_lines() {
                None => true,
                Some((a, b)) => final(self).spec_full_rows() == header_rows(
                    doc.spec_lines(),
                    final(self).spec_config(),
                    a,
                    b,
                ),
            },
    {
        proof {
            use_type_invariant(&*self);
        }
        self.config = SectionConfig::new(size, global_header_height);
        let config = self.config;
        let mut current: Option<HeaderState> = None;
        std::mem::swap(&mut current, &mut self.current);
        self.current = match current {
            None => None,
            Some(h) => {
                let rows = from_lines(doc, config.width, h.line_range.start..h.line_range.end, config.max_header_height);
                let offset = if h.offset <= rows.len() {
                    h.offset
                } else {
                    rows.len()
                };
                Some(HeaderState { line_range: h.line_range, rows, offset })
            },
        };
    }

    /// Push the header up by `num_rows` rows, hiding its top rows.
    pub fn push_up(&mut self, num_rows: usize)
        requires
            num_rows <= old(self).spec_full_rows().len(),
        ensures
            final(self).spec_config() == old(self).spec_config(),
            final(self).spec_options() == old(self).spec_options(),
            final(self).spec_lines() == old(self).spec_lines(),
            final(self).spec_full_rows() == old(self).spec_full_rows(),
            old(self).spec_lines() is Some ==> final(self).spec_offset() == num_rows,
    {
        let mut current: Option<HeaderState> = None;
        std::mem::swap(&mut current, &mut self.current);
        self.current = match current {
            None => None,
            Some(h) => Some(HeaderState { offset: num_rows, ..h }),
        };
    }

    /// Pin the section header nearest above line `line_index`, that line
    /// included; with none there, pin nothing.
    pub fn resolve(&mut self, doc: &Document, line_index: usize)
        requires
            doc.wf(),
            line_index < usize::MAX,
            line_index + old(self).spec_config().max_header_height <= usize::MAX,
        ensures
            final(self).spec_config() == old(self).spec_config(),
            final(self).spec_options() == old(self).spec_options(),
            final(self).spec_lines() == header_lines(
                doc.spec_lines(),
                old(self).spec_options(),
                old(self).spec_config(),
                old(self).spec_config().min_line_index as int,
                line_index + 1,
            ),
            match final(self).spec_lines() {
                None => true,
                Some((a, b)) => final(self).spec_full_rows() == header_rows(
                    doc.spec_lines(),
                    final(self).spec_config(),
                    a,
                    b,
                ) && final(self).spec_offset() == 0,
            },
    {
        let range = self.config.min_line_index..(line_index + 1);
        self.current = self.find_header(doc, range);
    }

    /// Like `resolve`, over the lines `line_index_range`, but keep the header
    /// shown when none is found there.
    pub fn resolve_if_found(&mut self, doc: &Document, line_index_range: Range<usize>)
        requires
            doc.wf(),
            line_index_range.end + old(self).spec_config().max_header_height <= usize::MAX + 1,
        ensures
            final(self).spec_config() == old(self).spec_config(),
            final(self).spec_options() == old(self).spec_options(),
            ({
                let found = header_lines(
                    doc.spec_lines(),
                    old(self).spec_options(),
                    old(self).spec_config(),
                    line_index_range.start as int,
                    line_index_range.end as int,
                );
                match found {
                    None => final(self).spec_lines() == old(self).spec_lines() && final(self).spec_full_rows()
                        == old(self).spec_full_rows() && final(self).spec_offset() == old(self).spec_offset(),
                    Some((a, b)) => final(self).spec_lines() == found && final(self).spec_full_rows()
                        == header_rows(doc.spec_lines(), final(self).spec_config(), a, b)
                        && final(self).spec_offset() == 0,
                }
            }),
    {
        let found = self.find_header(doc, line_index_range);
        if found.is_some() {
            self.current = found;
        }
    }

    /// The nearest section header in `range`.
    fn find_header(&self, doc: &Document, range: Range<usize>) -> (r: Option<HeaderState>)
        requires
            doc.wf(),
            range.end + self.spec_config().max_header_height <= usize::MAX + 1,
        ensures
            match header_lines(
                doc.spec_lines(),
                self.spec_options(),
                self.spec_config(),
                range.start as int,
                range.end as int,
            ) {
                None => r is None,
                Some((a, b)) => r matches Some(h) && h.line_range.start == a && h.line_range.end == b
                    && h.rows@ == header_rows(doc.spec_lines(), self.spec_config(), a, b) && h.offset == 0,
            },
    {
        let ghost lines = doc.spec_lines();
        let options = match &self.options {
            None => {
                return None;
            },
            Some(o) => o,
        };
        if self.config.max_header_height == 0 {
            return None;
        }
        let ghost q = options.pattern@;
        let ghost n = options.num_lines;
        if range.end <= range.start {
            return None;
        }
        let mut i = range.end;
        let mut nearest: Option<usize> = None;
        while i > range.start
            invariant_except_break
                nearest is None,
                range.start <= i <= range.end,
                nearest_start(lines, q, n, range.start as int, range.end - 1) == nearest_start(
                    lines,
                    q,
                    n,
                    range.start as int,
                    i - 1,
                ),
            invariant
                lines == doc.spec_lines(),
                q == options.pattern@,
                n == options.num_lines,
                range.start < range.end,
            ensures
                match nearest {
                    Some(s) => nearest_start(lines, q, n, range.start as int, range.end - 1) == Some(s as int)
                        && range.start <= s < range.end,
                    None => nearest_start(lines, q, n, range.start as int, range.end - 1) is None,
                },
            decreases i,
        {
            if is_heading_start(doc, i - 1, options) {
                nearest = Some(i - 1);
                break;
            }
            i = i - 1;
        }
        let start = match nearest {
            None => {
                return None;
            },
            Some(s) => s,
        };
        let height = if options.num_lines < self.config.max_header_height {
            options.num_lines
        } else {
            self.config.max_header_height
        };
        let line_range = start..(start + height);
        let rows = from_lines(doc, self.config.width, start..(start + height), self.config.max_header_height);
        Some(HeaderState { line_range, rows, offset: 0 })
    }
}

} // verus!
