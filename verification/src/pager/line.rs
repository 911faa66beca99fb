//! A line held by a page, with the points where the terminal wraps it.
//!
//! The terminal wraps a long line by itself, so that copying it gives the
//! line back whole; the page only keeps where each wrap row of the line ends,
//! to know which rows it shows.

use vstd::prelude::*;

use crate::line::{map_facts, Line};
use crate::text::{
    byte_offset, byte_slice, bytes_len, char_len_utf8, lemma_byte_offset_full,
    lemma_byte_offset_mono, lemma_byte_offset_step, push_byte_slice, string_from_chars,
};
use crate::width::{char_width, width_of};

verus! {

/// Wrapping state after the first `j` plain characters at `n_cols` columns:
/// the raw byte offsets where wrap rows end so far, and the cells taken in
/// the current row. A character that makes the row overflow starts the next
/// row.
pub open spec fn page_wrap_state(plain: Seq<char>, map: Seq<usize>, n_cols: nat, j: nat) -> (
    Seq<usize>,
    nat,
)
    decreases j,
{
    if j == 0 {
        (Seq::empty(), 0)
    } else {
        let prev = page_wrap_state(plain, map, n_cols, (j - 1) as nat);
        let w = width_of(plain[j - 1]);
        let at = map[byte_offset(plain, j - 1) as int];
        if prev.1 + w > n_cols {
            (prev.0.push(at), w)
        } else {
            (prev.0, prev.1 + w)
        }
    }
}

/// Where each wrap row of a line ends in its raw text, at `n_cols` columns;
/// the last row ends with the line.
pub open spec fn page_wrap_ends(plain: Seq<char>, map: Seq<usize>, raw_len: usize, n_cols: nat) -> Seq<usize> {
    page_wrap_state(plain, map, n_cols, plain.len()).0.push(raw_len)
}

/// The row ends found in the first `j` characters increase strictly and stay
/// below the raw offset of character `j`, or below the end of the raw text.
pub proof fn lemma_page_wrap_breaks(plain: Seq<char>, map: Seq<usize>, raw_len: nat, n_cols: nat, j: nat)
    requires
        map_facts(plain, map, raw_len),
        j <= plain.len(),
    ensures
        forall|k: int|
            0 <= k < page_wrap_state(plain, map, n_cols, j).0.len() ==> (#[trigger] page_wrap_state(
                plain,
                map,
                n_cols,
                j,
            ).0[k]) < (if j < plain.len() {
                map[byte_offset(plain, j as int) as int] as int
            } else {
                raw_len as int
            }),
        forall|a: int, b: int|
            0 <= a < b < page_wrap_state(plain, map, n_cols, j).0.len() ==> (#[trigger] page_wrap_state(
                plain,
                map,
                n_cols,
                j,
            ).0[a]) < (#[trigger] page_wrap_state(plain, map, n_cols, j).0[b]),
        page_wrap_state(plain, map, n_cols, j).0.len() <= j,
    decreases j,
{
    if j > 0 {
        let jj = (j - 1) as nat;
        lemma_page_wrap_breaks(plain, map, raw_len, n_cols, jj);
        lemma_byte_offset_mono(plain, jj as int, plain.len() as int);
        lemma_byte_offset_full(plain);
        lemma_byte_offset_step(plain, jj as int);
        lemma_byte_offset_mono(plain, j as int, plain.len() as int);
        let at = map[byte_offset(plain, jj as int) as int];
        let bound = if j < plain.len() {
            map[byte_offset(plain, j as int) as int] as int
        } else {
            raw_len as int
        };
        assert(at < bound);
        let prev = page_wrap_state(plain, map, n_cols, jj);
        let cur = page_wrap_state(plain, map, n_cols, j);
        let w = width_of(plain[j - 1]);
        if prev.1 + w > n_cols {
            assert(cur.0 == prev.0.push(at));
            assert forall|k: int| 0 <= k < cur.0.len() implies (#[trigger] cur.0[k]) < bound by {
                if k < prev.0.len() {
                    assert(cur.0[k] == prev.0[k]);
                }
            }
            assert forall|a: int, b: int| 0 <= a < b < cur.0.len() implies (#[trigger] cur.0[a]) < (
            #[trigger] cur.0[b]) by {
                assert(cur.0[a] == prev.0[a]);
                if b < prev.0.len() {
                    assert(cur.0[b] == prev.0[b]);
                }
            }
        } else {
            assert(cur.0 == prev.0);
        }
    }
}

/// Text spanning one or more wrap rows of a line, with how many rows it
/// spans.
#[derive(Debug, PartialEq, Eq)]
pub struct RowSpan {
    line: String,
    size: usize,
}

impl RowSpan {
    pub closed spec fn spec_text(&self) -> Seq<char> {
        self.line@
    }

    pub closed spec fn spec_size(&self) -> usize {
        self.size
    }

    /// A span of `size` rows holding `line`.
    pub fn new(line: &str, size: usize) -> (r: RowSpan)
        ensures
            r.spec_text() == line@,
            r.spec_size() == size,
    {
        RowSpan { line: line.to_owned(), size }
    }

    /// The text of the span.
    pub fn line(&self) -> (r: &str)
        ensures
            r@ == self.spec_text(),
    {
        self.line.as_str()
    }

    /// The number of rows the span takes.
    pub fn size(&self) -> (r: usize)
        ensures
            r == self.spec_size(),
    {
        self.size
    }
}

/// `span` holds wrap rows `first` to `last` of `line`, both included.
pub open spec fn is_span<Meta>(span: RowSpan, line: PageLine<Meta>, first: int, last: int) -> bool {
    &&& span.spec_size() == last - first + 1
    &&& span.spec_text() == byte_slice(
        line.spec_line().spec_raw(),
        line.spec_row_start(first) as int,
        line.spec_row_ends()[last] as int,
    )
}

/// A line in a page: any metadata about it, the line itself, and where each
/// of its wrap rows ends in the raw text.
#[derive(Debug)]
pub struct PageLine<Meta> {
    meta: Meta,
    line: Line,
    row_ends: Vec<usize>,
}

impl<Meta> PageLine<Meta> {
    pub closed spec fn spec_meta(&self) -> Meta {
        self.meta
    }

    pub closed spec fn spec_line(&self) -> Line {
        self.line
    }

    /// Where each wrap row ends in the raw text.
    pub closed spec fn spec_row_ends(&self) -> Seq<usize> {
        self.row_ends@
    }

    /// The number of wrap rows.
    pub open spec fn spec_row_len(&self) -> nat {
        self.spec_row_ends().len()
    }

    /// Where wrap row `k` starts in the raw text.
    pub open spec fn spec_row_start(&self, k: int) -> usize {
        if k == 0 {
            0
        } else {
            self.spec_row_ends()[k - 1]
        }
    }

    /// There is at least one row; the rows end in order, the last at the end
    /// of the raw text.
    pub open spec fn wf(&self) -> bool {
        let ends = self.spec_row_ends();
        &&& 1 <= ends.len() <= usize::MAX
        &&& ends.last() == self.spec_line().spec_raw_len()
        &&& forall|a: int, b: int| 0 <= a < b < ends.len() ==> (#[trigger] ends[a]) <= (#[trigger] ends[b])
    }

    /// A line of `text` with `meta`, wrapped at `n_cols` columns.
    pub fn new(meta: Meta, text: String, n_cols: usize) -> (r: PageLine<Meta>)
        requires
            bytes_len(text@) <= usize::MAX,
        ensures
            r.wf(),
            r.spec_meta() == meta,
            r.spec_line().spec_raw() == text@,
            r.spec_row_ends() == page_wrap_ends(
                r.spec_line().spec_plain(),
                r.spec_line().spec_map(),
                r.spec_line().spec_raw_len(),
                n_cols as nat,
            ),
    {
        let line = Line::new(0, text);
        line.lemma_is_wf();
        let row_ends = wrap_ends(&line, n_cols);
        proof {
            // The length of a vector fits in a `usize`.
            assert(row_ends.len() == row_ends@.len());
        }
        PageLine { meta, line, row_ends }
    }

    /// The metadata of this line.
    pub fn meta(&self) -> (r: &Meta)
        ensures
            *r == self.spec_meta(),
    {
        &self.meta
    }

    /// The line itself.
    pub fn line(&self) -> (r: &Line)
        ensures
            *r == self.spec_line(),
    {
        &self.line
    }

    /// The number of wrap rows.
    pub fn row_len(&self) -> (r: usize)
        ensures
            r == self.spec_row_len(),
    {
        self.row_ends.len()
    }

    /// The plain text, without escape sequences.
    pub fn plain(&self) -> (r: &str)
        ensures
            r@ == self.spec_line().spec_plain(),
    {
        self.line.lemma_is_wf();
        self.line.plain()
    }

    /// The raw text of wrap rows `first` to `last`, both included.
    pub fn slice(&self, first: usize, last: usize) -> (r: RowSpan)
        requires
            self.wf(),
            first <= last < self.spec_row_len(),
        ensures
            is_span(r, *self, first as int, last as int),
    {
        let start = if first == 0 {
            0
        } else {
            self.row_ends[first - 1]
        };
        let end = self.row_ends[last];
        let n = self.row_ends.len();
        assert(last < n);
        let mut chars: Vec<char> = Vec::new();
        push_byte_slice(&mut chars, self.line.raw_chars().as_slice(), start, end);
        proof {
            assert(chars@ =~= byte_slice(self.spec_line().spec_raw(), start as int, end as int));
        }
        RowSpan { line: string_from_chars(chars.as_slice()), size: last - first + 1 }
    }
}

/// Where each wrap row of `line` ends, at `n_cols` columns: a row ends right
/// before a character that would make it take more than `n_cols` cells.
fn wrap_ends(line: &Line, n_cols: usize) -> (ends: Vec<usize>)
    requires
        line.wf(),
    ensures
        ends@ == page_wrap_ends(line.spec_plain(), line.spec_map(), line.spec_raw_len(), n_cols as nat),
        ends@.len() >= 1,
        ends@.last() == line.spec_raw_len(),
        forall|a: int, b: int| 0 <= a < b < ends@.len() ==> (#[trigger] ends@[a]) <= (#[trigger] ends@[b]),
{
    let plain_chars = crate::text::chars_of(line.plain());
    let map = line.plain_to_raw();
    let ghost plain = line.spec_plain();
    proof {
        line.lemma_wf();
    }
    let map_len = map.len();
    let mut ends: Vec<usize> = Vec::new();
    let mut n_cells: usize = 0;
    let mut i_plain_byte: usize = 0;
    let mut j: usize = 0;
    while j < plain_chars.len()
        invariant
            line.wf(),
            plain_chars@ == plain,
            plain == line.spec_plain(),
            map@ == line.spec_map(),
            map_facts(plain, map@, line.spec_raw_len() as nat),
            map_len == map@.len(),
            j <= plain.len(),
            i_plain_byte == byte_offset(plain, j as int),
            page_wrap_state(plain, map@, n_cols as nat, j as nat) == (ends@, n_cells as nat),
            n_cells <= n_cols || n_cells <= 255,
        decreases plain.len() - j,
    {
        proof {
            lemma_byte_offset_step(plain, j as int);
            lemma_byte_offset_mono(plain, j + 1, plain.len() as int);
            lemma_byte_offset_full(plain);
        }
        let ch = plain_chars[j];
        let at = map[i_plain_byte];
        let w = char_width(ch);
        if w > n_cols || n_cells > n_cols - w {
            ends.push(at);
            n_cells = w;
        } else {
            n_cells = n_cells + w;
        }
        i_plain_byte = i_plain_byte + char_len_utf8(ch);
        j = j + 1;
    }
    proof {
        lemma_page_wrap_breaks(plain, map@, line.spec_raw_len() as nat, n_cols as nat, plain.len());
    }
    ends.push(line.raw_len());
    proof {
        let e = ends@;
        assert forall|a: int, b: int| 0 <= a < b < e.len() implies (#[trigger] e[a]) <= (#[trigger] e[b]) by {
            if b == e.len() - 1 {
                assert(e[a] < line.spec_raw_len());
            }
        }
    }
    ends
}

} // verus!
