//! Reading the lines of a source text forward and backward, by byte
//! position.

use vstd::prelude::*;

use crate::document::{decode_lossy, utf8_lossy};
use crate::text::bytes_len;

verus! {

/// Byte length of a line break.
pub const BLB: u64 = 1;

/// The byte range of a line in the source text; `end_byte` is exclusive and
/// leaves out the line break.
/// ```text
/// abc\n  : start=0, end=3
/// defg\n : start=4, end=8
/// hi     : start=9, end=11
/// ```
#[derive(Debug, Clone, Copy, PartialEq, Eq, Structural)]
pub struct LinePos {
    start_byte: u64,
    end_byte: u64,
}

impl LinePos {
    pub closed spec fn spec_start(&self) -> u64 {
        self.start_byte
    }

    pub closed spec fn spec_end(&self) -> u64 {
        self.end_byte
    }

    pub fn new(start_byte: u64, end_byte: u64) -> (r: LinePos)
        ensures
            r.spec_start() == start_byte,
            r.spec_end() == end_byte,
    {
        LinePos { start_byte, end_byte }
    }

    pub fn start_byte(&self) -> (r: u64)
        ensures
            r == self.spec_start(),
    {
        self.start_byte
    }

    pub fn end_byte(&self) -> (r: u64)
        ensures
            r == self.spec_end(),
    {
        self.end_byte
    }

    /// Where the next line starts: past this line's break.
    pub fn next_start_byte(&self) -> (r: u64)
        requires
            self.spec_end() + BLB <= u64::MAX,
        ensures
            r == self.spec_end() + BLB,
            r == next_start_of(*self),
    {
        self.end_byte + BLB
    }

    /// Where the previous line ends, before the break that precedes this
    /// line; `None` for the first line.
    pub fn prev_end_byte(&self) -> (r: Option<u64>)
        ensures
            self.spec_start() == 0 ==> r is None,
            self.spec_start() > 0 ==> r == Some((self.spec_start() - BLB) as u64),
            r == prev_end_of(*self),
    {
        if self.start_byte == 0 {
            None
        } else {
            Some(self.start_byte - BLB)
        }
    }
}


/// Where the line after the one at `p` starts: past its line break.
pub open spec fn next_start_of(p: LinePos) -> int {
    p.spec_end() + BLB
}

/// Where the line before the one at `p` ends, before the break that precedes
/// it; none for a line at byte 0.
pub open spec fn prev_end_of(p: LinePos) -> Option<u64> {
    if p.spec_start() == 0 {
        None
    } else {
        Some((p.spec_start() - BLB) as u64)
    }
}

/// Positions of consecutive lines lead to each other: for a line `q` that
/// starts where `p` says the next line starts, the end of the line before
/// `q` is the end of `p`; a line at byte 0 has no line before it.
pub proof fn law_prev_end_of_next_line(p: LinePos, q: LinePos)
    ensures
        q.spec_start() == next_start_of(p) ==> prev_end_of(q) == Some(p.spec_end()),
        p.spec_start() == 0 ==> prev_end_of(p) is None,
{
}

/// The end of the line that starts at byte `s` of `c`: the first line break
/// at or after `s`, or the end of `c`.
pub open spec fn line_end_from(c: Seq<u8>, s: int) -> int
    decreases c.len() - s,
{
    if s < 0 || s >= c.len() {
        c.len() as int
    } else if c[s] == 10u8 {
        s
    } else {
        line_end_from(c, s + 1)
    }
}

/// The start of the line that ends right before byte `e` of `c`: one past
/// the last line break before `e`, or 0.
pub open spec fn line_start_before(c: Seq<u8>, e: int) -> int
    decreases e,
{
    if e <= 0 || e > c.len() {
        0
    } else if c[e - 1] == 10u8 {
        e
    } else {
        line_start_before(c, e - 1)
    }
}

/// The line of `c` that starts at byte `s`, if `c` has that byte.
pub open spec fn line_from(c: Seq<u8>, s: int) -> Option<(int, int)> {
    if 0 <= s < c.len() {
        Some((s, line_end_from(c, s)))
    } else {
        None
    }
}

/// The line of `c` that byte `b` ends: the bytes before `b + 1` back to the
/// last line break, if `c` has byte `b`. When `b` is itself a line break the
/// line is the empty one after it.
pub open spec fn line_through(c: Seq<u8>, b: int) -> Option<(int, int)> {
    if 0 <= b < c.len() {
        Some((line_start_before(c, b + 1), b + 1))
    } else {
        None
    }
}

/// The last line of `c`: the one its last byte ends, or, when that byte is a
/// line break, the line before it.
pub open spec fn last_line(c: Seq<u8>) -> Option<(int, int)> {
    match line_through(c, c.len() - 1) {
        Some((s, e)) if s == e => line_through(c, c.len() - 2),
        other => other,
    }
}

/// A line found forward ends within the text, at or after its start.
pub proof fn lemma_end_from_bounds(c: Seq<u8>, s: int)
    requires
        0 <= s <= c.len(),
    ensures
        s <= line_end_from(c, s) <= c.len(),
    decreases c.len() - s,
{
    if s < c.len() && c[s] != 10u8 {
        lemma_end_from_bounds(c, s + 1);
    }
}

/// A line found backward starts at or before its end; it starts right at
/// its end only where a line break comes just before.
pub proof fn lemma_start_before_bounds(c: Seq<u8>, e: int)
    requires
        0 <= e <= c.len(),
    ensures
        0 <= line_start_before(c, e) <= e,
        e > 0 && c[e - 1] != 10u8 ==> line_start_before(c, e) < e,
        e > 0 && c[e - 1] == 10u8 ==> line_start_before(c, e) == e,
    decreases e,
{
    if e > 0 && c[e - 1] != 10u8 {
        lemma_start_before_bounds(c, e - 1);
    }
}

/// The lines that queries find lie within the text.
pub proof fn lemma_query_range_bounds(c: Seq<u8>, query: QueryLine)
    ensures
        query_range(c, query) matches Some((s, e)) ==> 0 <= s <= e <= c.len(),
{
    match query {
        QueryLine::AtStart => {
            if c.len() > 0 {
                lemma_end_from_bounds(c, 0);
            }
        },
        QueryLine::AtEnd => {
            if c.len() > 0 {
                lemma_start_before_bounds(c, c.len() as int);
            }
            if c.len() > 1 {
                lemma_start_before_bounds(c, c.len() - 1);
            }
        },
        QueryLine::At(pos) => {
            if pos.spec_start() < c.len() {
                lemma_end_from_bounds(c, pos.spec_start() as int);
            }
        },
        QueryLine::NextOf(pos) => {
            if pos.spec_end() + BLB < c.len() {
                lemma_end_from_bounds(c, pos.spec_end() + BLB);
            }
        },
        QueryLine::PrevOf(pos) => {
            if pos.spec_start() > 1 && pos.spec_start() - 2 < c.len() {
                lemma_start_before_bounds(c, pos.spec_start() - 1);
            }
        },
    }
}

/// A query for `Reader::read_line`.
#[derive(Debug, Clone, Copy)]
pub enum QueryLine {
    /// The first line.
    AtStart,
    /// The last line.
    AtEnd,
    /// The line that starts where the given one does.
    At(LinePos),
    /// The line after the given one.
    NextOf(LinePos),
    /// The line before the given one.
    PrevOf(LinePos),
}

/// The byte range of the line that `query` asks for in `c`. A line that
/// starts right after a line break at byte 0 has no line before it.
pub open spec fn query_range(c: Seq<u8>, query: QueryLine) -> Option<(int, int)> {
    match query {
        QueryLine::AtStart => line_from(c, 0),
        QueryLine::AtEnd => last_line(c),
        QueryLine::At(pos) => line_from(c, pos.spec_start() as int),
        QueryLine::NextOf(pos) => line_from(c, pos.spec_end() + BLB),
        QueryLine::PrevOf(pos) => if pos.spec_start() <= 1 {
            None
        } else {
            line_through(c, pos.spec_start() - 2)
        },
    }
}

/// A query that `Reader::read_line` answers: the next line's start fits in a
/// `u64`, and the last line of a text that is one line break is not asked
/// for.
pub open spec fn query_ok(c: Seq<u8>, query: QueryLine) -> bool {
    match query {
        QueryLine::NextOf(pos) => pos.spec_end() < u64::MAX,
        QueryLine::AtEnd => !(c.len() == 1 && c[0] == 10u8),
        _ => true,
    }
}

/// The answer to `query` on `c`: the line's position and its text, decoded
/// with invalid UTF-8 replaced (a `String`, so its length fits in a `usize`).
pub open spec fn read_spec(c: Seq<u8>, query: QueryLine, r: Option<(LinePos, String)>) -> bool {
    match query_range(c, query) {
        None => r is None,
        Some((s, e)) => match r {
            Some((pos, text)) => pos.spec_start() == s && pos.spec_end() == e && text@ == utf8_lossy(
                c.subrange(s, e),
            ) && bytes_len(text@) <= usize::MAX,
            None => false,
        },
    }
}

/// What the reader has learnt of how the text ends.
#[derive(Debug, Clone, Copy)]
enum SourceEnd {
    Unknown,
    /// The text ends with a line break; its last line ends at the byte given.
    LineBreak(u64),
    NonLineBreak,
}

/// Reads the lines of a text by byte position.
#[derive(Debug)]
pub struct Reader {
    content: Vec<u8>,
    source_end: SourceEnd,
}

/// A cursor that reads line after line, forward or backward.
pub struct LineCursor<'r> {
    pub reader: &'r mut Reader,
    pub query: QueryLine,
    pub go_forward: bool,
}

impl Reader {
    /// The text.
    pub closed spec fn spec_content(&self) -> Seq<u8> {
        self.content@
    }

    /// What the reader knows of the end of the text is true of it.
    pub closed spec fn wf(&self) -> bool {
        let c = self.content@;
        &&& c.len() < u64::MAX
        &&& match self.source_end {
            SourceEnd::Unknown => true,
            SourceEnd::LineBreak(x) => c.len() >= 2 && c[c.len() - 1] == 10u8 && x == c.len() - 2,
            SourceEnd::NonLineBreak => c.len() == 0 || c[c.len() - 1] != 10u8,
        }
    }

    /// A reader of `content`.
    pub fn new(content: Vec<u8>) -> (r: Reader)
        requires
            content@.len() < u64::MAX,
        ensures
            r.wf(),
            r.spec_content() == content@,
    {
        Reader { content, source_end: SourceEnd::Unknown }
    }

    /// A cursor reading forward from the line `query` asks for.
    pub fn lines_from(&mut self, query: QueryLine) -> (r: LineCursor<'_>)
        ensures
            *r.reader == *old(self),
            *final(r.reader) == *final(self),
            r.query == query,
            r.go_forward,
    {
        LineCursor { reader: self, query, go_forward: true }
    }

    /// A cursor reading backward from the line `query` asks for.
    pub fn lines_rev_from(&mut self, query: QueryLine) -> (r: LineCursor<'_>)
        ensures
            *r.reader == *old(self),
            *final(r.reader) == *final(self),
            r.query == query,
            !r.go_forward,
    {
        LineCursor { reader: self, query, go_forward: false }
    }

    /// The line that `query` asks for, if the text has it.
    pub fn read_line(&mut self, query: QueryLine) -> (r: Option<(LinePos, String)>)
        requires
            old(self).wf(),
            query_ok(old(self).spec_content(), query),
        ensures
            final(self).wf(),
            final(self).spec_content() == old(self).spec_content(),
            read_spec(old(self).spec_content(), query, r),
    {
        match query {
            QueryLine::AtStart => self.read_line_forward(0),
            QueryLine::AtEnd => self.read_end_line(),
            QueryLine::At(pos) => self.read_line_forward(pos.start_byte()),
            QueryLine::NextOf(pos) => self.read_line_forward(pos.end_byte() + BLB),
            QueryLine::PrevOf(pos) => {
                if pos.start_byte() == 0 {
                    None
                } else {
                    self.read_line_ending_at(pos.start_byte() - BLB)
                }
            },
        }
    }

    /// The line that starts at byte `start_byte`.
    fn read_line_forward(&self, start_byte: u64) -> (r: Option<(LinePos, String)>)
        requires
            self.wf(),
        ensures
            ({
                let c = self.spec_content();
                match line_from(c, start_byte as int) {
                    None => r is None,
                    Some((s, e)) => r matches Some((pos, text)) && pos.spec_start() == s && pos.spec_end() == e
                        && text@ == utf8_lossy(c.subrange(s, e)) && bytes_len(text@) <= usize::MAX,
                }
            }),
    {
        let n = self.content.len();
        if start_byte >= n as u64 {
            return None;
        }
        let s = start_byte as usize;
        let mut i = s;
        while i < n && self.content[i] != 10u8
            invariant
                s <= i <= n,
                n == self.content@.len(),
                line_end_from(self.content@, s as int) == line_end_from(self.content@, i as int),
            decreases n - i,
        {
            i += 1;
        }
        let bytes = vstd::slice::slice_subrange(self.content.as_slice(), s, i);
        let text = decode_lossy(bytes);
        Some((LinePos::new(start_byte, i as u64), text))
    }

    /// The line whose line break is at byte `line_break_byte`; none for a
    /// break at byte 0.
    fn read_line_ending_at(&self, line_break_byte: u64) -> (r: Option<(LinePos, String)>)
        requires
            self.wf(),
        ensures
            ({
                let c = self.spec_content();
                if line_break_byte == 0 {
                    r is None
                } else {
                    match line_through(c, line_break_byte - 1) {
                        None => r is None,
                        Some((s, e)) => r matches Some((pos, text)) && pos.spec_start() == s && pos.spec_end()
                            == e && text@ == utf8_lossy(c.subrange(s, e)) && bytes_len(text@) <= usize::MAX,
                    }
                }
            }),
    {
        if line_break_byte == 0 {
            return None;
        }
        self.read_line_backward(line_break_byte - 1)
    }

    /// The last line, learning on the way whether the text ends with a line
    /// break.
    fn read_end_line(&mut self) -> (r: Option<(LinePos, String)>)
        requires
            old(self).wf(),
            !(old(self).spec_content().len() == 1 && old(self).spec_content()[0] == 10u8),
        ensures
            final(self).wf(),
            final(self).spec_content() == old(self).spec_content(),
            read_spec(old(self).spec_content(), QueryLine::AtEnd, r),
        decreases if old(self).source_end is Unknown {
            1int
        } else {
            0int
        },
    {
        let n = self.content.len();
        match self.source_end {
            SourceEnd::NonLineBreak => {
                if n == 0 {
                    return None;
                }
                proof {
                    lemma_start_before_bounds(self.content@, n as int);
                }
                self.read_line_backward((n - 1) as u64)
            },
            SourceEnd::LineBreak(line_end_byte) => self.read_line_backward(line_end_byte),
            SourceEnd::Unknown => {
                let last = if n == 0 {
                    None
                } else {
                    self.read_line_backward((n - 1) as u64)
                };
                proof {
                    if n > 0 {
                        lemma_start_before_bounds(self.content@, n as int);
                    }
                }
                match last {
                    Some((pos, _)) if pos.start_byte() == pos.end_byte() => {
                        let x = (pos.end_byte() - BLB - 1) as u64;
                        self.source_end = SourceEnd::LineBreak(x);
                    },
                    _ => {
                        self.source_end = SourceEnd::NonLineBreak;
                    },
                }
                self.read_end_line()
            },
        }
    }

    /// The line that byte `last_byte` ends.
    fn read_line_backward(&self, last_byte: u64) -> (r: Option<(LinePos, String)>)
        requires
            self.wf(),
        ensures
            ({
                let c = self.spec_content();
                match line_through(c, last_byte as int) {
                    None => r is None,
                    Some((s, e)) => r matches Some((pos, text)) && pos.spec_start() == s && pos.spec_end() == e
                        && text@ == utf8_lossy(c.subrange(s, e)) && bytes_len(text@) <= usize::MAX,
                }
            }),
    {
        let n = self.content.len();
        if last_byte >= n as u64 {
            return None;
        }
        let e = (last_byte as usize) + 1;
        let mut j = e;
        while j > 0 && self.content[j - 1] != 10u8
            invariant
                j <= e <= n,
                n == self.content@.len(),
                line_start_before(self.content@, e as int) == line_start_before(self.content@, j as int),
            decreases j,
        {
            j -= 1;
        }
        let bytes = vstd::slice::slice_subrange(self.content.as_slice(), j, e);
        let text = decode_lossy(bytes);
        Some((LinePos::new(j as u64, e as u64), text))
    }
}

impl<'r> LineCursor<'r> {
    /// The line the cursor is at, if any; the cursor moves on to the line
    /// after it (before it, for a backward cursor).
    pub fn next(&mut self) -> (r: Option<(LinePos, String)>)
        requires
            old(self).reader.wf(),
            query_ok(old(self).reader.spec_content(), old(self).query),
        ensures
            final(self).reader.wf(),
            final(self).reader.spec_content() == old(self).reader.spec_content(),
            final(self).go_forward == old(self).go_forward,
            read_spec(old(self).reader.spec_content(), old(self).query, r),
            match r {
                Some((pos, _)) => final(self).query == if old(self).go_forward {
                    QueryLine::NextOf(pos)
                } else {
                    QueryLine::PrevOf(pos)
                },
                None => final(self).query == old(self).query,
            },
            r is Some ==> query_ok(final(self).reader.spec_content(), final(self).query),
    {
        proof {
            lemma_query_range_bounds(self.reader.spec_content(), self.query);
        }
        match self.reader.read_line(self.query) {
            None => None,
            Some((pos, text)) => {
                self.query = if self.go_forward {
                    QueryLine::NextOf(pos)
                } else {
                    QueryLine::PrevOf(pos)
                };
                Some((pos, text))
            },
        }
    }
}

/// Byte `s` of `c` starts a line: it is the first byte, or follows a line
/// break.
pub open spec fn starts_line(c: Seq<u8>, s: int) -> bool {
    s == 0 || (0 < s <= c.len() && c[s - 1] == 10u8)
}

/// No line break lies between a line's start and the end found forward.
proof fn lemma_no_break_before_end(c: Seq<u8>, s: int, k: int)
    requires
        0 <= s <= k < line_end_from(c, s),
        line_end_from(c, s) <= c.len(),
    ensures
        c[k] != 10u8,
    decreases k - s,
{
    if s < k {
        assert(c[s] != 10u8);
        lemma_no_break_before_end(c, s + 1, k);
    } else {
        assert(c[s] != 10u8);
    }
}

/// Reading back from the end of a line that starts at `s` and holds no line
/// break finds `s` again.
proof fn lemma_start_before_line(c: Seq<u8>, s: int, e: int)
    requires
        starts_line(c, s),
        0 <= s <= e <= c.len(),
        forall|k: int| s <= k < e ==> c[k] != 10u8,
    ensures
        line_start_before(c, e) == s,
    decreases e - s,
{
    if e > s {
        lemma_start_before_line(c, s, e - 1);
    }
}

/// Reading the line after a line and then the line before that one gives
/// back the first line, unless the first line is an empty line at the very
/// start of the text, which no line has before it.
pub proof fn law_next_then_prev(c: Seq<u8>, p: LinePos, q: LinePos)
    requires
        starts_line(c, p.spec_start() as int),
        query_range(c, QueryLine::At(p)) == Some((p.spec_start() as int, p.spec_end() as int)),
        query_range(c, QueryLine::NextOf(p)) == Some((q.spec_start() as int, q.spec_end() as int)),
        p.spec_end() > 0,
    ensures
        query_range(c, QueryLine::PrevOf(q)) == Some((p.spec_start() as int, p.spec_end() as int)),
{
    let s = p.spec_start() as int;
    let e = p.spec_end() as int;
    lemma_end_from_bounds(c, s);
    assert forall|k: int| s <= k < e implies c[k] != 10u8 by {
        lemma_no_break_before_end(c, s, k);
    }
    lemma_start_before_line(c, s, e);
}

/// Reading the line before a line and then the line after that one gives
/// back the first line.
pub proof fn law_prev_then_next(c: Seq<u8>, p: LinePos, q: LinePos)
    requires
        query_range(c, QueryLine::At(q)) == Some((q.spec_start() as int, q.spec_end() as int)),
        query_range(c, QueryLine::PrevOf(q)) == Some((p.spec_start() as int, p.spec_end() as int)),
        p.spec_end() < u64::MAX,
    ensures
        query_range(c, QueryLine::NextOf(p)) == Some((q.spec_start() as int, q.spec_end() as int)),
{
}


} // verus!
