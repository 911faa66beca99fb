//! Lines read from a [`Reader`], wrapped for the page, and kept by byte
//! position so that paging back and forth reads each line once.

use std::collections::HashMap;

use vstd::prelude::*;

use crate::document::utf8_lossy;
use crate::pager::line::{page_wrap_ends, PageLine};
use crate::pager::ViewportSize;
use crate::reader::{
    last_line, lemma_end_from_bounds, lemma_start_before_bounds, line_end_from, line_start_before,
    query_ok, query_range, starts_line, LinePos, QueryLine, Reader,
};

verus! {

broadcast use vstd::std_specs::hash::group_hash_axioms;

/// Where a stored line lies in the text.
#[derive(Debug)]
pub struct LineMeta {
    pos: LinePos,
}

impl LineMeta {
    pub closed spec fn spec_pos(&self) -> LinePos {
        self.pos
    }

    /// The line's byte position.
    pub fn pos(&self) -> (r: LinePos)
        ensures
            r == self.spec_pos(),
    {
        self.pos
    }
}

/// A line as the store keeps it.
pub type Line = PageLine<LineMeta>;

/// `line` is the line of `c` from byte `s` to byte `e`: its position, its
/// text decoded with invalid UTF-8 replaced, wrapped at `cols` columns.
pub open spec fn holds_line(line: Line, c: Seq<u8>, s: int, e: int, cols: usize) -> bool {
    &&& line.wf()
    &&& line.spec_meta().spec_pos().spec_start() == s
    &&& line.spec_meta().spec_pos().spec_end() == e
    &&& line.spec_line().spec_raw() == utf8_lossy(c.subrange(s, e))
    &&& line.spec_row_ends() == page_wrap_ends(
        line.spec_line().spec_plain(),
        line.spec_line().spec_map(),
        line.spec_line().spec_raw_len(),
        cols as nat,
    )
}

/// Byte `s` starts a line of `c` that ends at byte `e`.
pub open spec fn is_line(c: Seq<u8>, s: int, e: int) -> bool {
    &&& 0 <= s < c.len()
    &&& starts_line(c, s)
    &&& e == line_end_from(c, s)
}

/// A position that a line read from `c` has: it starts a line, and its end
/// is where that line ends.
pub open spec fn pos_of_line(c: Seq<u8>, pos: LinePos) -> bool {
    &&& starts_line(c, pos.spec_start() as int)
    &&& pos.spec_end() == line_end_from(c, pos.spec_start() as int)
}

/// A query the store answers: one the reader answers, about positions of
/// lines read from the same text. A position inside a line would have the
/// store keep a piece of that line under a key where later queries look
/// for whole lines.
pub open spec fn store_query_ok(c: Seq<u8>, query: QueryLine) -> bool {
    &&& query_ok(c, query)
    &&& match query {
        QueryLine::At(pos) => pos_of_line(c, pos),
        QueryLine::NextOf(pos) => pos_of_line(c, pos),
        QueryLine::PrevOf(pos) => pos_of_line(c, pos),
        _ => true,
    }
}

/// What the store answers to `query` on `c`: the line the reader gives. The
/// one exception is the line before a line starting at byte 1, which the
/// reader never gives; the store gives the empty first line there once it
/// has kept it, and nothing otherwise.
pub open spec fn store_answer(c: Seq<u8>, query: QueryLine, cols: usize, r: Option<&Line>) -> bool {
    match query_range(c, query) {
        Some((s, e)) => r matches Some(line) && holds_line(*line, c, s, e, cols),
        None => match r {
            None => true,
            Some(line) => query matches QueryLine::PrevOf(pos) && pos.spec_start() == 1 && holds_line(
                *line,
                c,
                0,
                0,
                cols,
            ),
        },
    }
}

/// Going back from `e` over bytes that are not line breaks reaches a line
/// start, and no line break lies between it and `e`.
proof fn lemma_start_before_is_line_start(c: Seq<u8>, e: int)
    requires
        0 <= e <= c.len(),
    ensures
        starts_line(c, line_start_before(c, e)),
        forall|k: int| line_start_before(c, e) <= k < e ==> c[k] != 10u8,
    decreases e,
{
    lemma_start_before_bounds(c, e);
    if e > 0 && c[e - 1] != 10u8 {
        lemma_start_before_is_line_start(c, e - 1);
    }
}

/// From any byte of a stretch without line breaks, the line ends where the
/// stretch does, at a line break or at the end of the text.
proof fn lemma_end_from_stretch(c: Seq<u8>, j: int, e: int)
    requires
        0 <= j <= e <= c.len(),
        e == c.len() || c[e] == 10u8,
        forall|k: int| j <= k < e ==> c[k] != 10u8,
    ensures
        line_end_from(c, j) == e,
    decreases e - j,
{
    if j < e {
        lemma_end_from_stretch(c, j + 1, e);
    }
}

/// A line that ends at a line break, or at the end of the text, starts at a
/// line start and runs to that end.
proof fn lemma_line_ending_at(c: Seq<u8>, e: int)
    requires
        0 <= e <= c.len(),
        e == c.len() || c[e] == 10u8,
    ensures
        starts_line(c, line_start_before(c, e)),
        line_end_from(c, line_start_before(c, e)) == e,
        line_start_before(c, e) <= e,
{
    lemma_start_before_bounds(c, e);
    lemma_start_before_is_line_start(c, e);
    lemma_end_from_stretch(c, line_start_before(c, e), e);
}

/// A line has no line break before its end.
pub(crate) proof fn lemma_no_break_in_line(c: Seq<u8>, j: int, e: int)
    requires
        0 <= j <= c.len(),
        e == line_end_from(c, j),
    ensures
        forall|k: int| j <= k < e ==> c[k] != 10u8,
    decreases c.len() - j,
{
    if j < c.len() && c[j] != 10u8 {
        lemma_no_break_in_line(c, j + 1, e);
    }
}

/// The end found forward is a line break or the end of the text.
proof fn lemma_end_from_stop(c: Seq<u8>, j: int)
    requires
        0 <= j <= c.len(),
    ensures
        line_end_from(c, j) == c.len() || c[line_end_from(c, j)] == 10u8,
    decreases c.len() - j,
{
    if j < c.len() && c[j] != 10u8 {
        lemma_end_from_stop(c, j + 1);
    }
}

/// Going back from `e` over a stretch without line breaks that starts at a
/// line start finds that start.
pub(crate) proof fn lemma_start_back_to(c: Seq<u8>, s: int, e: int)
    requires
        starts_line(c, s),
        0 <= s <= e <= c.len(),
        forall|k: int| s <= k < e ==> c[k] != 10u8,
    ensures
        line_start_before(c, e) == s,
    decreases e - s,
{
    if e > s {
        lemma_start_back_to(c, s, e - 1);
    }
}

/// What the reader gives for a query about positions of lines is a line.
pub(crate) proof fn lemma_query_gives_line(c: Seq<u8>, query: QueryLine)
    requires
        store_query_ok(c, query),
    ensures
        query_range(c, query) matches Some((s, e)) ==> is_line(c, s, e),
{
    match query {
        QueryLine::AtStart => {
            if c.len() > 0 {
                lemma_end_from_bounds(c, 0);
            }
        },
        QueryLine::AtEnd => {
            if c.len() > 0 {
                if c[c.len() - 1] != 10u8 {
                    lemma_line_ending_at(c, c.len() as int);
                    lemma_start_before_bounds(c, c.len() as int);
                } else if c.len() > 1 {
                    lemma_start_before_bounds(c, c.len() as int);
                    lemma_line_ending_at(c, c.len() - 1);
                }
            }
        },
        QueryLine::At(pos) => {},
        QueryLine::NextOf(pos) => {
            let s = pos.spec_start() as int;
            if s < c.len() {
                lemma_end_from_stop(c, s);
            }
        },
        QueryLine::PrevOf(pos) => {
            let s = pos.spec_start() as int;
            if s > 1 && s - 2 < c.len() {
                lemma_line_ending_at(c, s - 1);
            }
        },
    }
}

/// Reads lines through a reader and keeps them by where they start, and
/// where each ends, so that a line asked for again is not read again.
pub struct LineStore {
    reader: Reader,
    /// The kept lines, by start byte.
    line_map: HashMap<u64, Line>,
    /// The start byte of kept lines, by end byte (and, for a line asked for
    /// by its own position, by its start byte).
    end_to_start: HashMap<u64, u64>,
    /// Where the last line starts, once it has been read.
    end_line_start_byte: Option<u64>,
    col_size: usize,
    /// How many lines the store keeps before it lets them all go.
    capacity: usize,
}

impl LineStore {
    /// The text read.
    pub closed spec fn spec_content(&self) -> Seq<u8> {
        self.reader.spec_content()
    }

    /// The columns the lines are wrapped at.
    pub closed spec fn spec_cols(&self) -> usize {
        self.col_size
    }

    /// The lines kept, by start byte.
    pub closed spec fn spec_lines(&self) -> Map<u64, Line> {
        self.line_map@
    }

    /// How many lines the store keeps at most.
    pub closed spec fn spec_capacity(&self) -> usize {
        self.capacity
    }

    /// Every kept line is the line of the text that starts at its key; every
    /// end byte leads to a kept line that ends there (or, keyed by its own
    /// start, to that line); the last line's start, once known, is right.
    pub closed spec fn wf(&self) -> bool {
        let c = self.reader.spec_content();
        &&& self.reader.wf()
        &&& forall|s: u64|
            #[trigger] self.line_map@.contains_key(s) ==> {
                &&& is_line(c, s as int, line_end_from(c, s as int))
                &&& holds_line(self.line_map@[s], c, s as int, line_end_from(c, s as int), self.col_size)
            }
        &&& forall|k: u64|
            #[trigger] self.end_to_start@.contains_key(k) ==> {
                let v = self.end_to_start@[k];
                &&& self.line_map@.contains_key(v)
                &&& (k == line_end_from(c, v as int) || k == v)
            }
        &&& self.end_line_start_byte matches Some(s) ==> last_line(c) == Some(
            (s as int, line_end_from(c, s as int)),
        )
    }

    /// A store reading through `reader`, wrapping lines at the width of
    /// `size` and keeping up to twice as many lines as it has rows.
    pub fn new(reader: Reader, size: &ViewportSize) -> (r: LineStore)
        requires
            reader.wf(),
            size.height <= usize::MAX / 2,
        ensures
            r.wf(),
            r.spec_content() == reader.spec_content(),
            r.spec_cols() == size.width,
            r.spec_capacity() == size.height * 2,
            r.spec_lines() == Map::<u64, Line>::empty(),
    {
        let capacity = size.height * 2;
        LineStore {
            reader,
            line_map: HashMap::with_capacity(capacity),
            end_to_start: HashMap::with_capacity(capacity),
            end_line_start_byte: None,
            col_size: size.width,
            capacity,
        }
    }

    /// The line `query` asks for: the kept one when there is one, else the
    /// one the reader gives, which is then kept. When the store is close to
    /// its capacity it first lets all kept lines go.
    pub fn read_line(&mut self, query: QueryLine) -> (r: Option<&Line>)
        requires
            old(self).wf(),
            store_query_ok(old(self).spec_content(), query),
        ensures
            final(self).wf(),
            final(self).spec_content() == old(self).spec_content(),
            final(self).spec_cols() == old(self).spec_cols(),
            final(self).spec_capacity() == old(self).spec_capacity(),
            store_answer(old(self).spec_content(), query, old(self).spec_cols(), r),
    {
        self.free_line_space_if_needed();
        match query {
            QueryLine::AtStart => self.read_line_by_start_byte(0, query),
            QueryLine::AtEnd => self.read_end_line(),
            QueryLine::At(pos) => self.read_line_by_end_byte(pos.start_byte(), query),
            QueryLine::NextOf(pos) => self.read_line_by_start_byte(pos.next_start_byte(), query),
            QueryLine::PrevOf(pos) => {
                let prev_end_byte = match pos.prev_end_byte() {
                    None => return None,
                    Some(byte) => byte,
                };
                self.read_line_by_end_byte(prev_end_byte, query)
            },
        }
    }

    /// Let all kept lines go when the store holds one less than its capacity.
    fn free_line_space_if_needed(&mut self)
        requires
            old(self).wf(),
        ensures
            final(self).wf(),
            final(self).reader == old(self).reader,
            final(self).col_size == old(self).col_size,
            final(self).capacity == old(self).capacity,
            final(self).end_line_start_byte == old(self).end_line_start_byte,
    {
        if self.capacity > 0 && self.line_map.len() < self.capacity - 1 {
            return;
        }
        self.line_map.clear();
        self.end_to_start.clear();
    }

    /// The line that starts at `start_byte`, which `query` asks for.
    fn read_line_by_start_byte(&mut self, start_byte: u64, query: QueryLine) -> (r: Option<&Line>)
        requires
            old(self).wf(),
            store_query_ok(old(self).reader.spec_content(), query),
            match query_range(old(self).reader.spec_content(), query) {
                Some((s, e)) => s == start_byte,
                None => !old(self).line_map@.contains_key(start_byte),
            },
            query matches QueryLine::AtEnd ==> old(self).end_line_start_byte == Some(start_byte),
        ensures
            final(self).wf(),
            final(self).reader.spec_content() == old(self).reader.spec_content(),
            final(self).col_size == old(self).col_size,
            final(self).capacity == old(self).capacity,
            final(self).end_line_start_byte == old(self).end_line_start_byte,
            match query_range(old(self).reader.spec_content(), query) {
                Some((s, e)) => r matches Some(line) && holds_line(
                    *line,
                    old(self).reader.spec_content(),
                    s,
                    e,
                    old(self).col_size,
                ),
                None => r is None,
            },
    {
        let ghost c = self.reader.spec_content();
        proof {
            lemma_query_gives_line(c, query);
        }
        if self.line_map.contains_key(&start_byte) {
            return self.line_map.get(&start_byte);
        }
        match self.reader.read_line(query) {
            None => None,
            Some((pos, text)) => {
                let line = PageLine::new(LineMeta { pos }, text, self.col_size);
                self.end_to_start.insert(pos.end_byte(), pos.start_byte());
                self.line_map.insert(start_byte, line);
                self.line_map.get(&start_byte)
            },
        }
    }

    /// The line that ends at `end_byte`, which `query` asks for.
    fn read_line_by_end_byte(&mut self, end_byte: u64, query: QueryLine) -> (r: Option<&Line>)
        requires
            old(self).wf(),
            store_query_ok(old(self).reader.spec_content(), query),
            match query {
                QueryLine::At(pos) => end_byte == pos.spec_start(),
                QueryLine::PrevOf(pos) => pos.spec_start() > 0 && end_byte == pos.spec_start() - 1,
                _ => false,
            },
        ensures
            final(self).wf(),
            final(self).reader.spec_content() == old(self).reader.spec_content(),
            final(self).col_size == old(self).col_size,
            final(self).capacity == old(self).capacity,
            final(self).end_line_start_byte == old(self).end_line_start_byte,
            store_answer(old(self).reader.spec_content(), query, old(self).col_size, r),
    {
        let ghost c = self.reader.spec_content();
        proof {
            lemma_query_gives_line(c, query);
        }
        if self.end_to_start.contains_key(&end_byte) {
            let start_byte = *self.end_to_start.get(&end_byte).unwrap();
            proof {
                let s = start_byte as int;
                assert(self.line_map@.contains_key(start_byte));
                lemma_end_from_bounds(c, s);
                lemma_no_break_in_line(c, s, line_end_from(c, s));
                match query {
                    QueryLine::At(pos) => {
                        // A kept line that ends where the asked one starts is
                        // that line, as no line break lies within a line.
                        let p = pos.spec_start() as int;
                        if end_byte != start_byte {
                            assert(c[p - 1] == 10u8);
                        }
                    },
                    QueryLine::PrevOf(pos) => {
                        let e = end_byte as int;
                        assert(c[e] == 10u8);
                        if end_byte == start_byte {
                            if e > 0 {
                                lemma_start_before_bounds(c, e);
                            }
                        } else {
                            lemma_start_back_to(c, s, e);
                        }
                    },
                    _ => {},
                }
            }
            return self.line_map.get(&start_byte);
        }
        match self.reader.read_line(query) {
            None => None,
            Some((pos, text)) => {
                let line = PageLine::new(LineMeta { pos }, text, self.col_size);
                let start_byte = pos.start_byte();
                self.end_to_start.insert(end_byte, start_byte);
                self.line_map.insert(start_byte, line);
                self.end_to_start.insert(pos.end_byte(), start_byte);
                self.line_map.get(&start_byte)
            },
        }
    }

    /// The last line.
    fn read_end_line(&mut self) -> (r: Option<&Line>)
        requires
            old(self).wf(),
            store_query_ok(old(self).reader.spec_content(), QueryLine::AtEnd),
        ensures
            final(self).wf(),
            final(self).reader.spec_content() == old(self).reader.spec_content(),
            final(self).col_size == old(self).col_size,
            final(self).capacity == old(self).capacity,
            store_answer(old(self).reader.spec_content(), QueryLine::AtEnd, old(self).col_size, r),
    {
        let ghost c = self.reader.spec_content();
        proof {
            lemma_query_gives_line(c, QueryLine::AtEnd);
        }
        match self.end_line_start_byte {
            Some(start_byte) => self.read_line_by_start_byte(start_byte, QueryLine::AtEnd),
            None => match self.reader.read_line(QueryLine::AtEnd) {
                None => None,
                Some((pos, text)) => {
                    let line = PageLine::new(LineMeta { pos }, text, self.col_size);
                    let start_byte = pos.start_byte();
                    self.end_line_start_byte = Some(start_byte);
                    self.line_map.insert(start_byte, line);
                    self.end_to_start.insert(pos.end_byte(), start_byte);
                    self.line_map.get(&start_byte)
                },
            },
        }
    }
}

} // verus!
