//! Lines read from a [`Reader`], wrapped for the page and kept by byte
//! position, with the position itself as each line's metadata.

use std::collections::HashMap;

use vstd::prelude::*;

use crate::document::utf8_lossy;
use crate::pager::line::{page_wrap_ends, PageLine};
use crate::pager::line_store::{
    is_line, lemma_no_break_in_line, lemma_query_gives_line, lemma_start_back_to, store_query_ok,
};
use crate::pager::ViewportSize;
use crate::reader::{
    last_line, lemma_end_from_bounds, lemma_start_before_bounds, line_end_from, query_range,
    LinePos, QueryLine, Reader,
};

verus! {

broadcast use vstd::std_specs::hash::group_hash_axioms;

/// `line` is the line of `c` from byte `s` to byte `e`: its position, its
/// text decoded with invalid UTF-8 replaced, wrapped at `cols` columns.
pub open spec fn holds_pos_line(line: PageLine<LinePos>, c: Seq<u8>, s: int, e: int, cols: usize) -> bool {
    &&& line.wf()
    &&& line.spec_meta().spec_start() == s
    &&& line.spec_meta().spec_end() == e
    &&& line.spec_line().spec_raw() == utf8_lossy(c.subrange(s, e))
    &&& line.spec_row_ends() == page_wrap_ends(
        line.spec_line().spec_plain(),
        line.spec_line().spec_map(),
        line.spec_line().spec_raw_len(),
        cols as nat,
    )
}

/// What the line reader answers to `query` on `c`: the line the reader
/// gives, except before a line starting at byte 1, where the reader gives
/// none and the line reader gives the empty first line once it has kept it.
pub open spec fn line_reader_answer(
    c: Seq<u8>,
    query: QueryLine,
    cols: usize,
    r: Option<&PageLine<LinePos>>,
) -> bool {
    match query_range(c, query) {
        Some((s, e)) => r matches Some(line) && holds_pos_line(*line, c, s, e, cols),
        None => match r {
            None => true,
            Some(line) => query matches QueryLine::PrevOf(pos) && pos.spec_start() == 1 && holds_pos_line(
                *line,
                c,
                0,
                0,
                cols,
            ),
        },
    }
}

/// Reads lines through a reader and keeps every line read, by where it
/// starts and where it ends.
pub struct LineReader {
    reader: Reader,
    line_cache: HashMap<u64, PageLine<LinePos>>,
    /// The start byte of kept lines, by end byte (and, for a line asked for
    /// by its own position, by its start byte).
    end_to_start: HashMap<u64, u64>,
    /// Where the last line starts, once it has been read.
    end_line_start_byte: Option<u64>,
    col_size: usize,
}

impl LineReader {
    /// The text read.
    pub closed spec fn spec_content(&self) -> Seq<u8> {
        self.reader.spec_content()
    }

    /// The columns the lines are wrapped at.
    pub closed spec fn spec_cols(&self) -> usize {
        self.col_size
    }

    /// The lines kept, by start byte.
    pub closed spec fn spec_lines(&self) -> Map<u64, PageLine<LinePos>> {
        self.line_cache@
    }

    /// Every kept line is the line of the text that starts at its key; every
    /// end byte leads to a kept line that ends there (or, keyed by its own
    /// start, to that line); the last line, once read, is kept.
    pub closed spec fn wf(&self) -> bool {
        let c = self.reader.spec_content();
        &&& self.reader.wf()
        &&& forall|s: u64|
            #[trigger] self.line_cache@.contains_key(s) ==> {
                &&& is_line(c, s as int, line_end_from(c, s as int))
                &&& holds_pos_line(self.line_cache@[s], c, s as int, line_end_from(c, s as int), self.col_size)
            }
        &&& forall|k: u64|
            #[trigger] self.end_to_start@.contains_key(k) ==> {
                let v = self.end_to_start@[k];
                &&& self.line_cache@.contains_key(v)
                &&& (k == line_end_from(c, v as int) || k == v)
            }
        &&& self.end_line_start_byte matches Some(s) ==> {
            &&& last_line(c) == Some((s as int, line_end_from(c, s as int)))
            &&& self.line_cache@.contains_key(s)
        }
    }

    /// A line reader reading through `reader`, wrapping lines at the width
    /// of `size`.
    pub fn new(reader: Reader, size: &ViewportSize) -> (r: LineReader)
        requires
            reader.wf(),
        ensures
            r.wf(),
            r.spec_content() == reader.spec_content(),
            r.spec_cols() == size.width,
            r.spec_lines() == Map::<u64, PageLine<LinePos>>::empty(),
    {
        LineReader {
            reader,
            line_cache: HashMap::with_capacity(size.height),
            end_to_start: HashMap::with_capacity(size.height),
            end_line_start_byte: None,
            col_size: size.width,
        }
    }

    /// The line `query` asks for: the kept one when there is one, else the
    /// one the reader gives, which is then kept.
    pub fn read_line(&mut self, query: QueryLine) -> (r: Option<&PageLine<LinePos>>)
        requires
            old(self).wf(),
            store_query_ok(old(self).spec_content(), query),
        ensures
            final(self).wf(),
            final(self).spec_content() == old(self).spec_content(),
            final(self).spec_cols() == old(self).spec_cols(),
            forall|s: u64|
                #[trigger] old(self).spec_lines().contains_key(s) ==> final(self).spec_lines().contains_key(s),
            line_reader_answer(old(self).spec_content(), query, old(self).spec_cols(), r),
    {
        match query {
            QueryLine::AtStart => self.read_line_by_start_byte(0, query),
            QueryLine::AtEnd => self.read_end_line(),
            QueryLine::At(pos) => self.read_line_by_end_byte(pos.start_byte(), query),
            QueryLine::NextOf(pos) => self.read_line_by_start_byte(pos.next_start_byte(), query),
            QueryLine::PrevOf(pos) => {
                let prev_end_byte = match pos.prev_end_byte() {
                    None => return None,
                    Some(byte) => byte,
                };
                self.read_line_by_end_byte(prev_end_byte, query)
            },
        }
    }

    /// The line that starts at `start_byte`, which `query` asks for.
    fn read_line_by_start_byte(&mut self, start_byte: u64, query: QueryLine) -> (r: Option<
        &PageLine<LinePos>,
    >)
        requires
            old(self).wf(),
            store_query_ok(old(self).reader.spec_content(), query),
            match query_range(old(self).reader.spec_content(), query) {
                Some((s, e)) => s == start_byte,
                None => !old(self).line_cache@.contains_key(start_byte),
            },
        ensures
            final(self).wf(),
            final(self).reader.spec_content() == old(self).reader.spec_content(),
            final(self).col_size == old(self).col_size,
            final(self).end_line_start_byte == old(self).end_line_start_byte,
            forall|s: u64| #[trigger] old(self).line_cache@.contains_key(s) ==> final(self).line_cache@.contains_key(s),
            match query_range(old(self).reader.spec_content(), query) {
                Some((s, e)) => r matches Some(line) && holds_pos_line(
                    *line,
                    old(self).reader.spec_content(),
                    s,
                    e,
                    old(self).col_size,
                ),
                None => r is None,
            },
    {
        let ghost c = self.reader.spec_content();
        proof {
            lemma_query_gives_line(c, query);
        }
        if self.line_cache.contains_key(&start_byte) {
            return self.line_cache.get(&start_byte);
        }
        match self.reader.read_line(query) {
            None => None,
            Some((pos, text)) => {
                let line = PageLine::new(pos, text, self.col_size);
                self.end_to_start.insert(pos.end_byte(), pos.start_byte());
                self.line_cache.insert(start_byte, line);
                self.line_cache.get(&start_byte)
            },
        }
    }

    /// The line that ends at `end_byte`, which `query` asks for.
    fn read_line_by_end_byte(&mut self, end_byte: u64, query: QueryLine) -> (r: Option<
        &PageLine<LinePos>,
    >)
        requires
            old(self).wf(),
            store_query_ok(old(self).reader.spec_content(), query),
            match query {
                QueryLine::At(pos) => end_byte == pos.spec_start(),
                QueryLine::PrevOf(pos) => pos.spec_start() > 0 && end_byte == pos.spec_start() - 1,
                _ => false,
            },
        ensures
            final(self).wf(),
            final(self).reader.spec_content() == old(self).reader.spec_content(),
            final(self).col_size == old(self).col_size,
            final(self).end_line_start_byte == old(self).end_line_start_byte,
            forall|s: u64| #[trigger] old(self).line_cache@.contains_key(s) ==> final(self).line_cache@.contains_key(s),
            line_reader_answer(old(self).reader.spec_content(), query, old(self).col_size, r),
    {
        let ghost c = self.reader.spec_content();
        proof {
            lemma_query_gives_line(c, query);
        }
        if self.end_to_start.contains_key(&end_byte) {
            let start_byte = *self.end_to_start.get(&end_byte).unwrap();
            proof {
                let s = start_byte as int;
                assert(self.line_cache@.contains_key(start_byte));
                lemma_end_from_bounds(c, s);
                lemma_no_break_in_line(c, s, line_end_from(c, s));
                match query {
                    QueryLine::At(pos) => {
                        // A kept line that ends where the asked one starts is
                        // that line, as no line break lies within a line.
                        let p = pos.spec_start() as int;
                        if end_byte != start_byte {
                            assert(c[p - 1] == 10u8);
                        }
                    },
                    QueryLine::PrevOf(pos) => {
                        let e = end_byte as int;
                        assert(c[e] == 10u8);
                        if end_byte == start_byte {
                            if e > 0 {
                                lemma_start_before_bounds(c, e);
                            }
                        } else {
                            lemma_start_back_to(c, s, e);
                        }
                    },
                    _ => {},
                }
            }
            return self.line_cache.get(&start_byte);
        }
        match self.reader.read_line(query) {
            None => None,
            Some((pos, text)) => {
                let line = PageLine::new(pos, text, self.col_size);
                let start_byte = pos.start_byte();
                self.end_to_start.insert(end_byte, start_byte);
                self.line_cache.insert(start_byte, line);
                self.end_to_start.insert(pos.end_byte(), start_byte);
                self.line_cache.get(&start_byte)
            },
        }
    }

    /// The last line, read once and then kept.
    fn read_end_line(&mut self) -> (r: Option<&PageLine<LinePos>>)
        requires
            old(self).wf(),
            store_query_ok(old(self).reader.spec_content(), QueryLine::AtEnd),
        ensures
            final(self).wf(),
            final(self).reader.spec_content() == old(self).reader.spec_content(),
            final(self).col_size == old(self).col_size,
            forall|s: u64| #[trigger] old(self).line_cache@.contains_key(s) ==> final(self).line_cache@.contains_key(s),
            line_reader_answer(old(self).reader.spec_content(), QueryLine::AtEnd, old(self).col_size, r),
    {
        let ghost c = self.reader.spec_content();
        proof {
            lemma_query_gives_line(c, QueryLine::AtEnd);
        }
        let start_byte = match self.end_line_start_byte {
            Some(start_byte) => start_byte,
            None => match self.reader.read_line(QueryLine::AtEnd) {
                None => return None,
                Some((pos, text)) => {
                    let line = PageLine::new(pos, text, self.col_size);
                    self.end_line_start_byte = Some(pos.start_byte());
                    self.line_cache.insert(pos.start_byte(), line);
                    self.end_to_start.insert(pos.end_byte(), pos.start_byte());
                    pos.start_byte()
                },
            },
        };
        self.line_cache.get(&start_byte)
    }
}

} // verus!
