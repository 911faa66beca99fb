//! The lines of the document being paged.
//!
//! A document is either complete from the start (built from a string or the
//! bytes of a file) or
//! streamed: lines arrive in batches from a background reader, and
//! [`Document::pump`] appends each batch until the input ends.

pub mod line_cache;

use vstd::prelude::*;

use vstd::utf8::{decode_utf8, valid_utf8};

use crate::line::{line_made_from, Line};
use crate::line_index::{law_line_ranges_exclude_newlines, line_range, offsets_spec, LineIndex};
use crate::pager::rows::{indexed, lines_wf};
use crate::text::{
    byte_offset, bytes_len, chars_of, lemma_byte_offset_full, lemma_byte_offset_mono,
    lemma_byte_offset_step, lemma_bytes_len_push, string_from_chars,
};

verus! {

/// A message from a background reader to a streamed document.
pub enum StreamMsg {
    /// A newly read line.
    Line(Line),
    /// The reader reached the end of input.
    Eof,
    /// The reader failed, with this message. Treated as end of input.
    Error(String),
}

/// What `Document::pump` reports for `msgs` on `doc`: whether lines came
/// before the end of input, and whether the input ended.
pub open spec fn pump_result(doc: Document, msgs: Seq<StreamMsg>, disconnected: bool) -> PumpResult {
    let n = lines_before_end(msgs);
    if doc.spec_complete() {
        PumpResult { grew: false, reached_eof: false }
    } else {
        PumpResult { grew: n > 0, reached_eof: n < msgs.len() || disconnected }
    }
}

/// `after` is `before` with `msgs` taken in: a complete document stays as it
/// is; otherwise the lines before the end of input are appended, numbered on
/// from the last line, the document completes when the input ends, and an
/// error that ends it is kept.
pub open spec fn pumped(before: Document, msgs: Seq<StreamMsg>, disconnected: bool, after: Document) -> bool {
    let n = lines_before_end(msgs);
    let ends = n < msgs.len() || disconnected;
    &&& after.spec_name() == before.spec_name()
    &&& if before.spec_complete() {
        &&& after.spec_lines() == before.spec_lines()
        &&& after.spec_complete()
        &&& after.spec_stream_error() == before.spec_stream_error()
    } else {
        &&& after.spec_complete() == ends
        &&& after.spec_lines().len() == before.spec_lines().len() + n
        &&& after.spec_lines().take(before.spec_lines().len() as int) == before.spec_lines()
        &&& forall|k: int|
            0 <= k < n ==> #[trigger] after.spec_lines()[before.spec_lines().len() + k] == relabel(
                message_line(msgs[k]),
                (before.spec_lines().len() + k) as usize,
            )
        &&& after.spec_stream_error() == (if n < msgs.len() {
            match msgs[n as int] {
                StreamMsg::Error(e) => Some(e@),
                _ => before.spec_stream_error(),
            }
        } else {
            before.spec_stream_error()
        })
    }
}

/// Result of taking in pending input with [`Document::pump`].
#[derive(Debug, Default, Clone, Copy, PartialEq, Eq, Structural)]
pub struct PumpResult {
    /// Whether any new lines were appended.
    pub grew: bool,
    /// Whether the input reached its end during this pump.
    pub reached_eof: bool,
}

/// Line splitting state after the first `i` characters of `s`: the lines
/// completed so far (without their terminators) and the current partial line.
pub open spec fn split_state(s: Seq<char>, i: nat) -> (Seq<Seq<char>>, Seq<char>)
    decreases i,
{
    if i == 0 || i > s.len() {
        (Seq::empty(), Seq::empty())
    } else {
        let prev = split_state(s, (i - 1) as nat);
        let c = s[i - 1];
        if c == '\n' {
            (prev.0.push(strip_cr(prev.1)), Seq::empty())
        } else {
            (prev.0, prev.1.push(c))
        }
    }
}

/// A line without its trailing carriage return, if any.
pub open spec fn strip_cr(line: Seq<char>) -> Seq<char> {
    if line.len() > 0 && line.last() == '\r' {
        line.drop_last()
    } else {
        line
    }
}

/// The lines of `s`, as `str::lines` splits them: at `\n` or `\r\n`, with the
/// final line ending optional.
pub open spec fn split_lines(s: Seq<char>) -> Seq<Seq<char>> {
    let st = split_state(s, s.len());
    if st.1.len() > 0 {
        st.0.push(st.1)
    } else {
        st.0
    }
}

/// Lines, each wrapped at line `i` with index `i`, holding `texts[i]`.
pub open spec fn lines_hold(lines: Seq<Line>, texts: Seq<Seq<char>>) -> bool {
    &&& lines.len() == texts.len()
    &&& forall|i: int| 0 <= i < lines.len() ==> line_made_from(#[trigger] lines[i], i as usize, texts[i])
}

/// Provides access to the lines of a document.
pub struct Document {
    lines: Vec<Line>,
    complete: bool,
    name: Option<String>,
    stream_error: Option<String>,
}

impl Document {
    /// The lines received so far.
    pub closed spec fn spec_lines(&self) -> Seq<Line> {
        self.lines@
    }

    pub closed spec fn spec_complete(&self) -> bool {
        self.complete
    }

    pub closed spec fn spec_name(&self) -> Option<Seq<char>> {
        match self.name {
            Some(n) => Some(n@),
            None => None,
        }
    }

    pub closed spec fn spec_stream_error(&self) -> Option<Seq<char>> {
        match self.stream_error {
            Some(e) => Some(e@),
            None => None,
        }
    }

    /// Every line is well formed and knows its own position.
    pub open spec fn wf(&self) -> bool {
        forall|i: int|
            0 <= i < self.spec_lines().len() ==> (#[trigger] self.spec_lines()[i]).wf()
                && self.spec_lines()[i].spec_index() == i
    }

    /// A well-formed document's lines are well formed and indexed by position.
    pub proof fn lemma_wf(&self)
        requires
            self.wf(),
        ensures
            lines_wf(self.spec_lines()),
            indexed(self.spec_lines()),
    {
        assert forall|i: int| 0 <= i < self.spec_lines().len() implies (#[trigger] self.spec_lines()[i]).wf() by {
        }
    }

    /// Parse a string into lines, holding everything in memory.
    /// The document is complete: no more lines will arrive.
    pub fn from_string(content: String) -> (doc: Document)
        requires
            bytes_len(content@) <= usize::MAX,
        ensures
            doc.wf(),
            lines_hold(doc.spec_lines(), split_lines(content@)),
            doc.spec_complete(),
            doc.spec_name() is None,
            doc.spec_stream_error() is None,
    {
        Self::from_text(content, None)
    }

    /// Like [`Self::from_string`], for content that has a display name (a file path).
    pub fn from_named_string(content: String, name: String) -> (doc: Document)
        requires
            bytes_len(content@) <= usize::MAX,
        ensures
            doc.wf(),
            lines_hold(doc.spec_lines(), split_lines(content@)),
            doc.spec_complete(),
            doc.spec_name() == Some(name@),
            doc.spec_stream_error() is None,
    {
        Self::from_text(content, Some(name))
    }

    fn from_text(content: String, name: Option<String>) -> (doc: Document)
        requires
            bytes_len(content@) <= usize::MAX,
        ensures
            doc.wf(),
            lines_hold(doc.spec_lines(), split_lines(content@)),
            doc.spec_complete(),
            doc.spec_name() == (match name {
                Some(n) => Some(n@),
                None => None,
            }),
            doc.spec_stream_error() is None,
    {
        let ghost s = content@;
        let texts = split_text(content.as_str());
        let mut lines: Vec<Line> = Vec::new();
        let mut i: usize = 0;
        while i < texts.len()
            invariant
                i <= texts@.len(),
                texts@.len() == split_lines(s).len(),
                forall|k: int| 0 <= k < texts@.len() ==> (#[trigger] texts@[k])@ == split_lines(s)[k],
                forall|k: int| 0 <= k < texts@.len() ==> bytes_len((#[trigger] texts@[k])@) <= usize::MAX,
                lines@.len() == i,
                forall|k: int|
                    0 <= k < i ==> line_made_from(#[trigger] lines@[k], k as usize, split_lines(s)[k]),
            decreases texts@.len() - i,
        {
            let text = texts[i].clone();
            lines.push(Line::new(i, text));
            i += 1;
        }
        Document { lines, complete: true, name, stream_error: None }
    }

    /// The lines of a file's `bytes`, named `name`: each line is its bytes
    /// up to the line break, without a final `\r`, decoded with invalid UTF-8
    /// replaced. A final line break ends the last line.
    pub fn from_file_bytes(bytes: Vec<u8>, name: String) -> (doc: Document)
        requires
            bytes@.len() <= u64::MAX,
        ensures
            doc.wf(),
            doc.spec_lines().len() == offsets_spec(bytes@).len() - 1,
            forall|i: int|
                0 <= i < doc.spec_lines().len() ==> line_made_from(
                    #[trigger] doc.spec_lines()[i],
                    i as usize,
                    file_line_text(bytes@, i),
                ),
            doc.spec_complete(),
            doc.spec_name() == Some(name@),
            doc.spec_stream_error() is None,
    {
        let index = LineIndex::from_bytes(bytes.as_slice());
        let n = index.line_count();
        let mut lines: Vec<Line> = Vec::new();
        let mut i: usize = 0;
        while i < n
            invariant
                bytes@.len() <= u64::MAX,
                index.spec_offsets() == offsets_spec(bytes@),
                n == index.spec_line_count(),
                i <= n,
                lines@.len() == i,
                forall|k: int|
                    0 <= k < i ==> line_made_from(#[trigger] lines@[k], k as usize, file_line_text(bytes@, k)),
            decreases n - i,
        {
            proof {
                law_line_ranges_exclude_newlines(bytes@, i as int);
            }
            let (start, end) = index.line_byte_range(i).unwrap();
            let body = vstd::slice::slice_subrange(bytes.as_slice(), start as usize, end as usize);
            let line = line_from_bytes(i, body);
            lines.push(line);
            i += 1;
        }
        Document { lines, complete: true, name: Some(name), stream_error: None }
    }

    /// A streamed document with no lines yet; lines arrive through [`Self::pump`].
    pub fn streaming() -> (doc: Document)
        ensures
            doc.wf(),
            doc.spec_lines().len() == 0,
            !doc.spec_complete(),
            doc.spec_name() is None,
            doc.spec_stream_error() is None,
    {
        Document { lines: Vec::new(), complete: false, name: None, stream_error: None }
    }

    /// Take in the messages a background reader has sent since the last pump,
    /// in order. Lines are appended until an end of input (or an error, which
    /// is treated as one) completes the document; anything after it is
    /// ignored. `disconnected` tells that the reader went away after sending
    /// `msgs`, which also completes the document. A complete document ignores
    /// further input.
    pub fn pump(&mut self, msgs: Vec<StreamMsg>, disconnected: bool) -> (r: PumpResult)
        requires
            old(self).wf(),
        ensures
            final(self).wf(),
            final(self).spec_name() == old(self).spec_name(),
            r == pump_result(*old(self), msgs@, disconnected),
            pumped(*old(self), msgs@, disconnected, *final(self)),
    {
        let mut result = PumpResult { grew: false, reached_eof: false };
        if self.complete {
            return result;
        }
        let ghost n = lines_before_end(msgs@);
        let ghost old_lines = self.lines@;
        let ghost input = msgs@;
        let mut pending = msgs;
        let total = pending.len();
        let ghost all = input;
        proof {
            assert(all.skip(0) =~= all);
            assert forall|j: int|
                0 <= j < self.lines@.len() implies (#[trigger] self.lines@[j]).wf()
                && self.lines@[j].spec_index() == j by {
                assert(old(self).spec_lines()[j] == self.lines@[j]);
            }
        }
        let mut k: usize = 0;
        while pending.len() > 0
            invariant
                all.len() == pending@.len() + k,
                total == all.len(),
                all == msgs@,
                !old(self).spec_complete(),
                old_lines == old(self).spec_lines(),
                pending@ == all.skip(k as int),
                n == lines_before_end(all),
                k <= n,
                lines_before_end(all) == k + lines_before_end(all.skip(k as int)),
                self.lines@.len() == old_lines.len() + k,
                self.lines@.take(old_lines.len() as int) == old_lines,
                forall|j: int|
                    0 <= j < self.lines@.len() ==> (#[trigger] self.lines@[j]).wf()
                        && self.lines@[j].spec_index() == j,
                forall|j: int|
                    0 <= j < k ==> #[trigger] self.lines@[old_lines.len() + j] == relabel(
                        message_line(all[j]),
                        (old_lines.len() + j) as usize,
                    ),
                forall|j: int|
                    0 <= j < k ==> (#[trigger] message_line(all[j])).wf(),
                result.grew == (k > 0),
                !result.reached_eof,
                !self.complete,
                self.name == old(self).name,
                self.stream_error == old(self).stream_error,
            decreases pending@.len(),
        {
            let msg = pending.remove(0);
            proof {
                assert(all.skip(k as int)[0] == all[k as int]);
                assert(all.skip(k as int).drop_first() =~= all.skip(k + 1));
                assert(pending@ =~= all.skip(k + 1));
            }
            match msg {
                StreamMsg::Line(line) => {
                    line.lemma_is_wf();
                    proof {
                        line.lemma_relabeled((old_lines.len() + k) as usize);
                    }
                    let index = self.lines.len();
                    let ghost before = self.lines@;
                    self.lines.push(line.with_index(index));
                    proof {
                        assert(self.lines@.take(old_lines.len() as int) =~= before.take(
                            old_lines.len() as int,
                        ));
                        assert forall|j: int|
                            0 <= j < self.lines@.len() implies (#[trigger] self.lines@[j]).wf()
                            && self.lines@[j].spec_index() == j by {
                            if j < before.len() {
                                assert(self.lines@[j] == before[j]);
                            }
                        }
                    }
                    result.grew = true;
                    k += 1;
                },
                StreamMsg::Eof => {
                    proof {
                        assert(!(all.skip(k as int)[0] is Line));
                    }
                    self.complete = true;
                    result.reached_eof = true;
                    return result;
                },
                StreamMsg::Error(e) => {
                    proof {
                        assert(!(all.skip(k as int)[0] is Line));
                    }
                    self.stream_error = Some(e);
                    self.complete = true;
                    result.reached_eof = true;
                    return result;
                },
            }
        }
        if disconnected {
            self.complete = true;
            result.reached_eof = true;
        }
        result
    }

    /// Display name of the document (e.g. the file path), or `None` for
    /// sources without one such as stdin.
    pub fn name(&self) -> (r: Option<&String>)
        ensures
            match r {
                Some(n) => self.spec_name() == Some(n@),
                None => self.spec_name() is None,
            },
    {
        match &self.name {
            Some(n) => Some(n),
            None => None,
        }
    }

    /// The message of the read error the input ended with, if it did.
    pub fn stream_error(&self) -> (r: Option<&String>)
        ensures
            match r {
                Some(e) => self.spec_stream_error() == Some(e@),
                None => self.spec_stream_error() is None,
            },
    {
        match &self.stream_error {
            Some(e) => Some(e),
            None => None,
        }
    }

    /// Whether all input has been received.
    pub fn is_complete(&self) -> (r: bool)
        ensures
            r == self.spec_complete(),
    {
        self.complete
    }

    /// The line at `index`, or `None` past the lines received so far.
    pub fn line(&self, index: usize) -> (r: Option<&Line>)
        ensures
            match r {
                Some(l) => index < self.spec_lines().len() && *l == self.spec_lines()[index as int],
                None => index >= self.spec_lines().len(),
            },
    {
        if index < self.lines.len() {
            Some(&self.lines[index])
        } else {
            None
        }
    }

    /// Number of lines received so far.
    pub fn line_count(&self) -> (r: usize)
        ensures
            r == self.spec_lines().len(),
    {
        self.lines.len()
    }
}

/// The line a message carries, if it carries one.
pub open spec fn message_line(m: StreamMsg) -> Line {
    match m {
        StreamMsg::Line(l) => l,
        _ => arbitrary(),
    }
}

/// Number of line messages before the first end of input in `msgs`.
pub open spec fn lines_before_end(msgs: Seq<StreamMsg>) -> nat
    decreases msgs.len(),
{
    if msgs.len() == 0 {
        0
    } else if msgs[0] is Line {
        1 + lines_before_end(msgs.drop_first())
    } else {
        0
    }
}

/// `line` placed at position `index` of the document.
pub open spec fn relabel(line: Line, index: usize) -> Line {
    line.spec_relabeled(index)
}

/// Split `s` into its lines, as `str::lines` does.
pub fn split_text(s: &str) -> (r: Vec<String>)
    requires
        bytes_len(s@) <= usize::MAX,
    ensures
        r@.len() == split_lines(s@).len(),
        forall|k: int| 0 <= k < r@.len() ==> (#[trigger] r@[k])@ == split_lines(s@)[k],
        forall|k: int| 0 <= k < r@.len() ==> bytes_len((#[trigger] r@[k])@) <= usize::MAX,
{
    let chars = chars_of(s);
    let ghost sq = s@;
    let mut out: Vec<String> = Vec::new();
    let mut cur: Vec<char> = Vec::new();
    let mut i: usize = 0;
    while i < chars.len()
        invariant
            chars@ == sq,
            bytes_len(sq) <= usize::MAX,
            i <= sq.len(),
            out@.len() == split_state(sq, i as nat).0.len(),
            forall|k: int| 0 <= k < out@.len() ==> (#[trigger] out@[k])@ == split_state(sq, i as nat).0[k],
            forall|k: int| 0 <= k < out@.len() ==> bytes_len((#[trigger] out@[k])@) <= bytes_len(sq),
            cur@ == split_state(sq, i as nat).1,
            bytes_len(cur@) <= byte_offset(sq, i as int),
        decreases sq.len() - i,
    {
        proof {
            lemma_byte_offset_step(sq, i as int);
            lemma_byte_offset_mono(sq, i + 1, sq.len() as int);
            lemma_byte_offset_full(sq);
        }
        let c = chars[i];
        if c == '\n' {
            let n = cur.len();
            let mut line_chars = cur;
            if n > 0 && line_chars[n - 1] == '\r' {
                line_chars.pop();
            }
            proof {
                if n > 0 && cur@.last() == '\r' {
                    assert(line_chars@ =~= cur@.drop_last());
                    lemma_bytes_len_push(cur@.drop_last(), '\r');
                    assert(cur@.drop_last().push('\r') =~= cur@);
                }
            }
            out.push(string_from_chars(line_chars.as_slice()));
            cur = Vec::new();
        } else {
            proof {
                lemma_bytes_len_push(cur@, c);
            }
            cur.push(c);
        }
        i += 1;
    }
    let ghost st = split_state(sq, sq.len() as nat);
    if cur.len() > 0 {
        proof {
            lemma_byte_offset_full(sq);
        }
        out.push(string_from_chars(cur.as_slice()));
    }
    proof {
        lemma_byte_offset_full(sq);
    }
    out
}

/// What `String::from_utf8_lossy` returns for `bytes`: the text they encode,
/// each invalid sequence replaced by U+FFFD.
pub uninterp spec fn utf8_lossy(bytes: Seq<u8>) -> Seq<char>;

/// Calls `String::from_utf8_lossy`. Claims the result is
/// `utf8_lossy(bytes)`, which for valid UTF-8 is the text the bytes encode,
/// and that its length in bytes, as that of any `String`, fits in a `usize`.
#[verifier::external_body]
pub(crate) fn decode_lossy(bytes: &[u8]) -> (r: String)
    ensures
        r@ == utf8_lossy(bytes@),
        valid_utf8(bytes@) ==> r@ == decode_utf8(bytes@),
        bytes_len(r@) <= usize::MAX,
{
    String::from_utf8_lossy(bytes).into_owned()
}

/// The text of line `i` of a file's `bytes`: the bytes of its range in the
/// line index, without a final `\r`, decoded with invalid UTF-8 replaced.
pub open spec fn file_line_text(bytes: Seq<u8>, i: int) -> Seq<char> {
    let (s, e) = line_range(offsets_spec(bytes), i);
    utf8_lossy(strip_terminator(bytes.subrange(s, e)))
}

/// `bytes` without a final `\n`, then without a final `\r`.
pub open spec fn strip_terminator(bytes: Seq<u8>) -> Seq<u8> {
    let a = if bytes.len() > 0 && bytes.last() == 10u8 {
        bytes.drop_last()
    } else {
        bytes
    };
    if a.len() > 0 && a.last() == 13u8 {
        a.drop_last()
    } else {
        a
    }
}

/// Line `index` from the bytes a reader read for it: its terminator, `\n`
/// or `\r\n`, is dropped and the rest decoded, invalid UTF-8 replaced.
pub fn line_from_bytes(index: usize, bytes: &[u8]) -> (line: Line)
    ensures
        line_made_from(line, index, utf8_lossy(strip_terminator(bytes@))),
{
    let mut n = bytes.len();
    if n > 0 && bytes[n - 1] == 10u8 {
        n = n - 1;
    }
    if n > 0 && bytes[n - 1] == 13u8 {
        n = n - 1;
    }
    let body = vstd::slice::slice_subrange(bytes, 0, n);
    proof {
        assert(body@ =~= strip_terminator(bytes@));
    }
    let raw = decode_lossy(body);
    Line::new(index, raw)
}

} // verus!
