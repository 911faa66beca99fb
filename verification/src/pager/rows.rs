//! Reads runs of [`Row`]s out of a [`Document`] at a given width.
//!
//! A row that does not exist (past the end of the document, or not yet
//! streamed in) is simply absent from the result, so every function here can
//! return fewer rows than asked for.

use std::ops::Range;

use vstd::prelude::*;

use crate::document::Document;
use crate::line::{Line, Row};

verus! {

/// The rows of line `i` at `width`.
pub open spec fn wrap_of(lines: Seq<Line>, width: nat, i: int) -> Seq<Row> {
    lines[i].spec_wrap(width)
}

/// Rows of the lines `a..b` that exist, in reading order.
pub open spec fn rows_between(lines: Seq<Line>, width: nat, a: int, b: int) -> Seq<Row>
    decreases b - a,
{
    if b <= a {
        Seq::empty()
    } else {
        rows_between(lines, width, a, b - 1) + if 0 <= b - 1 < lines.len() {
            wrap_of(lines, width, b - 1)
        } else {
            Seq::empty()
        }
    }
}

/// Rows of all lines from `l` to the end of the document.
pub open spec fn rows_from(lines: Seq<Line>, width: nat, l: int) -> Seq<Row>
    decreases lines.len() - l,
{
    if l < 0 || l >= lines.len() {
        Seq::empty()
    } else {
        wrap_of(lines, width, l) + rows_from(lines, width, l + 1)
    }
}

/// Rows of the lines before `l`.
pub open spec fn rows_upto(lines: Seq<Line>, width: nat, l: int) -> Seq<Row>
    decreases l,
{
    if l <= 0 {
        Seq::empty()
    } else {
        rows_upto(lines, width, l - 1) + wrap_of(lines, width, l - 1)
    }
}

/// `s` without its first `n` elements, or nothing when it is shorter.
pub open spec fn skip_at_most<A>(s: Seq<A>, n: int) -> Seq<A> {
    if n <= s.len() {
        s.skip(n)
    } else {
        Seq::empty()
    }
}

/// The first `n` elements of `s`, or all of it when it is shorter.
pub open spec fn take_at_most<A>(s: Seq<A>, n: int) -> Seq<A> {
    if n <= s.len() {
        s.take(n)
    } else {
        s
    }
}

/// The last `n` elements of `s`, or all of it when it is shorter.
pub open spec fn last_at_most<A>(s: Seq<A>, n: int) -> Seq<A> {
    if n <= s.len() {
        s.skip(s.len() - n)
    } else {
        s
    }
}

/// Rows in reading order from row `wrap` of line `l` to the end of the document.
pub open spec fn rows_starting_at(lines: Seq<Line>, width: nat, l: int, wrap: int) -> Seq<Row> {
    if 0 <= l < lines.len() {
        skip_at_most(wrap_of(lines, width, l), wrap) + rows_from(lines, width, l + 1)
    } else {
        Seq::empty()
    }
}

/// Where a backward read starts from.
pub enum DocPos<'row> {
    /// The last row of the document.
    End,
    /// The row just above the given one, which is itself excluded.
    Before(&'row Row),
}

/// The rows above row `w` of line `l`, in reading order.
pub open spec fn rows_preceding(lines: Seq<Line>, width: nat, l: int, w: int) -> Seq<Row> {
    if w == 0 {
        if l == 0 || l - 1 >= lines.len() {
            Seq::empty()
        } else {
            rows_upto(lines, width, l)
        }
    } else if l >= lines.len() {
        Seq::empty()
    } else {
        rows_upto(lines, width, l) + wrap_of(lines, width, l).take(w)
    }
}

/// The rows a backward read from `start` can reach, in reading order.
pub open spec fn rows_before(lines: Seq<Line>, width: nat, start: DocPos) -> Seq<Row> {
    match start {
        DocPos::End => rows_upto(lines, width, lines.len() as int),
        DocPos::Before(row) => rows_preceding(lines, width, row.line_index as int, row.wrap_index as int),
    }
}

/// Row `w` of line `l` exists, or is the position right after the document.
pub open spec fn position_ok(lines: Seq<Line>, width: nat, l: int, w: int) -> bool {
    w > 0 && l < lines.len() ==> w <= wrap_of(lines, width, l).len()
}

/// A backward read from `start` is defined: a row it starts above exists in
/// its line when that line does.
pub open spec fn backward_start_ok(lines: Seq<Line>, width: nat, start: DocPos) -> bool {
    match start {
        DocPos::End => true,
        DocPos::Before(row) => position_ok(lines, width, row.line_index as int, row.wrap_index as int),
    }
}

/// Each line knows its own position.
pub open spec fn indexed(lines: Seq<Line>) -> bool {
    forall|i: int| 0 <= i < lines.len() ==> (#[trigger] lines[i]).spec_index() == i
}

/// Every line is well formed.
pub open spec fn lines_wf(lines: Seq<Line>) -> bool {
    forall|i: int| 0 <= i < lines.len() ==> (#[trigger] lines[i]).wf()
}

/// `r` is the row at its own position in the document.
pub open spec fn row_in_doc(lines: Seq<Line>, width: nat, r: Row) -> bool {
    &&& r.line_index < lines.len()
    &&& r.wrap_index < wrap_of(lines, width, r.line_index as int).len()
    &&& wrap_of(lines, width, r.line_index as int)[r.wrap_index as int] == r
}

/// Every row of `rows` is in the document.
pub open spec fn all_in_doc(lines: Seq<Line>, width: nat, rows: Seq<Row>) -> bool {
    forall|k: int| 0 <= k < rows.len() ==> row_in_doc(lines, width, #[trigger] rows[k])
}

/// The rows of line `i` are numbered from zero and carry the line's index.
pub proof fn lemma_wrap_positions(lines: Seq<Line>, width: nat, i: int)
    requires
        indexed(lines),
        lines_wf(lines),
        0 <= i < lines.len(),
    ensures
        wrap_of(lines, width, i).len() >= 1,
        forall|k: int|
            0 <= k < wrap_of(lines, width, i).len() ==> (#[trigger] wrap_of(lines, width, i)[k]).line_index
                == i && wrap_of(lines, width, i)[k].wrap_index == k,
        all_in_doc(lines, width, wrap_of(lines, width, i)),
{
    assert(lines[i].spec_index() == i);
    lines[i].lemma_wrap_shape(width);
    let ws = wrap_of(lines, width, i);
    assert forall|k: int| 0 <= k < ws.len() implies row_in_doc(lines, width, #[trigger] ws[k]) by {
        assert(ws[k].line_index == i && ws[k].wrap_index == k);
    }
}

/// All rows from line `l` on are in the document.
pub proof fn lemma_rows_from_in_doc(lines: Seq<Line>, width: nat, l: int)
    requires
        indexed(lines),
        lines_wf(lines),
    ensures
        all_in_doc(lines, width, rows_from(lines, width, l)),
    decreases lines.len() - l,
{
    if 0 <= l < lines.len() {
        lemma_wrap_positions(lines, width, l);
        lemma_rows_from_in_doc(lines, width, l + 1);
        let a = wrap_of(lines, width, l);
        let b = rows_from(lines, width, l + 1);
        assert forall|k: int| 0 <= k < (a + b).len() implies row_in_doc(
            lines,
            width,
            #[trigger] (a + b)[k],
        ) by {
            if k < a.len() {
                assert((a + b)[k] == a[k]);
            } else {
                assert((a + b)[k] == b[k - a.len()]);
            }
        }
    }
}

/// All rows of the lines before `l` are in the document.
pub proof fn lemma_rows_upto_in_doc(lines: Seq<Line>, width: nat, l: int)
    requires
        indexed(lines),
        lines_wf(lines),
        l <= lines.len(),
    ensures
        all_in_doc(lines, width, rows_upto(lines, width, l)),
    decreases l,
{
    if l > 0 {
        lemma_wrap_positions(lines, width, l - 1);
        lemma_rows_upto_in_doc(lines, width, l - 1);
        let a = rows_upto(lines, width, l - 1);
        let b = wrap_of(lines, width, l - 1);
        assert forall|k: int| 0 <= k < (a + b).len() implies row_in_doc(
            lines,
            width,
            #[trigger] (a + b)[k],
        ) by {
            if k < a.len() {
                assert((a + b)[k] == a[k]);
            } else {
                assert((a + b)[k] == b[k - a.len()]);
            }
        }
    }
}

/// All rows reachable forward from a position are in the document.
pub proof fn lemma_rows_starting_at_in_doc(lines: Seq<Line>, width: nat, l: int, w: int)
    requires
        indexed(lines),
        lines_wf(lines),
        0 <= w,
    ensures
        all_in_doc(lines, width, rows_starting_at(lines, width, l, w)),
{
    if 0 <= l < lines.len() {
        lemma_wrap_positions(lines, width, l);
        lemma_rows_from_in_doc(lines, width, l + 1);
        let a = skip_at_most(wrap_of(lines, width, l), w);
        let b = rows_from(lines, width, l + 1);
        assert forall|k: int| 0 <= k < (a + b).len() implies row_in_doc(
            lines,
            width,
            #[trigger] (a + b)[k],
        ) by {
            if k < a.len() {
                assert((a + b)[k] == a[k]);
                assert(a[k] == wrap_of(lines, width, l)[k + w]);
            } else {
                assert((a + b)[k] == b[k - a.len()]);
            }
        }
    }
}

/// A row of the document is a valid place to read backward from.
pub proof fn lemma_row_in_doc_position_ok(lines: Seq<Line>, width: nat, r: Row)
    requires
        row_in_doc(lines, width, r),
    ensures
        position_ok(lines, width, r.line_index as int, r.wrap_index as int),
{
}

/// The rows above a row of `rows_from(lines, width, m)` are the rows of the
/// lines before `m` followed by the rows of `rows_from` that come before it.
pub proof fn lemma_rows_preceding_from(lines: Seq<Line>, width: nat, m: int, k: int)
    requires
        indexed(lines),
        lines_wf(lines),
        0 <= m,
        0 <= k < rows_from(lines, width, m).len(),
    ensures
        rows_preceding(
            lines,
            width,
            rows_from(lines, width, m)[k].line_index as int,
            rows_from(lines, width, m)[k].wrap_index as int,
        ) == rows_upto(lines, width, m) + rows_from(lines, width, m).take(k),
    decreases lines.len() - m,
{
    let all = rows_from(lines, width, m);
    assert(m < lines.len());
    let ws = wrap_of(lines, width, m);
    let rest = rows_from(lines, width, m + 1);
    assert(all == ws + rest);
    lemma_wrap_positions(lines, width, m);
    if k < ws.len() {
        assert(all[k] == ws[k]);
        assert(all.take(k) =~= ws.take(k));
        if k == 0 {
            assert(ws.take(0) =~= Seq::<Row>::empty());
            assert(rows_upto(lines, width, m) + ws.take(0) =~= rows_upto(lines, width, m));
            if m == 0 {
                assert(rows_upto(lines, width, 0) =~= Seq::<Row>::empty());
            }
        }
    } else {
        lemma_rows_preceding_from(lines, width, m + 1, k - ws.len());
        assert(all[k] == rest[k - ws.len()]);
        assert(rows_upto(lines, width, m + 1) == rows_upto(lines, width, m) + ws);
        assert(all.take(k) =~= ws + rest.take(k - ws.len()));
        assert(rows_upto(lines, width, m) + ws + rest.take(k - ws.len()) =~= rows_upto(lines, width, m) + (ws
            + rest.take(k - ws.len())));
    }
}

pub proof fn lemma_rows_between_prefix(lines: Seq<Line>, width: nat, a: int, i: int, b: int)
    requires
        a <= i <= b,
    ensures
        rows_between(lines, width, a, i).len() <= rows_between(lines, width, a, b).len(),
        rows_between(lines, width, a, b).take(rows_between(lines, width, a, i).len() as int)
            == rows_between(lines, width, a, i),
    decreases b - i,
{
    if i < b {
        lemma_rows_between_prefix(lines, width, a, i, b - 1);
        let x = rows_between(lines, width, a, i);
        let y = rows_between(lines, width, a, b - 1);
        let z = rows_between(lines, width, a, b);
        assert(z.take(y.len() as int) =~= y);
        assert(z.take(x.len() as int) =~= y.take(x.len() as int));
    } else {
        let x = rows_between(lines, width, a, i);
        assert(x.take(x.len() as int) =~= x);
    }
}

/// Rows of the lines in `line_index_range` at `width`, cut to at most
/// `max_rows` rows; the cut may fall inside a wrapped line.
pub fn from_lines(doc: &Document, width: usize, line_index_range: Range<usize>, max_rows: usize) -> (rows:
    Vec<Row>)
    requires
        doc.wf(),
    ensures
        rows@ == take_at_most(
            rows_between(
                doc.spec_lines(),
                width as nat,
                line_index_range.start as int,
                line_index_range.end as int,
            ),
            max_rows as int,
        ),
{
    let ghost lines = doc.spec_lines();
    let a = line_index_range.start;
    let b = line_index_range.end;
    let mut rows: Vec<Row> = Vec::new();
    if a >= b {
        return rows;
    }
    let mut i = a;
    let mut stop = false;
    while i < b && !stop
        invariant
            doc.wf(),
            lines == doc.spec_lines(),
            a <= i <= b,
            rows@ == rows_between(lines, width as nat, a as int, i as int),
            stop ==> rows@.len() >= max_rows,
        decreases b - i,
    {
        if let Some(line) = doc.line(i) {
            let wrapped = line.wrap(width);
            let ghost before = rows@;
            let mut t: usize = 0;
            while t < wrapped.len()
                invariant
                    t <= wrapped@.len(),
                    rows@ == before + wrapped@.take(t as int),
                decreases wrapped@.len() - t,
            {
                rows.push(wrapped[t]);
                t += 1;
                proof {
                    assert(rows@ =~= before + wrapped@.take(t as int));
                }
            }
            proof {
                assert(wrapped@.take(t as int) =~= wrapped@);
            }
        }
        i += 1;
        proof {
            assert(rows@ =~= rows_between(lines, width as nat, a as int, i as int));
        }
        if rows.len() >= max_rows {
            stop = true;
        }
    }
    proof {
        lemma_rows_between_prefix(lines, width as nat, a as int, i as int, b as int);
    }
    let ghost full = rows_between(lines, width as nat, a as int, b as int);
    if rows.len() > max_rows {
        rows.truncate(max_rows);
        proof {
            assert(rows@ =~= full.take(max_rows as int));
        }
    } else {
        proof {
            if i < b {
                assert(rows@.len() == max_rows);
                assert(rows@ =~= full.take(max_rows as int));
            } else {
                assert(rows@ == full);
            }
        }
    }
    rows
}

proof fn lemma_rows_starting_at_zero(lines: Seq<Line>, width: nat, l: int)
    requires
        0 <= l,
    ensures
        rows_starting_at(lines, width, l, 0) == rows_from(lines, width, l),
{
    if l < lines.len() {
        assert(wrap_of(lines, width, l).skip(0) =~= wrap_of(lines, width, l));
    }
}

/// At most `count` rows at `width`, starting at `start` (line, wrap row) and
/// reading forward; fewer when the document ends first.
pub fn list_forward(doc: &Document, width: usize, start: (usize, usize), count: usize) -> (rows:
    Vec<Row>)
    requires
        doc.wf(),
    ensures
        rows@ == take_at_most(
            rows_starting_at(doc.spec_lines(), width as nat, start.0 as int, start.1 as int),
            count as int,
        ),
{
    let ghost lines = doc.spec_lines();
    let ghost all = rows_starting_at(lines, width as nat, start.0 as int, start.1 as int);
    let mut rows: Vec<Row> = Vec::new();
    let (mut line_index, mut wrap_index) = start;
    let n_lines = doc.line_count();
    let mut done = false;
    proof {
        assert(all =~= rows@ + rows_starting_at(lines, width as nat, line_index as int, wrap_index as int));
    }
    while rows.len() < count && !done
        invariant
            doc.wf(),
            lines == doc.spec_lines(),
            n_lines == lines.len(),
            done ==> line_index >= lines.len(),
            rows@.len() <= count,
            rows@.len() < count ==> all == rows@ + rows_starting_at(
                lines,
                width as nat,
                line_index as int,
                wrap_index as int,
            ),
            rows@.len() == count ==> rows@ == all.take(count as int),
            all.len() >= rows@.len(),
        decreases (if line_index < lines.len() {
            lines.len() - line_index
        } else {
            0int
        }) + if done {
            0int
        } else {
            1int
        },
    {
        let line = match doc.line(line_index) {
            Some(l) => l,
            None => {
                done = true;
                continue;
            },
        };
        let wrapped = line.wrap(width);
        let ghost avail = skip_at_most(wrapped@, wrap_index as int);
        let ghost before = rows@;
        let mut t = wrap_index;
        while t < wrapped.len() && rows.len() < count
            invariant
                wrap_index <= t,
                t <= wrapped@.len() || t == wrap_index,
                before.len() <= rows@.len() <= count,
                wrap_index <= wrapped@.len() ==> rows@ == before + avail.take(t - wrap_index),
                wrap_index > wrapped@.len() ==> rows@ == before,
                wrap_index <= wrapped@.len() ==> avail == wrapped@.skip(wrap_index as int),
                wrap_index > wrapped@.len() ==> avail.len() == 0,
            decreases wrapped@.len() - t,
        {
            rows.push(wrapped[t]);
            t += 1;
            proof {
                assert(rows@ =~= before + avail.take(t - wrap_index));
            }
        }
        proof {
            let rest = rows_from(lines, width as nat, line_index + 1);
            assert(rows_starting_at(lines, width as nat, line_index as int, wrap_index as int)
                == avail + rest);
            if rows@.len() < count {
                if wrap_index <= wrapped@.len() {
                    assert(avail.take(t - wrap_index) =~= avail);
                }
                assert(rows@ =~= before + avail);
                lemma_rows_starting_at_zero(lines, width as nat, line_index + 1);
                assert(all =~= rows@ + rows_starting_at(lines, width as nat, line_index + 1, 0));
            } else {
                assert(all =~= before + avail + rest);
                assert(all.take(count as int) =~= rows@);
            }
        }
        wrap_index = 0;
        line_index = line_index + 1;
    }
    proof {
        if rows@.len() < count {
            assert(rows_starting_at(lines, width as nat, line_index as int, wrap_index as int).len()
                == 0);
            assert(all =~= rows@);
        }
    }
    rows
}

/// At most `count` rows at `width`, read backward from `start`; fewer when
/// the document begins first. The rows come back in reading order, so the
/// row just above `start` is the last of them.
pub fn list_backward(doc: &Document, width: usize, start: DocPos, count: usize) -> (rows: Vec<Row>)
    requires
        doc.wf(),
        backward_start_ok(doc.spec_lines(), width as nat, start),
    ensures
        rows@ == last_at_most(rows_before(doc.spec_lines(), width as nat, start), count as int),
{
    let ghost lines = doc.spec_lines();
    let ghost src = rows_before(lines, width as nat, start);
    let len = doc.line_count();
    let mut line_index: usize;
    let mut part_from: Option<usize>;
    match start {
        DocPos::End => {
            if len == 0 {
                return Vec::new();
            }
            line_index = len - 1;
            part_from = None;
        },
        DocPos::Before(row) => {
            if row.wrap_index == 0 {
                if row.line_index == 0 || row.line_index - 1 >= len {
                    return Vec::new();
                }
                line_index = row.line_index - 1;
                part_from = None;
            } else {
                if row.line_index >= len {
                    return Vec::new();
                }
                line_index = row.line_index;
                part_from = Some(row.wrap_index);
            }
        },
    }
    let mut rev: Vec<Row> = Vec::new();
    let ghost mut suffix: Seq<Row> = Seq::empty();
    let mut exhausted = false;
    proof {
        assert(src =~= rows_upto(lines, width as nat, line_index as int) + match part_from {
            Some(p) => wrap_of(lines, width as nat, line_index as int).take(p as int),
            None => wrap_of(lines, width as nat, line_index as int),
        } + suffix);
    }
    while rev.len() < count && !exhausted
        invariant
            doc.wf(),
            lines == doc.spec_lines(),
            len == lines.len(),
            line_index < len,
            rev@.len() == suffix.len(),
            rev@ == suffix.reverse(),
            suffix.len() <= count,
            !exhausted ==> src == rows_upto(lines, width as nat, line_index as int) + match part_from {
                Some(p) => wrap_of(lines, width as nat, line_index as int).take(p as int),
                None => wrap_of(lines, width as nat, line_index as int),
            } + suffix,
            !exhausted ==> match part_from {
                Some(p) => p <= wrap_of(lines, width as nat, line_index as int).len(),
                None => true,
            },
            exhausted ==> src == suffix,
        decreases line_index + if exhausted { 0int } else { 1int }, count - rev@.len(),
    {
        let line = doc.line(line_index).unwrap();
        let wrapped = line.wrap(width);
        let avail_len = match part_from {
            Some(p) => p,
            None => wrapped.len(),
        };
        let ghost avail = wrapped@.take(avail_len as int);
        let ghost before = suffix;
        let mut t: usize = 0;
        while t < avail_len && rev.len() < count
            invariant
                t <= avail_len <= wrapped@.len(),
                avail == wrapped@.take(avail_len as int),
                rev@.len() == before.len() + t,
                rev@.len() <= count,
                rev@ == (avail.skip(avail_len - t) + before).reverse(),
            decreases avail_len - t,
        {
            rev.push(wrapped[avail_len - 1 - t]);
            t += 1;
            proof {
                assert(rev@ =~= (avail.skip(avail_len - t) + before).reverse());
            }
        }
        proof {
            suffix = avail.skip(avail_len - t) + before;
            let upto = rows_upto(lines, width as nat, line_index as int);
            assert(src =~= upto + avail.take(avail_len - t) + suffix);
        }
        if t < avail_len {
            // The page is full: what is left of this line stays unread.
            part_from = Some(avail_len - t);
            proof {
                assert(avail.take(avail_len - t) =~= wrapped@.take(avail_len - t));
            }
        } else if line_index == 0 {
            exhausted = true;
            proof {
                assert(avail.take(avail_len - t) =~= Seq::<Row>::empty());
                assert(src =~= suffix);
            }
        } else {
            part_from = None;
            proof {
                assert(avail.take(avail_len - t) =~= Seq::<Row>::empty());
                assert(rows_upto(lines, width as nat, line_index as int) == rows_upto(
                    lines,
                    width as nat,
                    line_index - 1,
                ) + wrap_of(lines, width as nat, line_index - 1));
                assert(src =~= rows_upto(lines, width as nat, line_index - 1) + wrap_of(
                    lines,
                    width as nat,
                    line_index - 1,
                ) + suffix);
            }
            line_index = line_index - 1;
        }
    }
    let mut rows: Vec<Row> = Vec::new();
    let mut k = rev.len();
    while k > 0
        invariant
            k <= rev@.len(),
            rows@ == rev@.subrange(k as int, rev@.len() as int).reverse(),
        decreases k,
    {
        k = k - 1;
        rows.push(rev[k]);
        proof {
            assert(rows@ =~= rev@.subrange(k as int, rev@.len() as int).reverse());
        }
    }
    proof {
        assert(rev@.subrange(0, rev@.len() as int) =~= rev@);
        assert(suffix.reverse().reverse() =~= suffix);
        if suffix.len() == count && !exhausted {
            assert(src.skip(src.len() - count) =~= suffix);
        } else if suffix.len() == count {
            assert(src.skip(src.len() - count) =~= suffix);
        }
    }
    rows
}


/// The rows of the document are those of the lines before `x` followed by
/// those of the lines from `x` on.
pub proof fn lemma_rows_split_at(lines: Seq<Line>, width: nat, x: int)
    requires
        0 <= x <= lines.len(),
    ensures
        rows_from(lines, width, 0) == rows_upto(lines, width, x) + rows_from(lines, width, x),
    decreases x,
{
    if x == 0 {
        assert(rows_upto(lines, width, 0) + rows_from(lines, width, 0) =~= rows_from(lines, width, 0));
    } else {
        lemma_rows_split_at(lines, width, x - 1);
        assert(rows_from(lines, width, x - 1) == wrap_of(lines, width, x - 1) + rows_from(lines, width, x));
        assert(rows_upto(lines, width, x) == rows_upto(lines, width, x - 1) + wrap_of(lines, width, x - 1));
        assert(rows_upto(lines, width, x - 1) + (wrap_of(lines, width, x - 1) + rows_from(lines, width, x))
            =~= rows_upto(lines, width, x) + rows_from(lines, width, x));
    }
}

/// The rows of the lines before `x` belong to lines before `x`.
pub proof fn lemma_rows_upto_lines(lines: Seq<Line>, width: nat, x: int)
    requires
        indexed(lines),
        lines_wf(lines),
        0 <= x <= lines.len(),
    ensures
        forall|j: int|
            0 <= j < rows_upto(lines, width, x).len() ==> #[trigger] rows_upto(lines, width, x)[j].line_index < x,
    decreases x,
{
    if x > 0 {
        lemma_rows_upto_lines(lines, width, x - 1);
        lemma_wrap_positions(lines, width, x - 1);
        let a = rows_upto(lines, width, x - 1);
        let b = wrap_of(lines, width, x - 1);
        assert forall|j: int| 0 <= j < (a + b).len() implies #[trigger] (a + b)[j].line_index < x by {
            if j < a.len() {
                assert((a + b)[j] == a[j]);
            } else {
                assert((a + b)[j] == b[j - a.len()]);
            }
        }
    }
}

/// The rows of the lines from `x` on belong to lines from `x` on.
pub proof fn lemma_rows_from_lines(lines: Seq<Line>, width: nat, x: int)
    requires
        indexed(lines),
        lines_wf(lines),
        0 <= x,
    ensures
        forall|j: int|
            0 <= j < rows_from(lines, width, x).len() ==> #[trigger] rows_from(lines, width, x)[j].line_index >= x,
    decreases lines.len() - x,
{
    if x < lines.len() {
        lemma_rows_from_lines(lines, width, x + 1);
        lemma_wrap_positions(lines, width, x);
        let a = wrap_of(lines, width, x);
        let b = rows_from(lines, width, x + 1);
        assert forall|j: int| 0 <= j < (a + b).len() implies #[trigger] (a + b)[j].line_index >= x by {
            if j < a.len() {
                assert((a + b)[j] == a[j]);
            } else {
                assert((a + b)[j] == b[j - a.len()]);
            }
        }
    }
}

/// The rows of the lines before `b` are those before `a` and then those of
/// the lines `a..b`.
pub proof fn lemma_rows_upto_between(lines: Seq<Line>, width: nat, a: int, b: int)
    requires
        0 <= a <= b <= lines.len(),
    ensures
        rows_upto(lines, width, b) == rows_upto(lines, width, a) + rows_between(lines, width, a, b),
    decreases b - a,
{
    if a == b {
        assert(rows_upto(lines, width, a) + rows_between(lines, width, a, b) =~= rows_upto(lines, width, a));
    } else {
        lemma_rows_upto_between(lines, width, a, b - 1);
        assert(rows_upto(lines, width, a) + (rows_between(lines, width, a, b - 1) + wrap_of(lines, width, b - 1))
            =~= rows_upto(lines, width, a) + rows_between(lines, width, a, b));
    }
}

/// The rows of the lines `a..b` belong to those lines.
pub proof fn lemma_rows_between_lines(lines: Seq<Line>, width: nat, a: int, b: int)
    requires
        indexed(lines),
        lines_wf(lines),
    ensures
        forall|j: int|
            0 <= j < rows_between(lines, width, a, b).len() ==> a <= #[trigger] rows_between(
                lines,
                width,
                a,
                b,
            )[j].line_index < b,
    decreases b - a,
{
    if b > a {
        lemma_rows_between_lines(lines, width, a, b - 1);
        let x = rows_between(lines, width, a, b - 1);
        let y = if 0 <= b - 1 < lines.len() {
            wrap_of(lines, width, b - 1)
        } else {
            Seq::empty()
        };
        if 0 <= b - 1 < lines.len() {
            lemma_wrap_positions(lines, width, b - 1);
        }
        assert forall|j: int| 0 <= j < (x + y).len() implies a <= #[trigger] (x + y)[j].line_index < b by {
            if j < x.len() {
                assert((x + y)[j] == x[j]);
            } else {
                assert((x + y)[j] == y[j - x.len()]);
            }
        }
    }
}

/// All rows of the lines `a..b` are in the document.
pub proof fn lemma_rows_between_in_doc(lines: Seq<Line>, width: nat, a: int, b: int)
    requires
        indexed(lines),
        lines_wf(lines),
    ensures
        all_in_doc(lines, width, rows_between(lines, width, a, b)),
    decreases b - a,
{
    if b > a {
        lemma_rows_between_in_doc(lines, width, a, b - 1);
        let x = rows_between(lines, width, a, b - 1);
        let y = if 0 <= b - 1 < lines.len() {
            wrap_of(lines, width, b - 1)
        } else {
            Seq::empty()
        };
        if 0 <= b - 1 < lines.len() {
            lemma_wrap_positions(lines, width, b - 1);
        }
        assert forall|k: int| 0 <= k < (x + y).len() implies row_in_doc(lines, width, #[trigger] (x + y)[k]) by {
            if k < x.len() {
                assert((x + y)[k] == x[k]);
            } else {
                assert((x + y)[k] == y[k - x.len()]);
            }
        }
    }
}

/// All rows a backward read above `min_line` can reach are in the document.
pub proof fn lemma_rows_above_in_doc(lines: Seq<Line>, width: nat, end_line: int, part: Option<usize>, min_line: int)
    requires
        indexed(lines),
        lines_wf(lines),
        part matches Some(p) ==> 0 <= end_line < lines.len() && p <= wrap_of(lines, width, end_line).len(),
    ensures
        all_in_doc(lines, width, rows_above(lines, width, end_line, part, min_line)),
{
    lemma_rows_between_in_doc(lines, width, min_line, end_line);
    let x = rows_between(lines, width, min_line, end_line);
    let y = match part {
        Some(p) => wrap_of(lines, width, end_line).take(p as int),
        None => Seq::empty(),
    };
    if let Some(p) = part {
        lemma_wrap_positions(lines, width, end_line);
    }
    assert forall|k: int| 0 <= k < (x + y).len() implies row_in_doc(lines, width, #[trigger] (x + y)[k]) by {
        if k < x.len() {
            assert((x + y)[k] == x[k]);
        } else {
            assert((x + y)[k] == y[k - x.len()]);
            if let Some(p) = part {
                assert(y[k - x.len()] == wrap_of(lines, width, end_line)[k - x.len()]);
            }
        }
    }
}

/// The rows of the lines `min_line..end_line`, followed by the first `p` rows
/// of line `end_line` when `part` is `Some(p)`.
pub open spec fn rows_above(lines: Seq<Line>, width: nat, end_line: int, part: Option<usize>, min_line: int) -> Seq<
    Row,
> {
    rows_between(lines, width, min_line, end_line) + match part {
        Some(p) => wrap_of(lines, width, end_line).take(p as int),
        None => Seq::empty(),
    }
}

/// At most `count` rows read backward, without going above line `min_line`:
/// the last of the rows of the lines `min_line..end_line` and, when `part`
/// is `Some(p)`, of the first `p` rows of line `end_line`. They come back in
/// reading order.
pub fn list_backward_above(
    doc: &Document,
    width: usize,
    end_line: usize,
    part: Option<usize>,
    count: usize,
    min_line: usize,
) -> (rows: Vec<Row>)
    requires
        doc.wf(),
        end_line <= doc.spec_lines().len(),
        part matches Some(p) ==> end_line < doc.spec_lines().len() && p <= wrap_of(
            doc.spec_lines(),
            width as nat,
            end_line as int,
        ).len(),
    ensures
        rows@ == last_at_most(
            rows_above(doc.spec_lines(), width as nat, end_line as int, part, min_line as int),
            count as int,
        ),
{
    let ghost lines = doc.spec_lines();
    let ghost src = rows_above(lines, width as nat, end_line as int, part, min_line as int);
    let mut line_index: usize;
    let mut part_from: Option<usize>;
    match part {
        None => {
            if end_line <= min_line || end_line == 0 {
                proof {
                    assert(src =~= Seq::<Row>::empty());
                }
                return Vec::new();
            }
            line_index = end_line - 1;
            part_from = None;
            proof {
                assert(rows_between(lines, width as nat, min_line as int, end_line as int) == rows_between(
                    lines,
                    width as nat,
                    min_line as int,
                    line_index as int,
                ) + wrap_of(lines, width as nat, line_index as int));
            }
        },
        Some(p) => {
            line_index = end_line;
            part_from = Some(p);
        },
    }
    let mut rev: Vec<Row> = Vec::new();
    let ghost mut suffix: Seq<Row> = Seq::empty();
    let mut exhausted = false;
    proof {
        assert(src =~= rows_between(lines, width as nat, min_line as int, line_index as int) + match part_from {
            Some(p) => wrap_of(lines, width as nat, line_index as int).take(p as int),
            None => wrap_of(lines, width as nat, line_index as int),
        } + suffix);
    }
    while rev.len() < count && !exhausted
        invariant
            doc.wf(),
            lines == doc.spec_lines(),
            line_index < lines.len(),
            rev@.len() == suffix.len(),
            rev@ == suffix.reverse(),
            suffix.len() <= count,
            !exhausted ==> src == rows_between(lines, width as nat, min_line as int, line_index as int)
                + match part_from {
                Some(p) => wrap_of(lines, width as nat, line_index as int).take(p as int),
                None => wrap_of(lines, width as nat, line_index as int),
            } + suffix,
            !exhausted ==> match part_from {
                Some(p) => p <= wrap_of(lines, width as nat, line_index as int).len(),
                None => true,
            },
            exhausted ==> src == suffix,
        decreases line_index + if exhausted { 0int } else { 1int }, count - rev@.len(),
    {
        let line = doc.line(line_index).unwrap();
        let wrapped = line.wrap(width);
        let avail_len = match part_from {
            Some(p) => p,
            None => wrapped.len(),
        };
        let ghost avail = wrapped@.take(avail_len as int);
        let ghost before = suffix;
        let mut t: usize = 0;
        while t < avail_len && rev.len() < count
            invariant
                t <= avail_len <= wrapped@.len(),
                avail == wrapped@.take(avail_len as int),
                rev@.len() == before.len() + t,
                rev@.len() <= count,
                rev@ == (avail.skip(avail_len - t) + before).reverse(),
            decreases avail_len - t,
        {
            rev.push(wrapped[avail_len - 1 - t]);
            t += 1;
            proof {
                assert(rev@ =~= (avail.skip(avail_len - t) + before).reverse());
            }
        }
        proof {
            suffix = avail.skip(avail_len - t) + before;
            let upto = rows_between(lines, width as nat, min_line as int, line_index as int);
            assert(src =~= upto + avail.take(avail_len - t) + suffix);
        }
        if t < avail_len {
            part_from = Some(avail_len - t);
            proof {
                assert(avail.take(avail_len - t) =~= wrapped@.take(avail_len - t));
            }
        } else if line_index == 0 || line_index <= min_line {
            exhausted = true;
            proof {
                assert(avail.take(avail_len - t) =~= Seq::<Row>::empty());
                assert(rows_between(lines, width as nat, min_line as int, line_index as int) =~= Seq::<Row>::empty());
                assert(src =~= suffix);
            }
        } else {
            part_from = None;
            proof {
                assert(avail.take(avail_len - t) =~= Seq::<Row>::empty());
                assert(rows_between(lines, width as nat, min_line as int, line_index as int) == rows_between(
                    lines,
                    width as nat,
                    min_line as int,
                    line_index - 1,
                ) + wrap_of(lines, width as nat, line_index - 1));
                assert(src =~= rows_between(lines, width as nat, min_line as int, line_index - 1) + wrap_of(
                    lines,
                    width as nat,
                    line_index - 1,
                ) + suffix);
            }
            line_index = line_index - 1;
        }
    }
    let mut rows: Vec<Row> = Vec::new();
    let mut k = rev.len();
    while k > 0
        invariant
            k <= rev@.len(),
            rows@ == rev@.subrange(k as int, rev@.len() as int).reverse(),
        decreases k,
    {
        k = k - 1;
        rows.push(rev[k]);
        proof {
            assert(rows@ =~= rev@.subrange(k as int, rev@.len() as int).reverse());
        }
    }
    proof {
        assert(rev@.subrange(0, rev@.len() as int) =~= rev@);
        assert(suffix.reverse().reverse() =~= suffix);
        if suffix.len() == count {
            assert(src.skip(src.len() - count) =~= suffix);
        }
    }
    rows
}

} // verus!
