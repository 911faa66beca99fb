//! The status line: the position indicator in view mode, the search prompt
//! while a query is typed.

use vstd::prelude::*;

use crate::document::Document;
use crate::line::{leading, Row};
use crate::line_editor::InputAtCursor;
use crate::pager::PagerMode;
use crate::text::{chars_of, push_all, string_from_chars};
use crate::width::{char_width, lemma_text_width_concat, text_width_of, width_of};

verus! {

/// Reverse video on, as the view-mode status line is drawn like `less`.
pub const STATUS_REVERSE_ON: &'static str = "\x1b[7m";

/// Reverse video off.
pub const STATUS_REVERSE_OFF: &'static str = "\x1b[27m";

/// Characters of [`STATUS_REVERSE_ON`].
pub open spec fn reverse_on() -> Seq<char> {
    seq!['\x1b', '[', '7', 'm']
}

/// Characters of [`STATUS_REVERSE_OFF`].
pub open spec fn reverse_off() -> Seq<char> {
    seq!['\x1b', '[', '2', '7', 'm']
}

fn reverse_on_chars() -> (r: Vec<char>)
    ensures
        r@ == reverse_on(),
{
    let r = vec!['\x1b', '[', '7', 'm'];
    assert(r@ =~= reverse_on());
    r
}

fn reverse_off_chars() -> (r: Vec<char>)
    ensures
        r@ == reverse_off(),
{
    let r = vec!['\x1b', '[', '2', '7', 'm'];
    assert(r@ =~= reverse_off());
    r
}

/// `n`, capped at `usize::MAX`.
pub open spec fn sat(n: nat) -> nat {
    if n > usize::MAX {
        usize::MAX as nat
    } else {
        n
    }
}

/// Width of the suffix of `s` from index `j`.
pub open spec fn suffix_width(s: Seq<char>, j: int) -> nat {
    text_width_of(s.skip(j))
}

/// Where the kept part of `s` starts when clipping to `width` columns: the
/// suffix grows leftward from `j` as long as it still fits.
pub open spec fn clip_index(s: Seq<char>, width: nat, j: int) -> int
    decreases j,
{
    if j > 0 && j <= s.len() && suffix_width(s, j - 1) <= width {
        clip_index(s, width, j - 1)
    } else {
        j
    }
}

/// `s` clipped to `width` columns, keeping the right side: the longest suffix
/// that fits. A wide character straddling the edge is dropped whole.
pub open spec fn clip_spec(s: Seq<char>, width: nat) -> Seq<char> {
    s.skip(clip_index(s, width, s.len() as int))
}

proof fn lemma_suffix_width_step(s: Seq<char>, j: int)
    requires
        0 < j <= s.len(),
    ensures
        suffix_width(s, j - 1) == width_of(s[j - 1]) + suffix_width(s, j),
{
    let one = seq![s[j - 1]];
    assert(s.skip(j - 1) =~= one + s.skip(j));
    lemma_text_width_concat(one, s.skip(j));
    assert(one.drop_last() =~= Seq::<char>::empty());
    assert(text_width_of(Seq::<char>::empty()) == 0);
    assert(text_width_of(one) == text_width_of(one.drop_last()) + width_of(one.last()));
}

/// `s` clipped to `width` display columns, keeping the right side.
pub fn clip_chars(s: &[char], width: usize) -> (r: Vec<char>)
    ensures
        r@ == clip_spec(s@, width as nat),
{
    let mut i = s.len();
    let mut kept: usize = 0;
    let mut stop = false;
    proof {
        assert(s@.skip(s@.len() as int) =~= Seq::<char>::empty());
    }
    while i > 0 && !stop
        invariant
            i <= s@.len(),
            kept == suffix_width(s@, i as int),
            kept <= width,
            clip_index(s@, width as nat, s@.len() as int) == if stop {
                i as int
            } else {
                clip_index(s@, width as nat, i as int)
            },
        decreases i + if stop { 0int } else { 1int },
    {
        let w = char_width(s[i - 1]);
        proof {
            lemma_suffix_width_step(s@, i as int);
        }
        if w > width - kept {
            stop = true;
        } else {
            kept = kept + w;
            i = i - 1;
        }
    }
    let mut r: Vec<char> = Vec::new();
    push_all(&mut r, vstd::slice::slice_subrange(s, i, s.len()));
    proof {
        assert(r@ =~= s@.skip(i as int));
    }
    r
}

/// `line` clipped to `width` display columns, keeping the right side, where
/// the position and percentage sit.
pub fn clip(line: &str, width: usize) -> (r: String)
    ensures
        r@ == clip_spec(line@, width as nat),
{
    let chars = chars_of(line);
    let kept = clip_chars(chars.as_slice(), width);
    string_from_chars(kept.as_slice())
}

/// Total display width of `s`, capped at `usize::MAX`.
pub fn text_width(s: &[char]) -> (r: usize)
    ensures
        r == sat(text_width_of(s@)),
{
    let mut acc: usize = 0;
    let mut i: usize = 0;
    while i < s.len()
        invariant
            i <= s@.len(),
            acc == sat(text_width_of(s@.take(i as int))),
        decreases s@.len() - i,
    {
        let w = char_width(s[i]);
        proof {
            assert(s@.take(i + 1).drop_last() =~= s@.take(i as int));
        }
        acc = acc.saturating_add(w);
        i += 1;
    }
    proof {
        assert(s@.take(i as int) =~= s@);
    }
    acc
}

/// The cell the cursor covers and the rest of the input after it: one
/// character plus the zero-width characters that follow it, since a combining
/// mark renders on the cell of the character it follows. Past the last
/// character the cursor covers a space of its own.
pub open spec fn cursor_cell_spec(from_cursor: Seq<char>) -> (Seq<char>, Seq<char>) {
    if from_cursor.len() == 0 {
        (seq![' '], Seq::empty())
    } else {
        let rest = from_cursor.drop_first();
        let marks = leading(rest, |c: char| width_of(c) == 0) as int;
        (seq![from_cursor[0]] + rest.take(marks), rest.skip(marks))
    }
}

fn cursor_cell_chars(from_cursor: &[char]) -> (r: (Vec<char>, Vec<char>))
    ensures
        (r.0@, r.1@) == cursor_cell_spec(from_cursor@),
{
    if from_cursor.len() == 0 {
        let cell = vec![' '];
        assert(cell@ =~= seq![' ']);
        return (cell, Vec::new());
    }
    let ghost rest = from_cursor@.drop_first();
    let ghost p = |c: char| width_of(c) == 0;
    let mut k: usize = 1;
    proof {
        assert(rest.skip(0) =~= rest);
    }
    while k < from_cursor.len() && char_width(from_cursor[k]) == 0
        invariant
            1 <= k <= from_cursor@.len(),
            rest == from_cursor@.drop_first(),
            p == (|c: char| width_of(c) == 0),
            leading(rest, p) == (k - 1) + leading(rest.skip(k - 1), p),
        decreases from_cursor@.len() - k,
    {
        proof {
            assert(rest.skip(k - 1)[0] == from_cursor@[k as int]);
            assert(rest.skip(k - 1).drop_first() =~= rest.skip(k as int));
        }
        k += 1;
    }
    proof {
        if k < from_cursor@.len() {
            assert(rest.skip(k - 1)[0] == from_cursor@[k as int]);
        } else {
            assert(rest.skip(k - 1).len() == 0);
        }
    }
    let mut cell: Vec<char> = Vec::new();
    push_all(&mut cell, vstd::slice::slice_subrange(from_cursor, 0, k));
    let mut tail: Vec<char> = Vec::new();
    push_all(&mut tail, vstd::slice::slice_subrange(from_cursor, k, from_cursor.len()));
    proof {
        assert(cell@ =~= seq![from_cursor@[0]] + rest.take(k - 1));
        assert(tail@ =~= rest.skip(k - 1));
    }
    (cell, tail)
}

/// The cell the cursor covers and the rest of the input after it.
pub fn cursor_cell(from_cursor: &[char]) -> (r: (String, String))
    ensures
        (r.0@, r.1@) == cursor_cell_spec(from_cursor@),
{
    let (cell, tail) = cursor_cell_chars(from_cursor);
    (string_from_chars(cell.as_slice()), string_from_chars(tail.as_slice()))
}

/// The search prompt line for `prompt` and the input split at the cursor.
pub open spec fn search_input_spec(prompt: Seq<char>, before: Seq<char>, from_cursor: Seq<char>, width: nat) -> Seq<
    char,
> {
    let cell = cursor_cell_spec(from_cursor).0;
    let tail = cursor_cell_spec(from_cursor).1;
    let taken = sat(sat(text_width_of(cell)) + sat(text_width_of(tail)));
    if taken > width {
        clip_spec(cell + tail, width)
    } else {
        clip_spec(prompt + before, (width - taken) as nat) + reverse_on() + cell + reverse_off() + tail
    }
}

/// The search prompt line, e.g. `/query`, with the cell the cursor covers in
/// reverse video, clipped to `width` columns keeping the right side. When the
/// cursor and what follows it do not fit on their own, only they are shown,
/// clipped and unmarked.
pub fn search_input(prompt: &str, input: InputAtCursor, width: usize) -> (r: String)
    ensures
        r@ == search_input_spec(prompt@, input.before@, input.from_cursor@, width as nat),
{
    let (cell, tail) = cursor_cell_chars(input.from_cursor);
    let taken = text_width(cell.as_slice()).saturating_add(text_width(tail.as_slice()));
    if taken > width {
        let mut both = cell;
        push_all(&mut both, tail.as_slice());
        let clipped = clip_chars(both.as_slice(), width);
        return string_from_chars(clipped.as_slice());
    }
    let mut head = chars_of(prompt);
    push_all(&mut head, input.before);
    let mut out = clip_chars(head.as_slice(), width - taken);
    let on = reverse_on_chars();
    push_all(&mut out, on.as_slice());
    push_all(&mut out, cell.as_slice());
    let off = reverse_off_chars();
    push_all(&mut out, off.as_slice());
    push_all(&mut out, tail.as_slice());
    string_from_chars(out.as_slice())
}

/// The decimal digit for `d < 10`.
pub open spec fn digit(d: nat) -> char {
    if d == 0 {
        '0'
    } else if d == 1 {
        '1'
    } else if d == 2 {
        '2'
    } else if d == 3 {
        '3'
    } else if d == 4 {
        '4'
    } else if d == 5 {
        '5'
    } else if d == 6 {
        '6'
    } else if d == 7 {
        '7'
    } else if d == 8 {
        '8'
    } else {
        '9'
    }
}

/// Decimal representation of `n`.
pub open spec fn decimal(n: nat) -> Seq<char>
    decreases n,
{
    if n < 10 {
        seq![digit(n)]
    } else {
        decimal(n / 10).push(digit(n % 10))
    }
}

fn digit_char(d: u128) -> (c: char)
    requires
        d < 10,
    ensures
        c == digit(d as nat),
{
    if d == 0 {
        '0'
    } else if d == 1 {
        '1'
    } else if d == 2 {
        '2'
    } else if d == 3 {
        '3'
    } else if d == 4 {
        '4'
    } else if d == 5 {
        '5'
    } else if d == 6 {
        '6'
    } else if d == 7 {
        '7'
    } else if d == 8 {
        '8'
    } else {
        '9'
    }
}

/// Decimal representation of `n`.
pub fn decimal_chars(n: u128) -> (r: Vec<char>)
    ensures
        r@ == decimal(n as nat),
    decreases n,
{
    if n < 10 {
        let r = vec![digit_char(n)];
        assert(r@ =~= decimal(n as nat));
        r
    } else {
        let mut r = decimal_chars(n / 10);
        r.push(digit_char(n % 10));
        r
    }
}

/// The `less`-style position indicator, e.g. `src/pager.rs lines 1-31/1084 2%`.
pub open spec fn position_spec(
    rows: Seq<Row>,
    name: Option<Seq<char>>,
    complete: bool,
    error: bool,
    total: nat,
) -> Seq<char> {
    let top: nat = if rows.len() > 0 {
        (rows[0].line_index + 1) as nat
    } else {
        0
    };
    let bottom: nat = if rows.len() > 0 {
        (rows.last().line_index + 1) as nat
    } else {
        0
    };
    let prefix = match name {
        Some(n) => n.push(' '),
        None => Seq::empty(),
    };
    let range = prefix + seq!['l', 'i', 'n', 'e', 's', ' '] + decimal(top) + seq!['-'] + decimal(bottom)
        + seq!['/'] + decimal(total);
    if error {
        range + seq![' ', '[', 'r', 'e', 'a', 'd', ' ', 'e', 'r', 'r', 'o', 'r', ']']
    } else if complete {
        let percent: nat = if total == 0 {
            0
        } else {
            bottom * 100 / total
        };
        range + seq![' '] + decimal(percent) + seq!['%']
    } else {
        range + seq!['+']
    }
}

/// The position indicator for the viewport rows `rows`. The name is omitted
/// for sources without one. While input is still streaming the total is
/// shown as `<count>+` without a percentage; if the input ended with a read
/// error, `[read error]` is shown in place of the percentage.
pub fn position(rows: &[Row], doc: &Document) -> (r: Vec<char>)
    ensures
        r@ == position_spec(
            rows@,
            doc.spec_name(),
            doc.spec_complete(),
            doc.spec_stream_error() is Some,
            doc.spec_lines().len(),
        ),
{
    let (top, bottom): (u128, u128) = if rows.len() > 0 {
        (rows[0].line_index as u128 + 1, rows[rows.len() - 1].line_index as u128 + 1)
    } else {
        (0, 0)
    };
    let total = doc.line_count() as u128;
    let mut out: Vec<char> = Vec::new();
    match doc.name() {
        Some(n) => {
            let cs = chars_of(n.as_str());
            push_all(&mut out, cs.as_slice());
            out.push(' ');
        },
        None => {},
    }
    let word = vec!['l', 'i', 'n', 'e', 's', ' '];
    push_all(&mut out, word.as_slice());
    push_all(&mut out, decimal_chars(top).as_slice());
    out.push('-');
    push_all(&mut out, decimal_chars(bottom).as_slice());
    out.push('/');
    push_all(&mut out, decimal_chars(total).as_slice());
    if doc.stream_error().is_some() {
        let flag = vec![' ', '[', 'r', 'e', 'a', 'd', ' ', 'e', 'r', 'r', 'o', 'r', ']'];
        push_all(&mut out, flag.as_slice());
    } else if doc.is_complete() {
        let percent: u128 = if total == 0 {
            0
        } else {
            bottom * 100 / total
        };
        out.push(' ');
        push_all(&mut out, decimal_chars(percent).as_slice());
        out.push('%');
    } else {
        out.push('+');
    }
    proof {
        let spec = position_spec(
            rows@,
            doc.spec_name(),
            doc.spec_complete(),
            doc.spec_stream_error() is Some,
            doc.spec_lines().len(),
        );
        assert(out@ =~= spec);
    }
    out
}

/// The status line for `mode`: in view mode the position, clipped to the
/// width and in reverse video; while a query is typed, the prompt.
pub open spec fn build_spec(mode: PagerMode, rows: Seq<Row>, width: usize, doc: Document) -> Seq<char> {
    match mode {
        PagerMode::View => reverse_on() + clip_spec(
            position_spec(
                rows,
                doc.spec_name(),
                doc.spec_complete(),
                doc.spec_stream_error() is Some,
                doc.spec_lines().len(),
            ),
            width as nat,
        ) + reverse_off(),
        PagerMode::SearchInput(search) => search_input_spec(
            seq![search.direction.prompt_spec()],
            search.editor@.0.take(search.editor@.1 as int),
            search.editor@.0.skip(search.editor@.1 as int),
            width as nat,
        ),
    }
}

/// The status line for the current mode: the position indicator in reverse
/// video in view mode, the search prompt while a query is typed.
pub fn build(mode: &PagerMode, rows: &[Row], width: usize, doc: &Document) -> (r: String)
    ensures
        r@ == build_spec(*mode, rows@, width, *doc),
{
    match mode {
        PagerMode::View => {
            let pos = position(rows, doc);
            let mut out = reverse_on_chars();
            let clipped = clip_chars(pos.as_slice(), width);
            push_all(&mut out, clipped.as_slice());
            push_all(&mut out, reverse_off_chars().as_slice());
            string_from_chars(out.as_slice())
        },
        PagerMode::SearchInput(search) => {
            let input = search.editor.at_cursor();
            let prompt = string_from_chars(vec![search.direction.prompt()].as_slice());
            let r = search_input(prompt.as_str(), input, width);
            proof {
                assert(prompt@ =~= seq![search.direction.prompt_spec()]);
            }
            r
        },
    }
}

} // verus!
