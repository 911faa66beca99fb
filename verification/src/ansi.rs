//! Recognizes control characters and control sequences in terminal text.
//!
//! The grammar roughly follows ECMA-48:
//! - any C0 character (`0x00..=0x1f`) other than ESC is a control of its own;
//! - ESC followed by a C1 final (`0x40..=0x5f`) starts a control function:
//!   `[` opens a control sequence (CSI) made of parameter and intermediate
//!   bytes (`0x20..=0x3f`) and one final character; `P`, `X`, `]`, `^` and `_`
//!   open a control string that runs up to the string terminator `ESC \`;
//! - ESC followed by anything else is a two-character control.
//!
//! Text is split into maximal runs of plain characters and single controls.

use vstd::prelude::*;

use crate::text::{chars_of, string_from_chars, sub_chars};

verus! {

/// The escape character.
pub const ESC: char = '\u{1b}';

/// Whether `c` is a C0 control character.
pub open spec fn is_c0(c: char) -> bool {
    (c as u32) <= 0x1f
}

/// Parameter (`0x30..=0x3f`) or intermediate (`0x20..=0x2f`) byte of a CSI sequence.
pub open spec fn is_csi_body(c: char) -> bool {
    0x20 <= (c as u32) && (c as u32) <= 0x3f
}

/// Opening delimiter of a control string (DCS, SOS, OSC, PM, APC).
pub open spec fn opens_control_string(c: char) -> bool {
    c == 'P' || c == 'X' || c == ']' || c == '^' || c == '_'
}

/// Characters taken by the body of a CSI sequence starting at `j`: the
/// parameter and intermediate bytes, then one final character if any is left.
pub open spec fn csi_len(s: Seq<char>, j: int) -> nat
    decreases s.len() - j,
{
    if j < 0 || j >= s.len() {
        0
    } else if is_csi_body(s[j]) {
        1 + csi_len(s, j + 1)
    } else {
        1
    }
}

/// Characters taken by the body of a control string starting at `j`, up to
/// and including the string terminator `ESC \`, or to the end of the text.
/// `after_esc` tells whether the character before `j` was an ESC of the body.
pub open spec fn string_len(s: Seq<char>, j: int, after_esc: bool) -> nat
    decreases s.len() - j,
{
    if j < 0 || j >= s.len() {
        0
    } else if after_esc && s[j] == '\\' {
        1
    } else {
        1 + string_len(s, j + 1, s[j] == ESC)
    }
}

/// Length, in characters, of the control that starts at index `i` of `s`,
/// where `s[i]` is a C0 character.
pub open spec fn control_len(s: Seq<char>, i: int) -> nat {
    if s[i] != ESC || i + 1 >= s.len() {
        1
    } else {
        let c = s[i + 1];
        if 0x40 <= (c as u32) && (c as u32) <= 0x5f {
            if c == '[' {
                2 + csi_len(s, i + 2)
            } else if opens_control_string(c) {
                2 + string_len(s, i + 2, false)
            } else {
                2
            }
        } else {
            2
        }
    }
}

/// A run of characters `start..end` of a text, either one control or plain text.
#[derive(Debug, Clone, Copy, PartialEq, Eq)]
pub struct Segment {
    pub control: bool,
    pub start: usize,
    pub end: usize,
}

/// `seg` is a well-formed piece of `s`: a whole control, or a maximal non-empty
/// run of plain characters.
pub open spec fn segment_ok(s: Seq<char>, seg: Segment) -> bool {
    &&& seg.start < seg.end <= s.len()
    &&& if seg.control {
        is_c0(s[seg.start as int]) && seg.end == seg.start + control_len(s, seg.start as int)
    } else {
        &&& forall|k: int| seg.start <= k < seg.end ==> !is_c0(#[trigger] s[k])
        &&& (seg.end == s.len() || is_c0(s[seg.end as int]))
    }
}

/// `segs` split `s`, in order and without gaps, into well-formed pieces.
pub open spec fn segments_valid(s: Seq<char>, segs: Seq<Segment>) -> bool {
    &&& segs.len() == 0 ==> s.len() == 0
    &&& segs.len() > 0 ==> segs[0].start == 0 && segs.last().end == s.len()
    &&& forall|k: int| 0 <= k < segs.len() ==> segment_ok(s, #[trigger] segs[k])
    &&& forall|k: int|
        0 <= k < segs.len() - 1 ==> (#[trigger] segs[k]).end == segs[k + 1].start
}

/// The characters a segment covers.
pub open spec fn segment_chars(s: Seq<char>, seg: Segment) -> Seq<char> {
    s.subrange(seg.start as int, seg.end as int)
}

/// Concatenation of the characters of `segs`.
pub open spec fn join_segments(s: Seq<char>, segs: Seq<Segment>) -> Seq<char>
    decreases segs.len(),
{
    if segs.len() == 0 {
        Seq::empty()
    } else {
        join_segments(s, segs.drop_last()) + segment_chars(s, segs.last())
    }
}

proof fn lemma_csi_len_bound(s: Seq<char>, j: int)
    requires
        0 <= j,
    ensures
        j <= s.len() ==> j + csi_len(s, j) <= s.len(),
    decreases s.len() - j,
{
    if j < s.len() {
        lemma_csi_len_bound(s, j + 1);
    }
}

proof fn lemma_string_len_bound(s: Seq<char>, j: int, after_esc: bool)
    requires
        0 <= j,
    ensures
        j <= s.len() ==> j + string_len(s, j, after_esc) <= s.len(),
    decreases s.len() - j,
{
    if j < s.len() {
        lemma_string_len_bound(s, j + 1, s[j] == ESC);
    }
}

/// A control never runs past the end of the text.
pub proof fn lemma_control_len_bound(s: Seq<char>, i: int)
    requires
        0 <= i < s.len(),
    ensures
        1 <= control_len(s, i),
        i + control_len(s, i) <= s.len(),
{
    lemma_csi_len_bound(s, i + 2);
    lemma_string_len_bound(s, i + 2, false);
}

/// Two well-formed segments that start at the same place are the same.
pub proof fn lemma_segment_determined(s: Seq<char>, x: Segment, y: Segment)
    requires
        segment_ok(s, x),
        segment_ok(s, y),
        x.start == y.start,
    ensures
        x == y,
{
    if !x.control && !y.control {
        if x.end < y.end {
            assert(!is_c0(s[x.end as int]));
        } else if y.end < x.end {
            assert(!is_c0(s[y.end as int]));
        }
    } else if x.control && !y.control {
        assert(!is_c0(s[y.start as int]));
    } else if !x.control && y.control {
        assert(!is_c0(s[x.start as int]));
    }
}

/// The split of a text into segments is unique.
pub proof fn lemma_segments_unique(s: Seq<char>, a: Seq<Segment>, b: Seq<Segment>)
    requires
        segments_valid(s, a),
        segments_valid(s, b),
    ensures
        a == b,
{
    let n = if a.len() < b.len() { a.len() } else { b.len() };
    assert forall|k: int| 0 <= k < n implies a[k] == b[k] by {
        lemma_prefix_equal(s, a, b, k);
    }
    if a.len() < b.len() {
        let m = a.len() as int;
        assert(a[m - 1] == b[m - 1]);
        assert(segment_ok(s, b[m]));
    } else if b.len() < a.len() {
        let m = b.len() as int;
        assert(a[m - 1] == b[m - 1]);
        assert(segment_ok(s, a[m]));
    }
    assert(a =~= b);
}

proof fn lemma_prefix_equal(s: Seq<char>, a: Seq<Segment>, b: Seq<Segment>, k: int)
    requires
        segments_valid(s, a),
        segments_valid(s, b),
        0 <= k < a.len(),
        k < b.len(),
    ensures
        a[k] == b[k],
    decreases k,
{
    if k > 0 {
        lemma_prefix_equal(s, a, b, k - 1);
        assert(a[k - 1].end == a[k].start);
        assert(b[k - 1].end == b[k].start);
    }
    lemma_segment_determined(s, a[k], b[k]);
}

/// Joining the segments of a valid split gives back the text.
pub proof fn law_segments_join_back_into_the_text(s: Seq<char>, segs: Seq<Segment>)
    requires
        segments_valid(s, segs),
    ensures
        join_segments(s, segs) == s,
{
    lemma_join_prefix(s, segs, segs.len() as int);
    if segs.len() == 0 {
        assert(s =~= Seq::<char>::empty());
    } else {
        assert(segs.take(segs.len() as int) =~= segs);
        assert(s.take(s.len() as int) =~= s);
    }
}

proof fn lemma_join_prefix(s: Seq<char>, segs: Seq<Segment>, n: int)
    requires
        segments_valid(s, segs),
        0 <= n <= segs.len(),
    ensures
        n > 0 ==> join_segments(s, segs.take(n)) == s.take(segs[n - 1].end as int),
        n == 0 ==> join_segments(s, segs.take(n)) == Seq::<char>::empty(),
    decreases n,
{
    if n > 0 {
        lemma_join_prefix(s, segs, n - 1);
        assert(segs.take(n).drop_last() =~= segs.take(n - 1));
        assert(segment_ok(s, segs[n - 1]));
        if n == 1 {
            assert(s.take(segs[0].end as int) =~= Seq::<char>::empty() + s.subrange(
                0,
                segs[0].end as int,
            ));
        } else {
            assert(segs[n - 2].end == segs[n - 1].start);
            assert(s.take(segs[n - 1].end as int) =~= s.take(segs[n - 2].end as int) + s.subrange(
                segs[n - 1].start as int,
                segs[n - 1].end as int,
            ));
        }
    }
}

fn consume_csi_sequence(s: &Vec<char>, j: usize) -> (n: usize)
    requires
        j <= s.len(),
    ensures
        n == csi_len(s@, j as int),
{
    let mut k = j;
    while k < s.len()
        invariant
            j <= k <= s.len(),
            (k - j) + csi_len(s@, k as int) == csi_len(s@, j as int),
            forall|m: int| j <= m < k ==> is_csi_body(#[trigger] s@[m]),
        decreases s.len() - k,
    {
        let v: u32 = s[k] as u32;
        if !(0x20 <= v && v <= 0x3f) {
            return k - j + 1;
        }
        k += 1;
    }
    k - j
}

fn consume_control_string(s: &Vec<char>, j: usize) -> (n: usize)
    requires
        j <= s.len(),
    ensures
        n == string_len(s@, j as int, false),
{
    let mut k = j;
    let mut after_esc = false;
    while k < s.len()
        invariant
            j <= k <= s.len(),
            (k - j) + string_len(s@, k as int, after_esc) == string_len(s@, j as int, false),
        decreases s.len() - k,
    {
        let c = s[k];
        if after_esc && c == '\\' {
            return k - j + 1;
        }
        after_esc = c == ESC;
        k += 1;
    }
    k - j
}

/// Length of the control starting at `i`, where `s[i]` is a C0 character.
fn control_length(s: &Vec<char>, i: usize) -> (n: usize)
    requires
        i < s.len(),
        is_c0(s@[i as int]),
    ensures
        n == control_len(s@, i as int),
        1 <= n,
        i + n <= s.len(),
{
    proof {
        lemma_control_len_bound(s@, i as int);
    }
    if s[i] != ESC || i + 1 >= s.len() {
        return 1;
    }
    let c = s[i + 1];
    let v: u32 = c as u32;
    if 0x40 <= v && v <= 0x5f {
        if c == '[' {
            2 + consume_csi_sequence(s, i + 2)
        } else if c == 'P' || c == 'X' || c == ']' || c == '^' || c == '_' {
            2 + consume_control_string(s, i + 2)
        } else {
            2
        }
    } else {
        2
    }
}

/// The first control at or after `from`, as `(start, end)` character indices.
pub fn find_next_control_range(s: &Vec<char>, from: usize) -> (r: Option<(usize, usize)>)
    requires
        from <= s.len(),
    ensures
        match r {
            Some((a, b)) => {
                &&& from <= a < b <= s.len()
                &&& is_c0(s@[a as int])
                &&& b == a + control_len(s@, a as int)
                &&& forall|k: int| from <= k < a ==> !is_c0(#[trigger] s@[k])
            },
            None => forall|k: int| from <= k < s.len() ==> !is_c0(#[trigger] s@[k]),
        },
{
    let mut i = from;
    while i < s.len()
        invariant
            from <= i <= s.len(),
            forall|k: int| from <= k < i ==> !is_c0(#[trigger] s@[k]),
        decreases s.len() - i,
    {
        let v: u32 = s[i] as u32;
        if v <= 0x1f {
            let n = control_length(s, i);
            return Some((i, i + n));
        }
        i += 1;
    }
    None
}

/// Split `s` into controls and maximal runs of plain characters.
pub fn parse_segments(s: &Vec<char>) -> (segs: Vec<Segment>)
    ensures
        segments_valid(s@, segs@),
{
    let mut segs: Vec<Segment> = Vec::new();
    let mut cur: usize = 0;
    while cur < s.len()
        invariant
            cur <= s.len(),
            segs@.len() == 0 ==> cur == 0,
            segs@.len() > 0 ==> segs@[0].start == 0 && segs@.last().end == cur,
            forall|k: int| 0 <= k < segs@.len() ==> segment_ok(s@, #[trigger] segs@[k]),
            forall|k: int|
                0 <= k < segs@.len() - 1 ==> (#[trigger] segs@[k]).end == segs@[k + 1].start,
        decreases s.len() - cur,
    {
        match find_next_control_range(s, cur) {
            Some((a, b)) => {
                if a > cur {
                    let plain = Segment { control: false, start: cur, end: a };
                    assert(segment_ok(s@, plain));
                    segs.push(plain);
                }
                let control = Segment { control: true, start: a, end: b };
                segs.push(control);
                cur = b;
            },
            None => {
                let plain = Segment { control: false, start: cur, end: s.len() };
                assert(segment_ok(s@, plain));
                segs.push(plain);
                cur = s.len();
            },
        }
    }
    segs
}

/// A piece of terminal text: one control, or a run of plain characters.
#[derive(Debug, Clone, PartialEq, Eq)]
pub enum Text {
    Control(String),
    Plain(String),
}

/// Whether a piece is a control, and its characters.
pub open spec fn text_view(t: Text) -> (bool, Seq<char>) {
    match t {
        Text::Control(s) => (true, s@),
        Text::Plain(s) => (false, s@),
    }
}

/// `texts` are the pieces that `segs` cut out of `s`.
pub open spec fn texts_match(s: Seq<char>, segs: Seq<Segment>, texts: Seq<Text>) -> bool {
    &&& texts.len() == segs.len()
    &&& forall|k: int|
        0 <= k < segs.len() ==> text_view(#[trigger] texts[k]) == (
            segs[k].control,
            segment_chars(s, segs[k]),
        )
}

/// Split `text` into controls and maximal runs of plain characters, in order.
pub fn parse_text(text: &str) -> (r: Vec<Text>)
    ensures
        exists|segs: Seq<Segment>| segments_valid(text@, segs) && texts_match(text@, segs, r@),
{
    let s = chars_of(text);
    let segs = parse_segments(&s);
    let mut out: Vec<Text> = Vec::new();
    let mut i: usize = 0;
    while i < segs.len()
        invariant
            i <= segs.len(),
            s@ == text@,
            segments_valid(s@, segs@),
            out@.len() == i,
            forall|k: int|
                0 <= k < i ==> text_view(#[trigger] out@[k]) == (
                    segs@[k].control,
                    segment_chars(s@, segs@[k]),
                ),
        decreases segs.len() - i,
    {
        let seg = segs[i];
        assert(segment_ok(s@, segs@[i as int]));
        let piece = sub_chars(&s, seg.start, seg.end);
        let content = string_from_chars(piece.as_slice());
        if seg.control {
            out.push(Text::Control(content));
        } else {
            out.push(Text::Plain(content));
        }
        i += 1;
    }
    assert(texts_match(text@, segs@, out@));
    out
}

} // verus!
