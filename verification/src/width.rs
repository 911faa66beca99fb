//! Display width of characters, as the `unicode-width` crate computes it.

use vstd::prelude::*;

verus! {

/// What `unicode_width::UnicodeWidthChar::width` returns for `c`.
pub uninterp spec fn unicode_char_width(c: char) -> Option<usize>;

/// Columns a character takes on screen; control characters take none.
pub open spec fn width_of(c: char) -> nat {
    match unicode_char_width(c) {
        Some(w) => w as nat,
        None => 0,
    }
}

/// Calls `unicode_width::UnicodeWidthChar::width`. Claims the result is
/// `unicode_char_width(c)`, and the facts the crate's source shows for ASCII:
/// printable ASCII is one column wide, C0 and C1 controls have no width, and a
/// width comes from a byte-sized table entry.
#[verifier::external_body]
fn unicode_width_of(c: char) -> (r: Option<usize>)
    ensures
        r == unicode_char_width(c),
        0x20 <= (c as u32) && (c as u32) < 0x7f ==> r == Some(1usize),
        (c as u32) < 0x20 || (0x7f <= (c as u32) && (c as u32) < 0xa0) ==> r is None,
        r matches Some(w) ==> w <= 255,
{
    unicode_width::UnicodeWidthChar::width(c)
}

/// Columns `c` takes on screen, treating control characters as zero-width.
pub fn char_width(c: char) -> (w: usize)
    ensures
        w == width_of(c),
        w <= 255,
        0x20 <= (c as u32) && (c as u32) < 0x7f ==> w == 1,
{
    match unicode_width_of(c) {
        Some(w) => w,
        None => 0,
    }
}

/// Total columns of a character sequence.
pub open spec fn text_width_of(s: Seq<char>) -> nat
    decreases s.len(),
{
    if s.len() == 0 {
        0
    } else {
        text_width_of(s.drop_last()) + width_of(s.last())
    }
}

/// Widths add up over concatenation.
pub proof fn lemma_text_width_concat(a: Seq<char>, b: Seq<char>)
    ensures
        text_width_of(a + b) == text_width_of(a) + text_width_of(b),
    decreases b.len(),
{
    if b.len() == 0 {
        assert(a + b =~= a);
    } else {
        lemma_text_width_concat(a, b.drop_last());
        assert((a + b).drop_last() =~= a + b.drop_last());
    }
}

} // verus!
