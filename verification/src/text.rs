//! Character-level text helpers shared by the parser, the line model and the
//! renderers: UTF-8 byte lengths of characters and conversions between `String`
//! and character vectors.

use vstd::prelude::*;

verus! {

/// Number of bytes the UTF-8 encoding of `c` takes.
pub open spec fn utf8_len(c: char) -> nat {
    if (c as u32) < 0x80 {
        1
    } else if (c as u32) < 0x800 {
        2
    } else if (c as u32) < 0x10000 {
        3
    } else {
        4
    }
}

/// Number of bytes the UTF-8 encoding of `s` takes.
pub open spec fn bytes_len(s: Seq<char>) -> nat
    decreases s.len(),
{
    if s.len() == 0 {
        0
    } else {
        bytes_len(s.drop_last()) + utf8_len(s.last())
    }
}

/// Byte offset of the character at index `k` of `s`.
pub open spec fn byte_offset(s: Seq<char>, k: int) -> nat {
    bytes_len(s.take(k))
}

/// The byte length of a sequence grows by the length of each appended character.
pub proof fn lemma_bytes_len_push(s: Seq<char>, c: char)
    ensures
        bytes_len(s.push(c)) == bytes_len(s) + utf8_len(c),
{
    assert(s.push(c).drop_last() =~= s);
}

/// The UTF-8 encoding of `c`.
pub open spec fn utf8_encode(c: char) -> Seq<u8> {
    let v = c as u32;
    if v < 0x80 {
        seq![v as u8]
    } else if v < 0x800 {
        seq![(0xC0 | (v >> 6)) as u8, (0x80 | (v & 0x3F)) as u8]
    } else if v < 0x10000 {
        seq![(0xE0 | (v >> 12)) as u8, (0x80 | ((v >> 6) & 0x3F)) as u8, (0x80 | (v & 0x3F)) as u8]
    } else {
        seq![
            (0xF0 | (v >> 18)) as u8,
            (0x80 | ((v >> 12) & 0x3F)) as u8,
            (0x80 | ((v >> 6) & 0x3F)) as u8,
            (0x80 | (v & 0x3F)) as u8,
        ]
    }
}

/// The UTF-8 bytes of `s`, as `str::as_bytes` gives them.
pub open spec fn utf8_bytes(s: Seq<char>) -> Seq<u8>
    decreases s.len(),
{
    if s.len() == 0 {
        Seq::empty()
    } else {
        utf8_bytes(s.drop_last()) + utf8_encode(s.last())
    }
}

/// The bytes of `s` number its byte length.
pub proof fn lemma_utf8_bytes_len(s: Seq<char>)
    ensures
        utf8_bytes(s).len() == bytes_len(s),
    decreases s.len(),
{
    if s.len() > 0 {
        lemma_utf8_bytes_len(s.drop_last());
    }
}

/// The bytes of a concatenation are the bytes of its parts.
pub proof fn lemma_utf8_bytes_concat(a: Seq<char>, b: Seq<char>)
    ensures
        utf8_bytes(a + b) == utf8_bytes(a) + utf8_bytes(b),
    decreases b.len(),
{
    if b.len() == 0 {
        assert(a + b =~= a);
        assert(utf8_bytes(a) + utf8_bytes(b) =~= utf8_bytes(a));
    } else {
        lemma_utf8_bytes_concat(a, b.drop_last());
        assert((a + b).drop_last() =~= a + b.drop_last());
        assert((a + b).last() == b.last());
        assert(utf8_bytes(a + b) =~= utf8_bytes(a) + utf8_bytes(b));
    }
}

/// Byte lengths add up over concatenation.
pub proof fn lemma_bytes_len_concat(a: Seq<char>, b: Seq<char>)
    ensures
        bytes_len(a + b) == bytes_len(a) + bytes_len(b),
    decreases b.len(),
{
    if b.len() == 0 {
        assert(a + b =~= a);
    } else {
        lemma_bytes_len_concat(a, b.drop_last());
        assert((a + b).drop_last() =~= a + b.drop_last());
    }
}

/// Byte offsets are monotonic in the character index, and each character
/// adds its own length.
pub proof fn lemma_byte_offset_step(s: Seq<char>, k: int)
    requires
        0 <= k < s.len(),
    ensures
        byte_offset(s, k + 1) == byte_offset(s, k) + utf8_len(s[k]),
{
    assert(s.take(k + 1).drop_last() =~= s.take(k));
}

/// Byte offsets never decrease as the character index grows.
pub proof fn lemma_byte_offset_mono(s: Seq<char>, i: int, j: int)
    requires
        0 <= i <= j <= s.len(),
    ensures
        byte_offset(s, i) <= byte_offset(s, j),
        i < j ==> byte_offset(s, i) < byte_offset(s, j),
    decreases j - i,
{
    if i < j {
        lemma_byte_offset_step(s, j - 1);
        lemma_byte_offset_mono(s, i, j - 1);
    }
}

/// The byte offset of the whole sequence is its byte length.
pub proof fn lemma_byte_offset_full(s: Seq<char>)
    ensures
        byte_offset(s, s.len() as int) == bytes_len(s),
{
    assert(s.take(s.len() as int) =~= s);
}

/// UTF-8 length of a character, as `char::len_utf8` computes it.
pub fn char_len_utf8(c: char) -> (n: usize)
    ensures
        n == utf8_len(c),
        1 <= n <= 4,
{
    let v: u32 = c as u32;
    if v < 0x80 {
        1
    } else if v < 0x800 {
        2
    } else if v < 0x10000 {
        3
    } else {
        4
    }
}

/// The characters of `s`, in order.
pub fn chars_of(s: &str) -> (v: Vec<char>)
    ensures
        v@ == s@,
{
    let mut v: Vec<char> = Vec::new();
    for c in it: s.chars()
        invariant
            it.seq() == s@,
            v@ == s@.take(it.index() as int),
    {
        v.push(c);
        proof {
            assert(s@.take(it.index() + 1) =~= v@);
        }
    }
    proof {
        assert(v@.len() == s@.len());
        assert(s@.take(s@.len() as int) =~= s@);
    }
    v
}

/// The string made of the characters of `v`, in order.
#[verifier::external_body]
pub fn string_from_chars(v: &[char]) -> (s: String)
    ensures
        s@ == v@,
{
    String::from_iter(v)
}

/// A copy of `v[start..end]`.
pub fn sub_chars(v: &Vec<char>, start: usize, end: usize) -> (r: Vec<char>)
    requires
        start <= end <= v.len(),
    ensures
        r@ == v@.subrange(start as int, end as int),
{
    let mut r: Vec<char> = Vec::new();
    let mut i = start;
    while i < end
        invariant
            start <= i <= end <= v.len(),
            r@ == v@.subrange(start as int, i as int),
        decreases end - i,
    {
        r.push(v[i]);
        i += 1;
        proof {
            assert(r@ =~= v@.subrange(start as int, i as int));
        }
    }
    r
}

/// Append all characters of `src` to `dst`.
pub fn push_all(dst: &mut Vec<char>, src: &[char])
    ensures
        final(dst)@ == old(dst)@ + src@,
{
    let mut i: usize = 0;
    while i < src.len()
        invariant
            i <= src.len(),
            dst@ == old(dst)@ + src@.take(i as int),
        decreases src.len() - i,
    {
        dst.push(src[i]);
        i += 1;
        proof {
            assert(dst@ =~= old(dst)@ + src@.take(i as int));
        }
    }
    proof {
        assert(src@.take(i as int) =~= src@);
    }
}

/// Byte length of a character vector.
pub fn byte_len_of(v: &[char]) -> (n: usize)
    requires
        bytes_len(v@) <= usize::MAX,
    ensures
        n == bytes_len(v@),
{
    let mut n: usize = 0;
    let mut i: usize = 0;
    while i < v.len()
        invariant
            i <= v.len(),
            n == byte_offset(v@, i as int),
            bytes_len(v@) <= usize::MAX,
        decreases v.len() - i,
    {
        proof {
            lemma_byte_offset_step(v@, i as int);
            lemma_byte_offset_mono(v@, i + 1, v@.len() as int);
            lemma_byte_offset_full(v@);
        }
        n = n + char_len_utf8(v[i]);
        i += 1;
    }
    proof {
        lemma_byte_offset_full(v@);
    }
    n
}

/// Number of leading characters of `s` whose encoding starts before byte `b`.
pub open spec fn chars_before(s: Seq<char>, b: int) -> nat
    decreases s.len(),
{
    if s.len() == 0 || b <= 0 {
        0
    } else {
        1 + chars_before(s.drop_first(), b - utf8_len(s[0]))
    }
}

/// The characters of `s` whose encoding starts in the byte range `a..b`.
/// When `a` and `b` fall on character boundaries this is the text `&s[a..b]`
/// (see [`lemma_chars_before_offset`]).
pub open spec fn byte_slice(s: Seq<char>, a: int, b: int) -> Seq<char> {
    if a <= b {
        s.subrange(chars_before(s, a) as int, chars_before(s, b) as int)
    } else {
        Seq::empty()
    }
}

/// `chars_before` counts at most all characters and grows with the offset.
pub proof fn lemma_chars_before_mono(s: Seq<char>, a: int, b: int)
    requires
        a <= b,
    ensures
        chars_before(s, a) <= chars_before(s, b) <= s.len(),
    decreases s.len(),
{
    if s.len() > 0 {
        let n = utf8_len(s[0]) as int;
        lemma_chars_before_mono(s.drop_first(), a - n, b - n);
    }
}

/// At the byte offset of character `k`, exactly `k` characters start before it.
pub proof fn lemma_chars_before_offset(s: Seq<char>, k: int)
    requires
        0 <= k <= s.len(),
    ensures
        chars_before(s, byte_offset(s, k) as int) == k,
    decreases k,
{
    if k > 0 {
        let t = s.drop_first();
        lemma_chars_before_offset(t, k - 1);
        assert(s.take(k) =~= seq![s[0]] + t.take(k - 1));
        lemma_bytes_len_concat(seq![s[0]], t.take(k - 1));
        lemma_bytes_len_push(Seq::<char>::empty(), s[0]);
        assert(Seq::<char>::empty().push(s[0]) =~= seq![s[0]]);
    }
}

/// Index of the first character of `s` whose encoding starts at or after byte `b`.
pub fn char_index_at_byte(s: &[char], b: usize) -> (k: usize)
    ensures
        k == chars_before(s@, b as int),
{
    let mut k: usize = 0;
    let mut rem: usize = b;
    proof {
        assert(s@.skip(0) =~= s@);
    }
    while k < s.len() && rem > 0
        invariant
            k <= s@.len(),
            k + chars_before(s@.skip(k as int), rem as int) == chars_before(s@, b as int),
        decreases s@.len() - k,
    {
        let n = char_len_utf8(s[k]);
        proof {
            assert(s@.skip(k as int).drop_first() =~= s@.skip(k + 1));
            assert(s@.skip(k as int)[0] == s@[k as int]);
            if rem <= n {
                assert(chars_before(s@.skip(k + 1), rem - n) == 0);
                assert(chars_before(s@.skip(k + 1), 0) == 0);
            }
        }
        rem = if rem > n {
            rem - n
        } else {
            0
        };
        k = k + 1;
    }
    k
}

/// Append to `dst` the characters of `s` whose encoding starts in the byte
/// range `a..b`.
pub fn push_byte_slice(dst: &mut Vec<char>, s: &[char], a: usize, b: usize)
    ensures
        final(dst)@ == old(dst)@ + byte_slice(s@, a as int, b as int),
{
    if a > b {
        proof {
            assert(old(dst)@ + byte_slice(s@, a as int, b as int) =~= old(dst)@);
        }
        return;
    }
    let ka = char_index_at_byte(s, a);
    let kb = char_index_at_byte(s, b);
    proof {
        lemma_chars_before_mono(s@, a as int, b as int);
    }
    push_all(dst, vstd::slice::slice_subrange(s, ka, kb));
}

} // verus!
