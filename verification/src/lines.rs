//! A raw line split by an ANSI control function parser into its plain text
//! and, for each byte of the plain text, its byte offset in the raw line.

use ansi_control_codes::parser::{Token, TokenStream};
use vstd::prelude::*;

use crate::line::byte_run;
use crate::text::{byte_len_of, bytes_len, chars_of, lemma_bytes_len_concat, push_all, string_from_chars};

verus! {

/// A part of a raw line: text without control functions, or one control
/// function as it is written in the line.
#[derive(Debug)]
pub enum AnsiToken {
    Text(String),
    Control(String),
}

/// A token as a flag (`true` for a control function) and its characters.
pub open spec fn token_view(t: AnsiToken) -> (bool, Seq<char>) {
    match t {
        AnsiToken::Text(s) => (false, s@),
        AnsiToken::Control(s) => (true, s@),
    }
}

pub open spec fn tokens_view(ts: Seq<AnsiToken>) -> Seq<(bool, Seq<char>)> {
    ts.map_values(|t: AnsiToken| token_view(t))
}

/// The tokens that `ansi_control_codes::parser::TokenStream` yields for a
/// line, each as a flag and its characters.
pub uninterp spec fn ansi_token_stream(raw: Seq<char>) -> Seq<(bool, Seq<char>)>;

/// All the characters of the tokens, in order.
pub open spec fn joined(ts: Seq<(bool, Seq<char>)>) -> Seq<char>
    decreases ts.len(),
{
    if ts.len() == 0 {
        Seq::empty()
    } else {
        joined(ts.drop_last()) + ts.last().1
    }
}

/// The characters of the text tokens, in order.
pub open spec fn plain_of(ts: Seq<(bool, Seq<char>)>) -> Seq<char>
    decreases ts.len(),
{
    if ts.len() == 0 {
        Seq::empty()
    } else if ts.last().0 {
        plain_of(ts.drop_last())
    } else {
        plain_of(ts.drop_last()) + ts.last().1
    }
}

/// For each byte of the text tokens, its byte offset in the line that the
/// tokens make up.
pub open spec fn raw_map(ts: Seq<(bool, Seq<char>)>) -> Seq<usize>
    decreases ts.len(),
{
    if ts.len() == 0 {
        Seq::empty()
    } else if ts.last().0 {
        raw_map(ts.drop_last())
    } else {
        let start = bytes_len(joined(ts.drop_last()));
        raw_map(ts.drop_last()) + byte_run(start, start + bytes_len(ts.last().1))
    }
}

/// Splits `raw` with `ansi_control_codes::parser::TokenStream`, writing each
/// control function back as a string with `String::from`. Claims that the
/// tokens are those the parser yields, and that they make up `raw` in order:
/// the parser hands out the parts of the line between control functions as
/// they stand, and a control function written back is the text it was parsed
/// from.
#[verifier::external_body]
fn ansi_tokens(raw: &str) -> (r: Vec<AnsiToken>)
    ensures
        tokens_view(r@) == ansi_token_stream(raw@),
        joined(tokens_view(r@)) == raw@,
{
    let mut out = Vec::new();
    for token in TokenStream::from(raw) {
        out.push(
            match token {
                Token::ControlFunction(c) => AnsiToken::Control(String::from(c)),
                Token::String(s) => AnsiToken::Text(s.to_string()),
            },
        );
    }
    out
}

/// The tokens `ts` then one more: how the three sequences grow.
proof fn lemma_push(ts: Seq<(bool, Seq<char>)>, k: int)
    requires
        0 <= k < ts.len(),
    ensures
        ts.take(k + 1).drop_last() == ts.take(k),
        ts.take(k + 1).last() == ts[k],
        joined(ts.take(k + 1)) == joined(ts.take(k)) + ts[k].1,
{
    assert(ts.take(k + 1).drop_last() =~= ts.take(k));
}

/// The characters of the first tokens are a prefix of all of them.
proof fn lemma_joined_prefix(ts: Seq<(bool, Seq<char>)>, k: int)
    requires
        0 <= k <= ts.len(),
    ensures
        bytes_len(joined(ts.take(k))) <= bytes_len(joined(ts)),
    decreases ts.len() - k,
{
    if k < ts.len() {
        lemma_push(ts, k);
        lemma_bytes_len_concat(joined(ts.take(k)), ts[k].1);
        lemma_joined_prefix(ts, k + 1);
    } else {
        assert(ts.take(k) =~= ts);
    }
}

/// A line with its escape sequences, the same text without them, and the
/// raw byte offset of each byte of the plain text.
pub struct Line {
    /// The line as it was read, escape sequences included.
    pub raw: String,
    /// The line without escape sequences.
    pub plain: String,
    /// For each byte of `plain`, the byte offset in `raw` it was copied from.
    pub plain_to_raw: Vec<usize>,
}

impl Line {
    /// Split `raw_line` into its plain text and the map from plain bytes to
    /// raw bytes, by the tokens of the control function parser.
    pub fn new(raw_line: String) -> (line: Line)
        requires
            bytes_len(raw_line@) <= usize::MAX,
        ensures
            line.raw@ == raw_line@,
            line.plain@ == plain_of(ansi_token_stream(raw_line@)),
            line.plain_to_raw@ == raw_map(ansi_token_stream(raw_line@)),
    {
        let tokens = ansi_tokens(raw_line.as_str());
        Line::from_tokens(raw_line, &tokens)
    }

    /// The line `raw_line` made of `tokens`: the plain text is the text
    /// tokens, and each of its bytes maps to its offset among all tokens.
    pub fn from_tokens(raw_line: String, tokens: &Vec<AnsiToken>) -> (line: Line)
        requires
            bytes_len(joined(tokens_view(tokens@))) <= usize::MAX,
        ensures
            line.raw@ == raw_line@,
            line.plain@ == plain_of(tokens_view(tokens@)),
            line.plain_to_raw@ == raw_map(tokens_view(tokens@)),
    {
        let ghost ts = tokens_view(tokens@);
        let mut plain: Vec<char> = Vec::new();
        let mut plain_to_raw: Vec<usize> = Vec::new();
        let mut i_raw: usize = 0;
        let mut k: usize = 0;
        proof {
            assert(ts.take(0) =~= Seq::<(bool, Seq<char>)>::empty());
        }
        while k < tokens.len()
            invariant
                ts == tokens_view(tokens@),
                bytes_len(joined(ts)) <= usize::MAX,
                k <= tokens@.len(),
                i_raw == bytes_len(joined(ts.take(k as int))),
                plain@ == plain_of(ts.take(k as int)),
                plain_to_raw@ == raw_map(ts.take(k as int)),
            decreases tokens@.len() - k,
        {
            proof {
                lemma_push(ts, k as int);
                lemma_bytes_len_concat(joined(ts.take(k as int)), ts[k as int].1);
                lemma_joined_prefix(ts, k + 1);
            }
            match &tokens[k] {
                AnsiToken::Control(s) => {
                    let cs = chars_of(s.as_str());
                    let n = byte_len_of(cs.as_slice());
                    i_raw = i_raw + n;
                },
                AnsiToken::Text(s) => {
                    let cs = chars_of(s.as_str());
                    push_all(&mut plain, cs.as_slice());
                    let n = byte_len_of(cs.as_slice());
                    let start = i_raw;
                    let ghost before = plain_to_raw@;
                    let mut b: usize = 0;
                    while b < n
                        invariant
                            b <= n,
                            start + n <= usize::MAX,
                            i_raw == start + b,
                            plain_to_raw@ == before + byte_run(start as nat, (start + b) as nat),
                        decreases n - b,
                    {
                        plain_to_raw.push(i_raw);
                        i_raw = i_raw + 1;
                        b = b + 1;
                        proof {
                            assert(plain_to_raw@ =~= before + byte_run(start as nat, (start + b) as nat));
                        }
                    }
                },
            }
            k = k + 1;
        }
        proof {
            assert(ts.take(k as int) =~= ts);
        }
        Line { raw: raw_line, plain: string_from_chars(plain.as_slice()), plain_to_raw }
    }
}

} // verus!
