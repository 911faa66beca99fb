//! Compiled search queries: a regular expression kept together with the pattern
//! it was compiled from, and the searches the pager runs with it.

use vstd::prelude::*;

use crate::text::{byte_offset, bytes_len};

verus! {

/// Declares the regular expression type of the `regex` crate.
#[verifier::external_type_specification]
#[verifier::external_body]
pub struct ExRegex(regex::Regex);

/// Declares the compile error type of the `regex` crate.
#[verifier::external_type_specification]
#[verifier::external_body]
pub struct ExRegexError(regex::Error);

/// Whether `pattern` is a regular expression that `regex::Regex::new` accepts.
pub uninterp spec fn regex_compiles(pattern: Seq<char>) -> bool;

/// The successive non-overlapping matches of `pattern` in `text`, as byte ranges,
/// as `regex::Regex::find_iter` yields them.
pub uninterp spec fn regex_find_all(pattern: Seq<char>, text: Seq<char>) -> Seq<(usize, usize)>;

/// `b` is the byte offset of a character boundary of `s`.
pub open spec fn is_char_boundary(s: Seq<char>, b: int) -> bool {
    exists|k: int| 0 <= k <= s.len() && byte_offset(s, k) == b
}

/// What the documentation of `regex::Match` guarantees of the matches of one
/// search: each lies within the text, starts no later than it ends, falls on
/// character boundaries, and each ends no later than the next one starts.
pub open spec fn matches_well_formed(text: Seq<char>, ms: Seq<(usize, usize)>) -> bool {
    &&& forall|i: int|
        0 <= i < ms.len() ==> {
            &&& (#[trigger] ms[i]).0 <= ms[i].1
            &&& ms[i].1 <= bytes_len(text)
            &&& is_char_boundary(text, ms[i].0 as int)
            &&& is_char_boundary(text, ms[i].1 as int)
        }
    &&& forall|i: int| 0 <= i < ms.len() - 1 ==> (#[trigger] ms[i]).1 <= ms[i + 1].0
}

/// Calls `regex::Regex::new`. Claims that it succeeds exactly on the patterns
/// that `regex_compiles` names, which nothing here defines further.
#[verifier::external_body]
fn compile(pattern: &str) -> (r: Result<regex::Regex, regex::Error>)
    ensures
        r.is_ok() == regex_compiles(pattern@),
{
    regex::Regex::new(pattern)
}

/// Error returned when a search pattern is not a valid regular expression.
#[derive(Debug, Clone, PartialEq, Eq)]
pub struct QueryError {
    pub message: String,
}

/// Calls `to_string` on a `regex::Error`; nothing is claimed of the message.
#[verifier::external_body]
fn error_message(e: &regex::Error) -> String {
    e.to_string()
}

/// A compiled regular expression together with its pattern.
#[derive(Debug)]
pub struct Query {
    pattern: String,
    regex: regex::Regex,
}

impl View for Query {
    type V = Seq<char>;

    closed spec fn view(&self) -> Seq<char> {
        self.pattern@
    }
}

impl Query {
    /// Compile `pattern`; fails exactly when the regex crate rejects it.
    pub fn new(pattern: &str) -> (r: Result<Query, QueryError>)
        ensures
            r.is_ok() == regex_compiles(pattern@),
            r matches Ok(q) ==> q@ == pattern@,
    {
        match compile(pattern) {
            Ok(regex) => {
                let p = String::from_str(pattern);
                Ok(Query { pattern: p, regex })
            },
            Err(e) => Err(QueryError { message: error_message(&e) }),
        }
    }

    /// The pattern this query was compiled from.
    pub fn as_str(&self) -> (s: &str)
        ensures
            s@ == self@,
    {
        self.pattern.as_str()
    }

    /// All successive non-overlapping matches in `text`, as byte ranges.
    pub fn find_ranges(&self, text: &[char]) -> (r: Vec<(usize, usize)>)
        ensures
            r@ == regex_find_all(self@, text@),
            matches_well_formed(text@, r@),
    {
        find_iter_ranges(self, text)
    }

    /// Whether `text` holds any match.
    pub fn is_match(&self, text: &[char]) -> (r: bool)
        ensures
            r == (regex_find_all(self@, text@).len() > 0),
    {
        regex_is_match(self, text)
    }
}

/// Calls `regex::Regex::find_iter` on the text and keeps each match's byte
/// range. Claims the ranges are those `regex_find_all` names for the query's
/// pattern, with the properties the `Match` documentation states.
#[verifier::external_body]
fn find_iter_ranges(q: &Query, text: &[char]) -> (r: Vec<(usize, usize)>)
    ensures
        r@ == regex_find_all(q@, text@),
        matches_well_formed(text@, r@),
{
    let s = String::from_iter(text);
    q.regex.find_iter(&s).map(|m| (m.start(), m.end())).collect()
}

/// Calls `regex::Regex::is_match`. Claims it answers whether `find_iter`
/// would yield any match, as its documentation states.
#[verifier::external_body]
fn regex_is_match(q: &Query, text: &[char]) -> (r: bool)
    ensures
        r == (regex_find_all(q@, text@).len() > 0),
{
    let s = String::from_iter(text);
    q.regex.is_match(&s)
}

} // verus!
