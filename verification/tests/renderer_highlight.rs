use std::borrow::Cow;

use toss::line::{Line, MatchPosition};
use toss::query::Query;
use toss::renderer::highlight::{
    apply_highlight_if_matches, apply_highlight_to_range, build_highlight_positions, HighlightPos,
};
use toss::search::{SearchDirection, SearchState};

/// Positions for the plain ranges of `line`; the first range is the current match.
fn build_from_line(line: &Line, ranges: &[(usize, usize)]) -> Vec<HighlightPos> {
    let matches = ranges
        .iter()
        .map(|r| MatchPosition::new(0, r.0..r.1))
        .collect::<Vec<_>>();
    build_highlight_positions(&matches, &matches.first().cloned(), line)
}

fn apply_full(line: &Line, positions: &[HighlightPos]) -> String {
    apply_highlight_to_range(line.raw(), 0..line.raw().len(), positions)
}

#[test]
fn highlight_plain_text_single_match() {
    let line = Line::new(0, "hello world".into());
    let positions = build_from_line(&line, &[(6, 11)]);
    let result = apply_full(&line, &positions);
    assert_eq!(result, "hello \x1b[7m\x1b[1mworld\x1b[27m\x1b[22m");
}

#[test]
fn highlight_plain_text_multiple_matches() {
    let line = Line::new(0, "foo bar foo".into());
    let positions = build_from_line(&line, &[(0, 3), (8, 11)]);
    let result = apply_full(&line, &positions);
    assert_eq!(
        result,
        "\x1b[7m\x1b[1mfoo\x1b[27m\x1b[22m bar \x1b[7m\x1b[4m\x1b[1mf\x1b[27m\x1b[24m\x1b[22m\x1b[4m\x1b[1moo\x1b[24m\x1b[22m"
    );
}

#[test]
fn highlight_match_spanning_escape_sequence() {
    // plain "This is Cargo.toml", match "go.to" at plain 11..16.
    let line = Line::new(0, "This is \x1b[1mCargo\x1b[0m.toml".into());
    let positions = build_from_line(&line, &[(11, 16)]);
    let result = apply_full(&line, &positions);
    assert_eq!(
        result,
        "This is \x1b[1mCar\x1b[7m\x1b[1mgo\x1b[0m\x1b[7m\x1b[1m.to\x1b[27m\x1b[22mml"
    );
}

#[test]
fn highlight_no_matches() {
    let line = Line::new(0, "hello world".into());
    let positions = build_from_line(&line, &[]);
    let result = apply_full(&line, &positions);
    assert_eq!(result, "hello world");
}

#[test]
fn highlight_match_at_beginning() {
    let line = Line::new(0, "hello world".into());
    let positions = build_from_line(&line, &[(0, 5)]);
    let result = apply_full(&line, &positions);
    assert_eq!(result, "\x1b[7m\x1b[1mhello\x1b[27m\x1b[22m world");
}

#[test]
fn highlight_match_entire_line() {
    let line = Line::new(0, "abc".into());
    let positions = build_from_line(&line, &[(0, 3)]);
    let result = apply_full(&line, &positions);
    assert_eq!(result, "\x1b[7m\x1b[1mabc\x1b[27m\x1b[22m");
}

#[test]
fn highlight_highlight_applied_to_wrapped_row_range() {
    // Width 5: row 0 = raw 0..5, row 1 = raw 5..10; the match "ef" straddles them.
    let line = Line::new(0, "abcdefghij".into());
    let positions = build_from_line(&line, &[(4, 6)]);
    let r0 = apply_highlight_to_range(line.raw(), 0..5, &positions);
    assert_eq!(r0, "abcd\x1b[7m\x1b[1me\x1b[27m\x1b[22m");
    let r1 = apply_highlight_to_range(line.raw(), 5..10, &positions);
    assert_eq!(r1, "\x1b[7m\x1b[1mf\x1b[27m\x1b[22mghij");
}

#[test]
fn single_char_other_match_is_one_segment() {
    let line = Line::new(0, "a b a".into());
    let positions = build_from_line(&line, &[(0, 1), (4, 5)]);
    let result = apply_full(&line, &positions);
    assert_eq!(
        result,
        "\x1b[7m\x1b[1ma\x1b[27m\x1b[22m b \x1b[7m\x1b[4m\x1b[1ma\x1b[27m\x1b[24m\x1b[22m"
    );
}

#[test]
fn highlight_builds_a_string_only_on_a_match() {

    let line = Line::new(0, "\x1b[1mhello\x1b[0m world".into());
    let text = apply_highlight_if_matches(None, &line, 4..9);
    assert!(matches!(text, Cow::Borrowed("hello")));

    let missing = SearchState {
        query: Query::new("xyz").unwrap(),
        direction: SearchDirection::Forward,
        current: None,
    };
    let text = apply_highlight_if_matches(Some(&missing), &line, 0..line.raw().len());
    assert!(matches!(text, Cow::Borrowed(_)));
    assert_eq!(text, line.raw());

    let found = SearchState {
        query: Query::new("world").unwrap(),
        direction: SearchDirection::Forward,
        current: None,
    };
    let text = apply_highlight_if_matches(Some(&found), &line, 0..line.raw().len());
    assert!(matches!(text, Cow::Owned(_)));
    assert_ne!(text, line.raw());
}
