use toss::line::{Line, MatchPosition, SearchLineFrom};
use toss::query::Query;

fn wrap_row_text(line: &Line, width: usize, wrap_index: usize) -> String {
    let rows = line.wrap(width);
    line.raw()[rows[wrap_index].raw_range()].to_string()
}

fn span(line: &Line, width: usize, from: usize, to: usize) -> String {
    let rows = line.wrap(width);
    line.raw()[rows[from].raw_range().start..rows[to].raw_range().end].to_string()
}

#[test]
fn wrap_short_line() {
    let line = Line::new(0, "hello".into());
    assert_eq!(line.row_count(80), 1);
    assert_eq!(wrap_row_text(&line, 80, 0), "hello");
}

#[test]
fn wrap_exact_width() {
    let line = Line::new(0, "abcde".into());
    assert_eq!(line.row_count(5), 1);
    assert_eq!(wrap_row_text(&line, 5, 0), "abcde");
}

#[test]
fn wrap_overflow() {
    let line = Line::new(0, "abcdefgh".into());
    assert_eq!(line.row_count(5), 2);
    assert_eq!(wrap_row_text(&line, 5, 0), "abcde");
    assert_eq!(wrap_row_text(&line, 5, 1), "fgh");
}

#[test]
fn wrap_multiple_rows() {
    let line = Line::new(0, "abcdefghijklm".into());
    assert_eq!(line.row_count(5), 3);
    assert_eq!(wrap_row_text(&line, 5, 0), "abcde");
    assert_eq!(wrap_row_text(&line, 5, 1), "fghij");
    assert_eq!(wrap_row_text(&line, 5, 2), "klm");
    // A range over consecutive rows covers their text.
    assert_eq!(span(&line, 5, 0, 1), "abcdefghij");
    assert_eq!(span(&line, 5, 1, 2), "fghijklm");
    assert_eq!(span(&line, 5, 0, 2), "abcdefghijklm");
}

#[test]
fn wrap_wide_chars() {
    // Each CJK character is two columns wide.
    let line = Line::new(0, "あいうえお".into());
    assert_eq!(line.row_count(6), 2);
    assert_eq!(wrap_row_text(&line, 6, 0), "あいう");
    assert_eq!(wrap_row_text(&line, 6, 1), "えお");
}

#[test]
fn wrap_wide_char_at_boundary() {
    let line = Line::new(0, "あいう".into());
    assert_eq!(line.row_count(5), 2);
    assert_eq!(wrap_row_text(&line, 5, 0), "あい");
    assert_eq!(wrap_row_text(&line, 5, 1), "う");
}

#[test]
fn empty_line() {
    let line = Line::new(0, String::new());
    assert_eq!(line.row_count(80), 1);
    assert_eq!(wrap_row_text(&line, 80, 0), "");
}

#[test]
fn plain_text_strips_escapes() {
    let line = Line::new(0, "\x1b[1mHi\x1b[0m, 😀".into());
    assert_eq!(line.raw(), "\x1b[1mHi\x1b[0m, 😀");
    assert_eq!(line.plain(), "Hi, 😀");
}

#[test]
fn plain_to_raw_mapping() {
    let line = Line::new(0, "\x1b[1mHi\x1b[0m, 😀".into());
    assert_eq!(*line.plain_to_raw(), vec![4, 5, 10, 11, 12, 13, 14, 15]);
}

#[test]
fn wrap_with_escapes_no_wrap_needed() {
    let line = Line::new(0, "\x1b[31mHi\x1b[0m".into());
    assert_eq!(line.row_count(10), 1);
    assert_eq!(wrap_row_text(&line, 10, 0), "\x1b[31mHi\x1b[0m");
}

#[test]
fn wrap_with_escapes_causes_wrap() {
    // The reset sequence follows "Hello" in the raw text, so it stays in row 0.
    let line = Line::new(0, "\x1b[1mHello\x1b[0mWorld".into());
    assert_eq!(line.row_count(5), 2);
    assert_eq!(wrap_row_text(&line, 5, 0), "\x1b[1mHello\x1b[0m");
    assert_eq!(wrap_row_text(&line, 5, 1), "World");
    assert_eq!(span(&line, 5, 0, 1), "\x1b[1mHello\x1b[0mWorld");
}

#[test]
fn wrap_escape_at_wrap_boundary() {
    let line = Line::new(0, "abcde\x1b[31m12345".into());
    assert_eq!(line.row_count(5), 2);
    assert_eq!(wrap_row_text(&line, 5, 0), "abcde\x1b[31m");
    assert_eq!(wrap_row_text(&line, 5, 1), "12345");
}

#[test]
fn wrap_multiple_escapes() {
    let line = Line::new(0, "\x1b[1ma\x1b[2mb\x1b[3mc\x1b[4md\x1b[5me\x1b[6mfghij".into());
    assert_eq!(line.row_count(5), 2);
    assert_eq!(
        wrap_row_text(&line, 5, 0),
        "\x1b[1ma\x1b[2mb\x1b[3mc\x1b[4md\x1b[5me\x1b[6m"
    );
    assert_eq!(wrap_row_text(&line, 5, 1), "fghij");
}

#[test]
fn escape_only_line() {
    let line = Line::new(0, "\x1b[0m\x1b[1m".into());
    assert_eq!(line.row_count(80), 1);
    assert_eq!(wrap_row_text(&line, 80, 0), "\x1b[0m\x1b[1m");
}

#[test]
fn wrap_wide_chars_with_escapes() {
    let line = Line::new(0, "\x1b[31mあいう\x1b[0m".into());
    assert_eq!(line.row_count(5), 2);
    assert_eq!(wrap_row_text(&line, 5, 0), "\x1b[31mあい");
    assert_eq!(wrap_row_text(&line, 5, 1), "う\x1b[0m");
}

fn match_pos(line_index: usize, range: std::ops::Range<usize>) -> MatchPosition {
    MatchPosition::new(line_index, range)
}

fn query(pattern: &str) -> Query {
    Query::new(pattern).unwrap()
}

fn collect_from(line: &Line, query: &Query, from: SearchLineFrom) -> Vec<MatchPosition> {
    line.matches_from(query, from)
}

#[test]
fn matches_iter_start_returns_all_matches() {
    let line = Line::new(0, "ab cd ab ef ab".into());
    let q = query("ab");
    assert_eq!(
        collect_from(&line, &q, SearchLineFrom::Start),
        vec![match_pos(0, 0..2), match_pos(0, 6..8), match_pos(0, 12..14)]
    );
}

#[test]
fn matches_iter_start_no_match() {
    let line = Line::new(0, "hello world".into());
    let q = query("xyz");
    assert!(collect_from(&line, &q, SearchLineFrom::Start).is_empty());
}

#[test]
fn matches_iter_next_of_excludes_border_and_earlier() {
    let line = Line::new(0, "ab cd ab ef ab".into());
    let q = query("ab");
    let border = match_pos(0, 6..8);
    assert_eq!(
        collect_from(&line, &q, SearchLineFrom::NextOf(&border)),
        vec![match_pos(0, 12..14)]
    );
}

#[test]
fn matches_iter_next_of_at_match_start_includes_self() {
    let line = Line::new(0, "abab".into());
    let q = query("ab");
    let border = match_pos(0, 0..2);
    assert_eq!(
        collect_from(&line, &q, SearchLineFrom::NextOf(&border)),
        vec![match_pos(0, 2..4)]
    );
}

#[test]
fn matches_iter_prev_of_excludes_border_and_later() {
    let line = Line::new(0, "ab cd ab ef ab".into());
    let q = query("ab");
    let border = match_pos(0, 6..8);
    assert_eq!(
        collect_from(&line, &q, SearchLineFrom::PrevOf(&border)),
        vec![match_pos(0, 0..2)]
    );
}

#[test]
fn matches_iter_prev_of_at_match_end_includes_self() {
    let line = Line::new(0, "abab".into());
    let q = query("ab");
    let border = match_pos(0, 2..4);
    assert_eq!(
        collect_from(&line, &q, SearchLineFrom::PrevOf(&border)),
        vec![match_pos(0, 0..2)]
    );
}

#[test]
fn matches_iter_row_skips_matches_before_row_start() {
    let line = Line::new(0, "abcdefghij".into());
    let q = query("[a-j]{2}");
    let rows = line.wrap(5);
    assert_eq!(
        collect_from(&line, &q, SearchLineFrom::Row(&rows[0])),
        vec![
            match_pos(0, 0..2),
            match_pos(0, 2..4),
            match_pos(0, 4..6),
            match_pos(0, 6..8),
            match_pos(0, 8..10),
        ]
    );
    assert_eq!(
        collect_from(&line, &q, SearchLineFrom::Row(&rows[1])),
        vec![match_pos(0, 6..8), match_pos(0, 8..10)]
    );
}

#[test]
fn matches_iter_row_with_escapes_uses_raw_position() {
    let line = Line::new(0, "\x1b[1mabcde\x1b[0mfghij".into());
    let q = query("[a-j]{2}");
    let rows = line.wrap(5);
    assert_eq!(rows[1].raw_range().start, 13);
    assert_eq!(
        collect_from(&line, &q, SearchLineFrom::Row(&rows[1])),
        vec![match_pos(0, 6..8), match_pos(0, 8..10)]
    );
}

#[test]
fn matches_iter_row_handles_zero_width_match_at_end() {
    let line = Line::new(0, "abc".into());
    let q = query("$");
    let rows = line.wrap(80);
    let result = collect_from(&line, &q, SearchLineFrom::Row(&rows[0]));
    assert_eq!(result, vec![match_pos(0, 3..3)]);
}

#[test]
fn find_first_match_from_returns_first() {
    let line = Line::new(0, "ab cd ab ef ab".into());
    let q = query("ab");
    let border = match_pos(0, 0..2);
    assert_eq!(
        line.find_first_match_from(&q, SearchLineFrom::NextOf(&border)),
        Some(match_pos(0, 6..8))
    );
    assert_eq!(
        line.find_first_match_from(&query("xyz"), SearchLineFrom::Start),
        None
    );
}

#[test]
fn find_last_match_from_returns_last() {
    let line = Line::new(0, "ab cd ab ef ab".into());
    let q = query("ab");
    let border = match_pos(0, 12..14);
    assert_eq!(
        line.find_last_match_from(&q, SearchLineFrom::PrevOf(&border)),
        Some(match_pos(0, 6..8))
    );
    assert_eq!(
        line.find_last_match_from(&query("xyz"), SearchLineFrom::Start),
        None
    );
}

#[test]
fn match_raw_range_spans_escape_inside_match() {
    let line = Line::new(0, "This is \x1b[1mCargo\x1b[0m.toml".into());
    let m = match_pos(0, 11..16);
    let r = line.match_raw_range(&m);
    assert_eq!(r, 15..24);
    assert_eq!(line.match_inner_escape_boundaries(&m), vec![21]);
    assert_eq!(line.match_first_char_raw_end(&m), 16);
}

#[test]
fn plain_map_skips_a_color_code_between_letters() {
    let line = Line::new(0, "a\x1b[31mb".to_string());
    assert_eq!(line.plain(), "ab");
    assert_eq!(*line.plain_to_raw(), vec![0, 6]);
}
