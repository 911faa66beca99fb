use toss::line::Line;
use toss::render::highlight::{apply_highlight_to_range, build_highlight_positions, HighlightPositions};

/// Positions for the plain ranges of `line`, the first one being current.
fn build_from_line(line: &Line, ranges: &[(usize, usize)]) -> HighlightPositions {
    build_highlight_positions(ranges, Some(0), line.plain_to_raw(), line.raw().len())
}

fn apply_full(line: &Line, positions: &HighlightPositions) -> String {
    apply_highlight_to_range(line.raw(), 0..line.raw().len(), positions)
}

#[test]
fn plain_text_single_match() {
    let line = Line::new(0, "hello world".into());
    let positions = build_from_line(&line, &[(6, 11)]);
    let result = apply_full(&line, &positions);
    assert_eq!(result, "hello \x1b[7mworld\x1b[27m");
}

#[test]
fn plain_text_multiple_matches() {
    let line = Line::new(0, "foo bar foo".into());
    let positions = build_from_line(&line, &[(0, 3), (8, 11)]);
    let result = apply_full(&line, &positions);
    assert_eq!(result, "\x1b[7mfoo\x1b[27m bar \x1b[2m\x1b[7mfoo\x1b[27m\x1b[22m");
}

#[test]
fn match_spanning_escape_sequence() {
    let line = Line::new(0, "This is \x1b[1mCargo\x1b[0m.toml".into());
    let positions = build_from_line(&line, &[(11, 16)]);
    let result = apply_full(&line, &positions);
    assert_eq!(result, "This is \x1b[1mCar\x1b[7mgo\x1b[0m\x1b[7m.to\x1b[27mml");
}

#[test]
fn no_matches() {
    let line = Line::new(0, "hello world".into());
    let positions = build_from_line(&line, &[]);
    let result = apply_full(&line, &positions);
    assert_eq!(result, "hello world");
}

#[test]
fn match_at_beginning() {
    let line = Line::new(0, "hello world".into());
    let positions = build_from_line(&line, &[(0, 5)]);
    let result = apply_full(&line, &positions);
    assert_eq!(result, "\x1b[7mhello\x1b[27m world");
}

#[test]
fn match_entire_line() {
    let line = Line::new(0, "abc".into());
    let positions = build_from_line(&line, &[(0, 3)]);
    let result = apply_full(&line, &positions);
    assert_eq!(result, "\x1b[7mabc\x1b[27m");
}

#[test]
fn highlight_applied_to_wrapped_row_range() {
    let line = Line::new(0, "abcdefghij".into());
    let positions = build_from_line(&line, &[(4, 6)]);
    let r0 = apply_highlight_to_range(line.raw(), 0..5, &positions);
    assert_eq!(r0, "abcd\x1b[7me\x1b[27m");
    let r1 = apply_highlight_to_range(line.raw(), 5..10, &positions);
    assert_eq!(r1, "\x1b[7mf\x1b[27mghij");
}

#[test]
fn empty_range_is_skipped() {
    let line = Line::new(0, "abc".into());
    let positions = build_from_line(&line, &[(1, 1), (2, 3)]);
    let result = apply_full(&line, &positions);
    assert_eq!(result, "ab\x1b[2m\x1b[7mc\x1b[27m\x1b[22m");
}
