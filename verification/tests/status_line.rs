use toss::line_editor::InputAtCursor;
use toss::pager::status_line::{clip, search_input, STATUS_REVERSE_OFF, STATUS_REVERSE_ON};

#[test]
fn clip_keeps_right_side() {
    assert_eq!(clip("lines 3-30/500 2%", 20), "lines 3-30/500 2%");
    assert_eq!(clip("lines 3-30/500 2%", 14), "es 3-30/500 2%");
    assert_eq!(clip("lines 3-30/500 2%", 4), "0 2%");
}

/// A search prompt with the reversed span shown as `[...]`. The cursor sits
/// on the first character of `from_cursor`.
fn prompt(before: &str, from_cursor: &str, width: usize) -> String {
    let before: Vec<char> = before.chars().collect();
    let from_cursor: Vec<char> = from_cursor.chars().collect();
    let input = InputAtCursor {
        before: &before,
        from_cursor: &from_cursor,
    };
    search_input("/", input, width)
        .replace(STATUS_REVERSE_ON, "[")
        .replace(STATUS_REVERSE_OFF, "]")
}

#[test]
fn cursor_reverses_the_cell_it_sits_on() {
    assert_eq!(prompt("a", "bc", 10), "/a[b]c");
    assert_eq!(prompt("abc", "", 10), "/abc[ ]");
}

#[test]
fn cursor_reverses_a_wide_char_whole() {
    assert_eq!(prompt("", "あx", 10), "/[あ]x");
}

#[test]
fn cursor_keeps_combining_marks_in_its_cell() {
    assert_eq!(prompt("", "a\u{301}bc", 10), "/[a\u{301}]bc");
    assert_eq!(prompt("a\u{301}", "bc", 10), "/a\u{301}[b]c");
}

#[test]
fn clipping_drops_the_left_side_to_keep_the_cursor() {
    assert_eq!(prompt("ab", "cde", 6), "/ab[c]de");
    assert_eq!(prompt("ab", "cde", 5), "ab[c]de");
}

#[test]
fn cursor_is_unmarked_once_it_no_longer_fits() {
    assert_eq!(prompt("a", "bcde", 3), "cde");
}

#[test]
fn clip_drops_straddling_wide_char() {
    assert_eq!(clip("あx", 1), "x");
    assert_eq!(clip("あx", 2), "x");
    assert_eq!(clip("あx", 3), "あx");
}
