use toss::line_index::LineIndex;
use toss::reader::LinePos;
use toss::scroll::ScrollMode;
use toss::AppError;

fn build(content: &str) -> LineIndex {
    LineIndex::from_bytes(content.as_bytes())
}

#[test]
fn empty_content() {
    let idx = build("");
    assert_eq!(idx.line_count(), 0);
    assert_eq!(idx.line_byte_range(0), None);
}

#[test]
fn single_line_no_newline() {
    let idx = build("hello");
    assert_eq!(idx.line_count(), 1);
    assert_eq!(idx.line_byte_range(0), Some((0, 5)));
}

#[test]
fn single_line_with_newline() {
    let idx = build("hello\n");
    assert_eq!(idx.line_count(), 1);
    assert_eq!(idx.line_byte_range(0), Some((0, 5)));
}

#[test]
fn multiple_lines() {
    let idx = build("aaa\nbb\nc\n");
    assert_eq!(idx.line_count(), 3);
    assert_eq!(idx.line_byte_range(0), Some((0, 3)));
    assert_eq!(idx.line_byte_range(1), Some((4, 6)));
    assert_eq!(idx.line_byte_range(2), Some((7, 8)));
}

#[test]
fn multiple_lines_no_trailing_newline() {
    let idx = build("aaa\nbb\nc");
    assert_eq!(idx.line_count(), 3);
    assert_eq!(idx.line_byte_range(0), Some((0, 3)));
    assert_eq!(idx.line_byte_range(1), Some((4, 6)));
    assert_eq!(idx.line_byte_range(2), Some((7, 8)));
}

#[test]
fn empty_lines() {
    let idx = build("\n\n\n");
    assert_eq!(idx.line_count(), 3);
    assert_eq!(idx.line_byte_range(0), Some((0, 0)));
    assert_eq!(idx.line_byte_range(1), Some((1, 1)));
    assert_eq!(idx.line_byte_range(2), Some((2, 2)));
}

#[test]
fn line_index_out_of_bounds() {
    let idx = build("a\nb");
    assert_eq!(idx.line_byte_range(2), None);
    assert_eq!(idx.line_byte_range(100), None);
}

#[test]
fn line_pos_neighbours() {
    let first = LinePos::new(0, 3);
    assert_eq!(first.start_byte(), 0);
    assert_eq!(first.end_byte(), 3);
    assert_eq!(first.next_start_byte(), 4);
    assert_eq!(first.prev_end_byte(), None);
    let second = LinePos::new(4, 8);
    assert_eq!(second.prev_end_byte(), Some(3));
}

#[test]
fn scroll_mode_names() {
    assert_eq!("smooth".parse::<ScrollMode>(), Ok(ScrollMode::Smooth));
    assert_eq!("instant".parse::<ScrollMode>(), Ok(ScrollMode::Instant));
    assert_eq!(
        "fast".parse::<ScrollMode>(),
        Err("expected 'smooth' or 'instant'".to_string())
    );
}

#[test]
fn app_error_exits_with_one() {
    let e = AppError::new("boom".to_string());
    assert_eq!(e.message, "boom");
    assert_eq!(e.exit_code, 1);
}
