use toss::document::Document;
use toss::page::viewport::{Direction, ScreenRow, Viewport};
use toss::page::HeaderLayout;

fn make_doc(lines: &[&str]) -> Document {
    Document::from_string(lines.join("\n"))
}

/// (line_index, wrap_index) pairs of the rows.
fn row_ids(rows: &[ScreenRow]) -> Vec<(usize, usize)> {
    rows.iter().map(|r| (r.line_index, r.wrap_index)).collect()
}

#[test]
fn viewport_initial_state_simple() {
    let doc = make_doc(&["aaa", "bbb", "ccc", "ddd", "eee"]);
    let state = Viewport::new(&doc, 80, 3, 0);
    assert_eq!(row_ids(state.rows()), [(0, 0), (1, 0), (2, 0)]);
}

#[test]
fn viewport_initial_state_with_wrapping() {
    let doc = make_doc(&["abcdefgh", "xy"]);
    let state = Viewport::new(&doc, 5, 4, 0);
    assert_eq!(row_ids(state.rows()), [(0, 0), (0, 1), (1, 0)]);
}

#[test]
fn viewport_scroll_down_one() {
    let doc = make_doc(&["aaa", "bbb", "ccc", "ddd"]);
    let mut state = Viewport::new(&doc, 80, 3, 0);
    let plan = state.scroll_down(1, &doc).unwrap();
    assert_eq!(plan.terminal_scroll.get(), 1);
    assert_eq!(plan.direction, Direction::Down);
    assert_eq!(row_ids(state.rows()), [(1, 0), (2, 0), (3, 0)]);
}

#[test]
fn viewport_scroll_down_at_end() {
    let doc = make_doc(&["aaa", "bbb", "ccc"]);
    let mut state = Viewport::new(&doc, 80, 3, 0);
    assert!(state.scroll_down(1, &doc).is_none());
    assert_eq!(state.rows()[0].line_index, 0);
}

#[test]
fn viewport_scroll_down_with_wrap() {
    let doc = make_doc(&["short", "abcdefgh", "end"]);
    let mut state = Viewport::new(&doc, 5, 3, 0);
    assert_eq!(state.rows()[0].line_index, 0);
    let plan = state.scroll_down(1, &doc).unwrap();
    assert_eq!(plan.terminal_scroll.get(), 1);
    assert_eq!(row_ids(state.rows()), [(1, 0), (1, 1), (2, 0)]);
}

#[test]
fn viewport_scroll_up_one() {
    let doc = make_doc(&["aaa", "bbb", "ccc", "ddd"]);
    let mut state = Viewport::new(&doc, 80, 3, 0);
    state.scroll_down(1, &doc);
    let plan = state.scroll_up(1, &doc).unwrap();
    assert_eq!(plan.terminal_scroll.get(), 1);
    assert_eq!(plan.direction, Direction::Up);
    assert_eq!(row_ids(state.rows()), [(0, 0), (1, 0), (2, 0)]);
}

#[test]
fn viewport_scroll_up_at_top() {
    let doc = make_doc(&["aaa", "bbb"]);
    let mut state = Viewport::new(&doc, 80, 2, 0);
    assert!(state.scroll_up(1, &doc).is_none());
}

#[test]
fn viewport_scroll_up_with_wrap() {
    let doc = make_doc(&["abcdefgh", "short"]);
    let mut state = Viewport::new(&doc, 5, 2, 0);
    state.scroll_down(1, &doc);
    let plan = state.scroll_up(1, &doc).unwrap();
    assert_eq!(plan.terminal_scroll.get(), 1);
    assert_eq!(row_ids(state.rows()), [(0, 0), (0, 1)]);
}

#[test]
fn viewport_scroll_down_multiple() {
    let doc = make_doc(&["a", "b", "c", "d", "e", "f"]);
    let mut state = Viewport::new(&doc, 80, 3, 0);
    let plan = state.scroll_down(3, &doc).unwrap();
    assert_eq!(plan.terminal_scroll.get(), 3);
    assert_eq!(row_ids(state.rows()), [(3, 0), (4, 0), (5, 0)]);
}

#[test]
fn viewport_scroll_down_clamps_at_end() {
    let doc = make_doc(&["a", "b", "c", "d"]);
    let mut state = Viewport::new(&doc, 80, 3, 0);
    let plan = state.scroll_down(10, &doc).unwrap();
    assert_eq!(plan.terminal_scroll.get(), 1);
    assert_eq!(row_ids(state.rows()), [(1, 0), (2, 0), (3, 0)]);
}

#[test]
fn viewport_jump_to_line() {
    let doc = make_doc(&["a", "b", "c", "d", "e"]);
    let mut state = Viewport::new(&doc, 80, 3, 0);
    let changed = state.jump_to(&doc, 2);
    assert!(changed);
    assert_eq!(row_ids(state.rows()), [(2, 0), (3, 0), (4, 0)]);
}

#[test]
fn viewport_jump_to_same_position() {
    let doc = make_doc(&["a", "b", "c"]);
    let mut state = Viewport::new(&doc, 80, 3, 0);
    let changed = state.jump_to(&doc, 0);
    assert!(!changed);
}

#[test]
fn viewport_fewer_lines_than_height() {
    let doc = make_doc(&["a", "b"]);
    let state = Viewport::new(&doc, 80, 5, 0);
    assert_eq!(state.rows().len(), 2);
}

#[test]
fn viewport_jump_to_end() {
    let doc = make_doc(&["a", "b", "c", "d", "e"]);
    let mut state = Viewport::new(&doc, 80, 3, 0);
    let changed = state.jump_to_end(&doc);
    assert!(changed);
    assert_eq!(row_ids(state.rows()), [(2, 0), (3, 0), (4, 0)]);
}

#[test]
fn viewport_jump_to_end_with_wrap() {
    let doc = make_doc(&["a", "b", "abcdefgh"]);
    let mut state = Viewport::new(&doc, 5, 3, 0);
    let changed = state.jump_to_end(&doc);
    assert!(changed);
    assert_eq!(row_ids(state.rows()), [(1, 0), (2, 0), (2, 1)]);
}

#[test]
fn viewport_jump_to_end_fewer_lines_than_height() {
    let doc = make_doc(&["a", "b"]);
    let mut state = Viewport::new(&doc, 80, 5, 0);
    let changed = state.jump_to_end(&doc);
    assert!(!changed);
}

#[test]
fn raw_range_stored_in_rows() {
    let doc = make_doc(&["abcdefgh", "xy"]);
    let state = Viewport::new(&doc, 5, 4, 0);
    let rows = state.rows();
    assert_eq!(rows[0].raw_range, 0..5);
    assert_eq!(rows[1].raw_range, 5..8);
    assert_eq!(rows[2].raw_range, 0..2);
}

#[test]
fn viewport_never_scrolls_above_the_fixed_lines() {
    let doc = make_doc(&["head", "a", "b", "c", "d"]);
    let mut state = Viewport::new(&doc, 80, 2, 1);
    assert_eq!(row_ids(state.rows()), [(1, 0), (2, 0)]);
    state.scroll_down(2, &doc);
    assert_eq!(row_ids(state.rows()), [(3, 0), (4, 0)]);
    let plan = state.scroll_up(3, &doc).unwrap();
    assert_eq!(plan.terminal_scroll.get(), 2);
    assert_eq!(row_ids(state.rows()), [(1, 0), (2, 0)]);
    assert!(state.jump_to(&doc, 0) == false);
    state.set_overlay_height(1);
    assert_eq!(state.visible_height(), 1);
    assert_eq!(row_ids(state.visible_rows()), [(2, 0)]);
    assert_eq!(state.top_line_index(), 1);
    assert_eq!(state.top_wrap_index(), 0);
}

#[test]
fn header_layout_splits_fixed_and_overlay_rows() {
    let doc = make_doc(&["a", "b", "c"]);
    let state = Viewport::new(&doc, 80, 3, 0);
    let header = HeaderLayout::new(state.rows().to_vec(), 1);
    assert_eq!(header.height(), 3);
    assert_eq!(header.fixed_height(), 1);
    assert_eq!(header.overlay_height(), 2);
    assert_eq!(row_ids(header.rows()), [(0, 0), (1, 0), (2, 0)]);
}
