use toss::document::Document;
use toss::screen_state::{Direction, ScreenRow, ScreenState};

fn make_doc(lines: &[&str]) -> Document {
    Document::from_string(lines.join("\n"))
}

fn sr(line_index: usize, wrap_index: usize) -> ScreenRow {
    ScreenRow { line_index, wrap_index }
}

#[test]
fn screen_state_initial_state_simple() {
    let doc = make_doc(&["aaa", "bbb", "ccc", "ddd", "eee"]);
    let state = ScreenState::new(&doc, 80, 4);
    assert_eq!(state.rows(), &[sr(0, 0), sr(1, 0), sr(2, 0)]);
}

#[test]
fn screen_state_initial_state_with_wrapping() {
    // "abcdefgh" wraps to two rows at width 5.
    let doc = make_doc(&["abcdefgh", "xy"]);
    let state = ScreenState::new(&doc, 5, 5);
    assert_eq!(state.rows(), &[sr(0, 0), sr(0, 1), sr(1, 0)]);
}

#[test]
fn screen_state_scroll_down_one() {
    let doc = make_doc(&["aaa", "bbb", "ccc", "ddd"]);
    let mut state = ScreenState::new(&doc, 80, 4);
    let plan = state.scroll_down(1, &doc);
    assert_eq!(plan.terminal_scroll, 1);
    assert_eq!(plan.direction, Direction::Down);
    assert_eq!(plan.new_rows, vec![sr(3, 0)]);
    assert_eq!(state.rows(), &[sr(1, 0), sr(2, 0), sr(3, 0)]);
}

#[test]
fn screen_state_scroll_down_at_end() {
    let doc = make_doc(&["aaa", "bbb", "ccc"]);
    let mut state = ScreenState::new(&doc, 80, 4);
    let plan = state.scroll_down(1, &doc);
    assert_eq!(plan.terminal_scroll, 0);
    assert_eq!(plan.new_rows, vec![]);
    assert_eq!(state.rows()[0].line_index, 0);
}

#[test]
fn screen_state_scroll_down_with_wrap() {
    let doc = make_doc(&["short", "abcdefgh", "end"]);
    let mut state = ScreenState::new(&doc, 5, 4);
    assert_eq!(state.rows()[0], sr(0, 0));
    let plan = state.scroll_down(1, &doc);
    assert_eq!(plan.terminal_scroll, 1);
    assert_eq!(state.rows(), &[sr(1, 0), sr(1, 1), sr(2, 0)]);
}

#[test]
fn screen_state_scroll_up_one() {
    let doc = make_doc(&["aaa", "bbb", "ccc", "ddd"]);
    let mut state = ScreenState::new(&doc, 80, 4);
    state.scroll_down(1, &doc);
    let plan = state.scroll_up(1, &doc);
    assert_eq!(plan.terminal_scroll, 1);
    assert_eq!(plan.direction, Direction::Up);
    assert_eq!(plan.new_rows, vec![sr(0, 0)]);
    assert_eq!(state.rows(), &[sr(0, 0), sr(1, 0), sr(2, 0)]);
}

#[test]
fn screen_state_scroll_up_at_top() {
    let doc = make_doc(&["aaa", "bbb"]);
    let mut state = ScreenState::new(&doc, 80, 3);
    let plan = state.scroll_up(1, &doc);
    assert_eq!(plan.terminal_scroll, 0);
    assert_eq!(plan.new_rows, vec![]);
}

#[test]
fn screen_state_scroll_up_with_wrap() {
    let doc = make_doc(&["abcdefgh", "short"]);
    let mut state = ScreenState::new(&doc, 5, 3);
    state.scroll_down(1, &doc);
    let plan = state.scroll_up(1, &doc);
    assert_eq!(plan.terminal_scroll, 1);
    assert_eq!(plan.new_rows, vec![sr(0, 0)]);
    assert_eq!(state.rows(), &[sr(0, 0), sr(0, 1)]);
}

#[test]
fn screen_state_scroll_down_multiple() {
    let doc = make_doc(&["a", "b", "c", "d", "e", "f"]);
    let mut state = ScreenState::new(&doc, 80, 4);
    let plan = state.scroll_down(3, &doc);
    assert_eq!(plan.terminal_scroll, 3);
    assert_eq!(state.rows(), &[sr(3, 0), sr(4, 0), sr(5, 0)]);
}

#[test]
fn screen_state_scroll_down_clamps_at_end() {
    let doc = make_doc(&["a", "b", "c", "d"]);
    let mut state = ScreenState::new(&doc, 80, 4);
    let plan = state.scroll_down(10, &doc);
    assert_eq!(plan.terminal_scroll, 1);
    assert_eq!(state.rows(), &[sr(1, 0), sr(2, 0), sr(3, 0)]);
}

#[test]
fn screen_state_jump_to_line() {
    let doc = make_doc(&["a", "b", "c", "d", "e"]);
    let mut state = ScreenState::new(&doc, 80, 4);
    let changed = state.jump_to(&doc, 2);
    assert!(changed);
    assert_eq!(state.rows(), &[sr(2, 0), sr(3, 0), sr(4, 0)]);
}

#[test]
fn screen_state_jump_to_same_position() {
    let doc = make_doc(&["a", "b", "c"]);
    let mut state = ScreenState::new(&doc, 80, 4);
    let changed = state.jump_to(&doc, 0);
    assert!(!changed);
}

#[test]
fn screen_state_fewer_lines_than_height() {
    let doc = make_doc(&["a", "b"]);
    let state = ScreenState::new(&doc, 80, 6);
    assert_eq!(state.rows().len(), 2);
}

#[test]
fn screen_state_jump_to_end() {
    let doc = make_doc(&["a", "b", "c", "d", "e"]);
    let mut state = ScreenState::new(&doc, 80, 4);
    let changed = state.jump_to_end(&doc);
    assert!(changed);
    assert_eq!(state.rows(), &[sr(2, 0), sr(3, 0), sr(4, 0)]);
}

#[test]
fn screen_state_jump_to_end_with_wrap() {
    let doc = make_doc(&["a", "b", "abcdefgh"]);
    let mut state = ScreenState::new(&doc, 5, 4);
    let changed = state.jump_to_end(&doc);
    assert!(changed);
    assert_eq!(state.rows(), &[sr(1, 0), sr(2, 0), sr(2, 1)]);
}

#[test]
fn screen_state_jump_to_end_fewer_lines_than_height() {
    let doc = make_doc(&["a", "b"]);
    let mut state = ScreenState::new(&doc, 80, 6);
    let changed = state.jump_to_end(&doc);
    assert!(!changed);
}

#[test]
fn screen_state_resize_keeps_the_top_row() {
    let doc = make_doc(&["a", "b", "c", "d", "e", "f"]);
    let mut state = ScreenState::new(&doc, 80, 4);
    state.scroll_down(2, &doc);
    state.resize(&doc, 80, 5);
    assert_eq!(state.rows(), &[sr(2, 0), sr(3, 0), sr(4, 0), sr(5, 0)]);
    assert_eq!(state.content_height(), 4);
    assert_eq!(state.width(), 80);
}
