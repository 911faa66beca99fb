use toss::line_editor::{LineEdit, LineEditor};

#[test]
fn insert_and_backspace() {
    let mut editor = LineEditor::new();
    editor.edit(LineEdit::AddChar('a'));
    editor.edit(LineEdit::AddChar('b'));
    editor.edit(LineEdit::AddChar('c'));
    assert_eq!(editor.input(), "abc");
    assert_eq!(editor.cursor(), 3);

    editor.edit(LineEdit::DeleteCharBeforeCursor);
    assert_eq!(editor.input(), "ab");
    assert_eq!(editor.cursor(), 2);
}

#[test]
fn input_with_cursor_shows_block_at_position() {
    let mut editor = LineEditor::new();
    assert_eq!(editor.input_with_cursor(), "█");

    editor.edit(LineEdit::AddChar('a'));
    editor.edit(LineEdit::AddChar('b'));
    assert_eq!(editor.input_with_cursor(), "ab█");

    editor.edit(LineEdit::DeleteCharBeforeCursor);
    assert_eq!(editor.input_with_cursor(), "a█");
}

#[test]
fn move_left_and_right() {
    let mut editor = LineEditor::new();
    editor.edit(LineEdit::AddChar('a'));
    editor.edit(LineEdit::AddChar('b'));
    editor.edit(LineEdit::AddChar('c'));
    assert_eq!(editor.cursor(), 3);

    editor.edit(LineEdit::MoveCursorLeft);
    assert_eq!(editor.cursor(), 2);
    assert_eq!(editor.input_with_cursor(), "ab█c");

    editor.edit(LineEdit::MoveCursorLeft);
    assert_eq!(editor.cursor(), 1);
    assert_eq!(editor.input_with_cursor(), "a█bc");

    editor.edit(LineEdit::AddChar('x'));
    assert_eq!(editor.input(), "axbc");
    assert_eq!(editor.input_with_cursor(), "ax█bc");

    editor.edit(LineEdit::MoveCursorRight);
    assert_eq!(editor.input_with_cursor(), "axb█c");

    editor.edit(LineEdit::DeleteCharBeforeCursor);
    assert_eq!(editor.input(), "axc");
    assert_eq!(editor.input_with_cursor(), "ax█c");
}

#[test]
fn move_left_at_start_does_nothing() {
    let mut editor = LineEditor::new();
    editor.edit(LineEdit::MoveCursorLeft);
    assert_eq!(editor.cursor(), 0);

    editor.edit(LineEdit::AddChar('a'));
    editor.edit(LineEdit::MoveCursorLeft);
    editor.edit(LineEdit::MoveCursorLeft);
    assert_eq!(editor.cursor(), 0);
}

#[test]
fn move_right_at_end_does_nothing() {
    let mut editor = LineEditor::new();
    editor.edit(LineEdit::MoveCursorRight);
    assert_eq!(editor.cursor(), 0);

    editor.edit(LineEdit::AddChar('a'));
    editor.edit(LineEdit::MoveCursorRight);
    assert_eq!(editor.cursor(), 1);
}

#[test]
fn backspace_at_start_does_nothing() {
    let mut editor = LineEditor::new();
    editor.edit(LineEdit::DeleteCharBeforeCursor);
    assert_eq!(editor.input(), "");
    assert_eq!(editor.cursor(), 0);
}

#[test]
fn insert_then_backspace_restores_the_input() {
    let mut editor = LineEditor::new();
    editor.edit(LineEdit::AddChar('a'));
    editor.edit(LineEdit::AddChar('c'));
    editor.edit(LineEdit::MoveCursorLeft);
    editor.edit(LineEdit::AddChar('b'));
    assert_eq!(editor.input(), "abc");
    editor.edit(LineEdit::DeleteCharBeforeCursor);
    assert_eq!(editor.input(), "ac");
    assert_eq!(editor.cursor(), 1);
}
