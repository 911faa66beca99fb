//! Single-line text editor for the search prompt.

use vstd::prelude::*;

use crate::text::string_from_chars;

verus! {

/// One editing action.
#[derive(Debug, Clone, Copy, PartialEq, Eq, Structural)]
pub enum LineEdit {
    /// Insert a character at the cursor.
    AddChar(char),
    /// Delete the character before the cursor.
    DeleteCharBeforeCursor,
    /// Move the cursor one position to the left.
    MoveCursorLeft,
    /// Move the cursor one position to the right.
    MoveCursorRight,
}

impl LineEdit {
    /// Whether this edit changes the text (rather than only the cursor).
    pub fn changes_text(&self) -> (r: bool)
        ensures
            r == (self is AddChar || self is DeleteCharBeforeCursor),
    {
        match self {
            LineEdit::AddChar(_) | LineEdit::DeleteCharBeforeCursor => true,
            LineEdit::MoveCursorLeft | LineEdit::MoveCursorRight => false,
        }
    }
}

/// The input split at the cursor.
pub struct InputAtCursor<'a> {
    /// Characters before the cursor.
    pub before: &'a [char],
    /// Characters from the cursor on; the cursor sits on the first of them.
    pub from_cursor: &'a [char],
}

/// The text of an editor and the cursor position in it.
pub open spec fn edit_result(input: Seq<char>, cursor: nat, edit: LineEdit) -> (Seq<char>, nat) {
    match edit {
        LineEdit::AddChar(c) => (input.insert(cursor as int, c), cursor + 1),
        LineEdit::DeleteCharBeforeCursor => if cursor > 0 {
            (input.remove(cursor - 1), (cursor - 1) as nat)
        } else {
            (input, cursor)
        },
        LineEdit::MoveCursorLeft => if cursor > 0 {
            (input, (cursor - 1) as nat)
        } else {
            (input, cursor)
        },
        LineEdit::MoveCursorRight => if cursor < input.len() {
            (input, cursor + 1)
        } else {
            (input, cursor)
        },
    }
}

/// Typing a character and deleting it again with backspace gives back the
/// input and the cursor as they were.
pub proof fn law_insert_then_backspace(input: Seq<char>, cursor: nat, c: char)
    requires
        cursor <= input.len(),
    ensures
        ({
            let typed = edit_result(input, cursor, LineEdit::AddChar(c));
            edit_result(typed.0, typed.1, LineEdit::DeleteCharBeforeCursor) == (input, cursor)
        }),
{
    assert(input.insert(cursor as int, c).remove(cursor as int) =~= input);
}

/// No edit moves the cursor out of the text.
pub proof fn law_edit_keeps_cursor_in_text(input: Seq<char>, cursor: nat, edit: LineEdit)
    requires
        cursor <= input.len(),
    ensures
        edit_result(input, cursor, edit).1 <= edit_result(input, cursor, edit).0.len(),
{
}

/// Moving the cursor changes only the cursor.
pub proof fn law_moves_keep_the_text(input: Seq<char>, cursor: nat)
    ensures
        edit_result(input, cursor, LineEdit::MoveCursorLeft).0 == input,
        edit_result(input, cursor, LineEdit::MoveCursorRight).0 == input,
{
}

/// Single-line text editor.
pub struct LineEditor {
    input: Vec<char>,
    cursor: usize,
}

impl View for LineEditor {
    type V = (Seq<char>, nat);

    closed spec fn view(&self) -> (Seq<char>, nat) {
        (self.input@, self.cursor as nat)
    }
}

impl LineEditor {
    /// The cursor never leaves the text.
    #[verifier::type_invariant]
    closed spec fn cursor_in_text(&self) -> bool {
        self.cursor <= self.input@.len()
    }

    /// The cursor is within the text.
    pub fn lemma_cursor_in_text(&self)
        ensures
            self@.1 <= self@.0.len(),
    {
        proof {
            use_type_invariant(self);
        }
    }

    pub fn new() -> (r: LineEditor)
        ensures
            r@ == (Seq::<char>::empty(), 0nat),
    {
        LineEditor { input: Vec::new(), cursor: 0 }
    }

    /// Apply an edit.
    pub fn edit(&mut self, edit: LineEdit)
        requires
            old(self)@.0.len() < usize::MAX,
        ensures
            final(self)@ == edit_result(old(self)@.0, old(self)@.1, edit),
    {
        proof {
            use_type_invariant(&*self);
        }
        match edit {
            LineEdit::AddChar(ch) => {
                let c = self.cursor;
                let mut input: Vec<char> = Vec::new();
                self.cursor = 0;
                std::mem::swap(&mut input, &mut self.input);
                input.insert(c, ch);
                std::mem::swap(&mut input, &mut self.input);
                self.cursor = c + 1;
            },
            LineEdit::DeleteCharBeforeCursor => {
                if self.cursor > 0 {
                    let c = self.cursor - 1;
                    let mut input: Vec<char> = Vec::new();
                    self.cursor = 0;
                    std::mem::swap(&mut input, &mut self.input);
                    input.remove(c);
                    std::mem::swap(&mut input, &mut self.input);
                    self.cursor = c;
                }
            },
            LineEdit::MoveCursorLeft => {
                if self.cursor > 0 {
                    self.cursor = self.cursor - 1;
                }
            },
            LineEdit::MoveCursorRight => {
                if self.cursor < self.input.len() {
                    self.cursor = self.cursor + 1;
                }
            },
        }
    }

    /// Number of characters in the input.
    pub fn len(&self) -> (r: usize)
        ensures
            r == self@.0.len(),
    {
        self.input.len()
    }

    pub fn is_empty(&self) -> (r: bool)
        ensures
            r == (self@.0.len() == 0),
    {
        self.input.len() == 0
    }

    /// The cursor position, in characters.
    pub fn cursor(&self) -> (r: usize)
        ensures
            r == self@.1,
    {
        self.cursor
    }

    /// The current input as a string.
    pub fn input(&self) -> (r: String)
        ensures
            r@ == self@.0,
    {
        string_from_chars(self.input.as_slice())
    }

    /// The input split at the cursor.
    pub fn at_cursor(&self) -> (r: InputAtCursor)
        ensures
            r.before@ == self@.0.take(self@.1 as int),
            r.from_cursor@ == self@.0.skip(self@.1 as int),
    {
        proof {
            use_type_invariant(self);
        }
        let s = self.input.as_slice();
        let before = vstd::slice::slice_subrange(s, 0, self.cursor);
        let from_cursor = vstd::slice::slice_subrange(s, self.cursor, s.len());
        InputAtCursor { before, from_cursor }
    }

    /// The input with a block cursor character at the cursor position.
    pub fn input_with_cursor(&self) -> (r: String)
        ensures
            r@ == self@.0.take(self@.1 as int) + seq!['\u{2588}'] + self@.0.skip(self@.1 as int),
    {
        proof {
            use_type_invariant(self);
        }
        let mut out: Vec<char> = Vec::new();
        let mut i: usize = 0;
        while i < self.input.len()
            invariant
                self.cursor <= self.input@.len(),
                i <= self.input@.len(),
                i <= self.cursor ==> out@ == self.input@.take(i as int),
                i > self.cursor ==> out@ == self.input@.take(self.cursor as int) + seq!['\u{2588}']
                    + self.input@.subrange(self.cursor as int, i as int),
            decreases self.input@.len() - i,
        {
            if i == self.cursor {
                out.push('\u{2588}');
            }
            out.push(self.input[i]);
            i += 1;
            proof {
                if i <= self.cursor {
                    assert(out@ =~= self.input@.take(i as int));
                } else {
                    assert(out@ =~= self.input@.take(self.cursor as int) + seq!['\u{2588}']
                        + self.input@.subrange(self.cursor as int, i as int));
                }
            }
        }
        if self.cursor == self.input.len() {
            out.push('\u{2588}');
        }
        proof {
            assert(out@ =~= self.input@.take(self.cursor as int) + seq!['\u{2588}'] + self.input@.skip(
                self.cursor as int,
            ));
        }
        string_from_chars(out.as_slice())
    }
}

} // verus!
