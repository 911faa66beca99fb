//! What the pager does with a key press: the key bindings of the view and of
//! the search prompt, and the page operation each one runs. The event loop,
//! the terminal and the easing of animated scrolls stay with the program.

use vstd::prelude::*;

use crate::line::{Line, Row};
use crate::line_editor::{edit_result, LineEdit};
use crate::pager::layout::{backward_anchor, forward_anchor, last_page_anchor};
use crate::pager::{
    current_in_page, jump_anchor, next_match, query_edited, revealed, submitted, Pager, PagerMode,
};
use crate::scroll::ScrollMode;
use crate::search::{search_spec, SearchDirection, SearchFrom, SearchState};

verus! {

/// A key, as the pager reads it from the terminal.
#[derive(Debug, Clone, Copy, PartialEq, Eq, Structural)]
pub enum Key {
    Char(char),
    Esc,
    Enter,
    Backspace,
    Left,
    Right,
    Up,
    Down,
    /// Any other key; no binding uses it.
    Other,
}

/// A key press: the key and whether Control was held.
#[derive(Debug, Clone, Copy, PartialEq, Eq, Structural)]
pub struct KeyPress {
    pub key: Key,
    pub ctrl: bool,
}

/// What a key asks of the page while it is being viewed.
#[derive(Debug, Clone, Copy, PartialEq, Eq, Structural)]
pub enum ViewCommand {
    Quit,
    /// Scroll by this many rows at once (negative is up).
    ScrollBy(i32),
    /// Scroll by this many rows, eased over several frames when scrolling is smooth.
    ScrollEased(i32),
    JumpToStart,
    JumpToEnd,
    StartSearch(SearchDirection),
    /// Go to the next match; `true` goes against the search direction.
    NextMatch(bool),
    Nothing,
}

/// What a key asks of the search prompt.
#[derive(Debug, Clone, Copy, PartialEq, Eq, Structural)]
pub enum SearchCommand {
    Submit,
    Cancel,
    Edit(LineEdit),
    Nothing,
}

/// What the program is to do after a key press.
#[derive(Debug, Clone, Copy, PartialEq, Eq, Structural)]
pub enum AppAction {
    /// Go on; `changed` says whether the page is to be drawn again, and
    /// `stop_animation` whether a running eased scroll is to be dropped.
    Continue { changed: bool, stop_animation: bool },
    /// Add this many rows to the eased scroll in progress.
    Impulse(i32),
    Quit,
}

/// The key bindings of the view. `content_height` is the number of rows of
/// content, which sets how far the page keys scroll.
pub open spec fn view_command_spec(press: KeyPress, content_height: i32) -> ViewCommand {
    let half = content_height / 2;
    match press.key {
        Key::Esc => ViewCommand::Quit,
        Key::Down => ViewCommand::ScrollBy(1i32),
        Key::Up => ViewCommand::ScrollBy(-1i32),
        Key::Char(c) => if c == 'q' || (c == 'c' && press.ctrl) {
            ViewCommand::Quit
        } else if c == 'j' {
            ViewCommand::ScrollBy(1i32)
        } else if c == 'k' {
            ViewCommand::ScrollBy(-1i32)
        } else if c == 'd' {
            ViewCommand::ScrollEased(half as i32)
        } else if c == 'u' {
            ViewCommand::ScrollEased(-half as i32)
        } else if c == 'f' || c == ' ' {
            ViewCommand::ScrollEased(content_height)
        } else if c == 'b' {
            ViewCommand::ScrollEased(-content_height as i32)
        } else if c == 'g' {
            ViewCommand::JumpToStart
        } else if c == 'G' {
            ViewCommand::JumpToEnd
        } else if c == '/' {
            ViewCommand::StartSearch(SearchDirection::Forward)
        } else if c == '?' {
            ViewCommand::StartSearch(SearchDirection::Backward)
        } else if c == 'n' {
            ViewCommand::NextMatch(false)
        } else if c == 'N' {
            ViewCommand::NextMatch(true)
        } else {
            ViewCommand::Nothing
        },
        _ => ViewCommand::Nothing,
    }
}

/// The key bindings of the search prompt. Backspace on an empty input closes
/// the prompt.
pub open spec fn search_command_spec(press: KeyPress, has_input: bool) -> SearchCommand {
    match press.key {
        Key::Enter => SearchCommand::Submit,
        Key::Esc => SearchCommand::Cancel,
        Key::Backspace => if has_input {
            SearchCommand::Edit(LineEdit::DeleteCharBeforeCursor)
        } else {
            SearchCommand::Cancel
        },
        Key::Char(c) => SearchCommand::Edit(LineEdit::AddChar(c)),
        Key::Left => SearchCommand::Edit(LineEdit::MoveCursorLeft),
        Key::Right => SearchCommand::Edit(LineEdit::MoveCursorRight),
        _ => SearchCommand::Nothing,
    }
}

/// In the search prompt the arrow keys move the cursor over the input,
/// leaving the text alone: Right one place right unless it is at the end,
/// Left one place left unless it is at the start.
pub proof fn law_arrows_move_the_prompt_cursor(input: Seq<char>, cursor: nat, has_input: bool, ctrl: bool)
    requires
        cursor <= input.len(),
    ensures
        search_command_spec(KeyPress { key: Key::Right, ctrl }, has_input) matches SearchCommand::Edit(e)
            && edit_result(input, cursor, e) == (input, if cursor < input.len() {
            cursor + 1
        } else {
            cursor
        }),
        search_command_spec(KeyPress { key: Key::Left, ctrl }, has_input) matches SearchCommand::Edit(e)
            && edit_result(input, cursor, e) == (input, if cursor > 0 {
            (cursor - 1) as nat
        } else {
            cursor
        }),
{
}

/// In the search prompt, typing a character puts it at the cursor and moves
/// the cursor past it; Backspace takes out the character before the cursor,
/// or closes the prompt when the input is empty; Enter submits and Esc
/// cancels.
pub proof fn law_prompt_keys_edit_at_the_cursor(input: Seq<char>, cursor: nat, c: char, ctrl: bool)
    requires
        cursor <= input.len(),
    ensures
        search_command_spec(KeyPress { key: Key::Char(c), ctrl }, input.len() > 0) matches SearchCommand::Edit(e)
            && edit_result(input, cursor, e) == (input.insert(cursor as int, c), cursor + 1),
        input.len() > 0 ==> (search_command_spec(KeyPress { key: Key::Backspace, ctrl }, true) matches SearchCommand::Edit(
            e,
        ) && edit_result(input, cursor, e) == if cursor > 0 {
            (input.remove(cursor - 1), (cursor - 1) as nat)
        } else {
            (input, cursor)
        }),
        search_command_spec(KeyPress { key: Key::Backspace, ctrl }, false) == SearchCommand::Cancel,
        search_command_spec(KeyPress { key: Key::Enter, ctrl }, input.len() > 0) == SearchCommand::Submit,
        search_command_spec(KeyPress { key: Key::Esc, ctrl }, input.len() > 0) == SearchCommand::Cancel,
{
}

/// The view keys come in opposite pairs, whatever the height of the page:
/// `j` and Down scroll one row down and `k` and Up one row up; `d` and `u`
/// scroll half the content height down and up, `f` (or space) and `b` all
/// of it; `g` and `G` jump to the start and the end; `/` and `?` start a
/// search forward and backward; `q`, Esc and Ctrl-C quit.
pub proof fn law_view_keys_come_in_opposite_pairs(height: i32, ctrl: bool)
    requires
        height >= 0,
    ensures
        view_command_spec(KeyPress { key: Key::Char('j'), ctrl }, height) == ViewCommand::ScrollBy(1i32),
        view_command_spec(KeyPress { key: Key::Down, ctrl }, height) == ViewCommand::ScrollBy(1i32),
        view_command_spec(KeyPress { key: Key::Char('k'), ctrl }, height) == ViewCommand::ScrollBy(-1i32),
        view_command_spec(KeyPress { key: Key::Up, ctrl }, height) == ViewCommand::ScrollBy(-1i32),
        view_command_spec(KeyPress { key: Key::Char('d'), ctrl }, height) matches ViewCommand::ScrollEased(down)
            && view_command_spec(KeyPress { key: Key::Char('u'), ctrl }, height) matches ViewCommand::ScrollEased(up)
            && down == height / 2 && up == -down,
        view_command_spec(KeyPress { key: Key::Char('f'), ctrl }, height) == ViewCommand::ScrollEased(height),
        view_command_spec(KeyPress { key: Key::Char(' '), ctrl }, height) == ViewCommand::ScrollEased(height),
        view_command_spec(KeyPress { key: Key::Char('b'), ctrl }, height) matches ViewCommand::ScrollEased(up)
            && up == -height,
        view_command_spec(KeyPress { key: Key::Char('g'), ctrl }, height) == ViewCommand::JumpToStart,
        view_command_spec(KeyPress { key: Key::Char('G'), ctrl }, height) == ViewCommand::JumpToEnd,
        view_command_spec(KeyPress { key: Key::Char('/'), ctrl }, height) == ViewCommand::StartSearch(
            SearchDirection::Forward,
        ),
        view_command_spec(KeyPress { key: Key::Char('?'), ctrl }, height) == ViewCommand::StartSearch(
            SearchDirection::Backward,
        ),
        view_command_spec(KeyPress { key: Key::Char('q'), ctrl }, height) == ViewCommand::Quit,
        view_command_spec(KeyPress { key: Key::Esc, ctrl }, height) == ViewCommand::Quit,
        view_command_spec(KeyPress { key: Key::Char('c'), ctrl: true }, height) == ViewCommand::Quit,
{
}

/// `n` steps to the next match in the search's own direction and `N` in the
/// other one, whatever the height of the page and whether Ctrl is held: from
/// the match shown, `n` searches on in the direction of the search.
pub proof fn law_n_and_shift_n_step_in_opposite_directions(
    height: i32,
    ctrl: bool,
    lines: Seq<Line>,
    rows: Seq<Row>,
    s: SearchState,
)
    requires
        height >= 0,
    ensures
        view_command_spec(KeyPress { key: Key::Char('n'), ctrl }, height) matches ViewCommand::NextMatch(rn)
            && view_command_spec(KeyPress { key: Key::Char('N'), ctrl }, height) matches ViewCommand::NextMatch(rb)
            && rn != rb && (current_in_page(lines, rows, Some(s)) matches Some(c) ==> next_match(
            lines,
            rows,
            Some(s),
            rn,
        ) == search_spec(lines, s.query@, SearchFrom::NextOf(c), s.direction)),
{
}

/// The command a key runs in the view.
pub fn view_command(press: KeyPress, content_height: i32) -> (c: ViewCommand)
    requires
        content_height >= 0,
    ensures
        c == view_command_spec(press, content_height),
{
    let half = content_height / 2;
    match press.key {
        Key::Esc => ViewCommand::Quit,
        Key::Down => ViewCommand::ScrollBy(1i32),
        Key::Up => ViewCommand::ScrollBy(-1i32),
        Key::Char(c) => {
            if c == 'q' || (c == 'c' && press.ctrl) {
                ViewCommand::Quit
            } else if c == 'j' {
                ViewCommand::ScrollBy(1i32)
            } else if c == 'k' {
                ViewCommand::ScrollBy(-1i32)
            } else if c == 'd' {
                ViewCommand::ScrollEased(half)
            } else if c == 'u' {
                ViewCommand::ScrollEased(-half)
            } else if c == 'f' || c == ' ' {
                ViewCommand::ScrollEased(content_height)
            } else if c == 'b' {
                ViewCommand::ScrollEased(-content_height)
            } else if c == 'g' {
                ViewCommand::JumpToStart
            } else if c == 'G' {
                ViewCommand::JumpToEnd
            } else if c == '/' {
                ViewCommand::StartSearch(SearchDirection::Forward)
            } else if c == '?' {
                ViewCommand::StartSearch(SearchDirection::Backward)
            } else if c == 'n' {
                ViewCommand::NextMatch(false)
            } else if c == 'N' {
                ViewCommand::NextMatch(true)
            } else {
                ViewCommand::Nothing
            }
        },
        _ => ViewCommand::Nothing,
    }
}

/// The command a key runs in the search prompt.
pub fn search_command(press: KeyPress, has_input: bool) -> (c: SearchCommand)
    ensures
        c == search_command_spec(press, has_input),
{
    match press.key {
        Key::Enter => SearchCommand::Submit,
        Key::Esc => SearchCommand::Cancel,
        Key::Backspace => {
            if has_input {
                SearchCommand::Edit(LineEdit::DeleteCharBeforeCursor)
            } else {
                SearchCommand::Cancel
            }
        },
        Key::Char(c) => SearchCommand::Edit(LineEdit::AddChar(c)),
        Key::Left => SearchCommand::Edit(LineEdit::MoveCursorLeft),
        Key::Right => SearchCommand::Edit(LineEdit::MoveCursorRight),
        _ => SearchCommand::Nothing,
    }
}

/// `rows` kept within one screenful of content either way.
pub open spec fn clamp_rows(rows: i32, max: i32) -> int {
    if rows < -max {
        -max
    } else if rows > max {
        max as int
    } else {
        rows as int
    }
}

/// The rows of content of `p`.
pub open spec fn content_height_of(p: Pager) -> int {
    p.spec_frame().spec_content().len() as int
}

/// `after` is `before` scrolled by `n` rows, as `Pager::scroll` does it.
pub open spec fn scrolled_by(before: Pager, after: Pager, n: int) -> bool {
    let lines = before.spec_doc().spec_lines();
    let width = before.spec_layout().size.width as nat;
    &&& after.wf()
    &&& after.spec_search() == before.spec_search()
    &&& after.spec_doc() == before.spec_doc()
    &&& after.spec_layout() == before.spec_layout()
    &&& after.spec_mode() == before.spec_mode()
    &&& n == 0 ==> after.spec_frame() == before.spec_frame()
    &&& n < 0 ==> after.shows(backward_anchor(lines, width, before.spec_frame_anchor(), -n))
    &&& n > 0 ==> after.shows(forward_anchor(lines, width, before.spec_frame_anchor(), n))
}

/// Scroll the page by `rows`, never further than one screenful of content in
/// one step. Returns whether the page moved.
pub fn apply_scroll(pager: &mut Pager, rows: i32) -> (r: bool)
    requires
        old(pager).wf(),
        content_height_of(*old(pager)) <= i32::MAX,
    ensures
        ({
            let n = if rows == 0 {
                0
            } else {
                clamp_rows(rows, content_height_of(*old(pager)) as i32)
            };
            &&& scrolled_by(*old(pager), *final(pager), n)
            &&& r == (n != 0 && final(pager).spec_frame_anchor() != old(pager).spec_frame_anchor())
        }),
{
    if rows == 0 {
        return false;
    }
    let max = pager.content_height() as i32;
    let clamped = if rows < -max {
        -max
    } else if rows > max {
        max
    } else {
        rows
    };
    if clamped == 0 {
        return false;
    }
    pager.scroll(clamped)
}

/// Run the view command `c`.
fn run_view_command(pager: &mut Pager, c: ViewCommand, scroll_mode: ScrollMode) -> (r: AppAction)
    requires
        old(pager).wf(),
        content_height_of(*old(pager)) <= i32::MAX,
    ensures
        final(pager).wf(),
        view_effect(*old(pager), *final(pager), c, scroll_mode, r),
{
    match c {
        ViewCommand::Quit => AppAction::Quit,
        ViewCommand::Nothing => AppAction::Continue { changed: false, stop_animation: false },
        ViewCommand::ScrollBy(n) => {
            let changed = apply_scroll(pager, n);
            AppAction::Continue { changed, stop_animation: true }
        },
        ViewCommand::ScrollEased(n) => match scroll_mode {
            ScrollMode::Smooth => AppAction::Impulse(n),
            ScrollMode::Instant => {
                let changed = apply_scroll(pager, n);
                AppAction::Continue { changed, stop_animation: true }
            },
        },
        ViewCommand::JumpToStart => {
            let changed = pager.jump_to(0);
            AppAction::Continue { changed, stop_animation: true }
        },
        ViewCommand::JumpToEnd => {
            let changed = pager.jump_to_end();
            AppAction::Continue { changed, stop_animation: true }
        },
        ViewCommand::StartSearch(direction) => {
            let changed = pager.start_search_input(direction);
            AppAction::Continue { changed, stop_animation: false }
        },
        ViewCommand::NextMatch(reverse) => {
            let changed = pager.jump_to_next_match(reverse);
            AppAction::Continue { changed, stop_animation: true }
        },
    }
}

/// What running view command `c` does to the pager and answers, for each
/// command the page operation it runs.
pub open spec fn view_effect(before: Pager, after: Pager, c: ViewCommand, scroll_mode: ScrollMode, r: AppAction) -> bool {
    let lines = before.spec_doc().spec_lines();
    let same = after == before;
    match c {
        ViewCommand::Quit => r == AppAction::Quit && same,
        ViewCommand::Nothing => r == (AppAction::Continue { changed: false, stop_animation: false }) && same,
        ViewCommand::ScrollBy(n) => scroll_effect(before, after, n, r),
        ViewCommand::ScrollEased(n) => match scroll_mode {
            ScrollMode::Smooth => r == AppAction::Impulse(n) && same,
            ScrollMode::Instant => scroll_effect(before, after, n, r),
        },
        ViewCommand::JumpToStart => {
            &&& r == (AppAction::Continue { changed: true, stop_animation: true })
            &&& after.spec_doc() == before.spec_doc()
            &&& after.spec_mode() == before.spec_mode()
            &&& after.spec_search() == before.spec_search()
            &&& after.shows(jump_anchor(lines, before.spec_layout(), before.spec_frame().spec_header().len(), 0))
        },
        ViewCommand::JumpToEnd => {
            &&& r == (AppAction::Continue { changed: true, stop_animation: true })
            &&& after.spec_doc() == before.spec_doc()
            &&& after.spec_mode() == before.spec_mode()
            &&& after.spec_search() == before.spec_search()
            &&& after.shows(
                last_page_anchor(
                    lines,
                    before.spec_layout().size.width as nat,
                    before.spec_layout().size.height,
                ),
            )
        },
        ViewCommand::StartSearch(direction) => {
            &&& r == (AppAction::Continue { changed: true, stop_animation: false })
            &&& after.spec_frame() == before.spec_frame()
            &&& after.spec_mode() matches PagerMode::SearchInput(m) && m.direction == direction
                && m.editor@.0.len() == 0
        },
        ViewCommand::NextMatch(reverse) => {
            &&& r matches AppAction::Continue { changed, stop_animation } && stop_animation
            &&& after.spec_mode() == before.spec_mode()
            &&& after.spec_doc() == before.spec_doc()
            &&& (r == (AppAction::Continue { changed: true, stop_animation: true })) == (next_match(
                lines,
                before.spec_page_rows(),
                before.spec_search(),
                reverse,
            ) is Some)
            &&& match next_match(lines, before.spec_page_rows(), before.spec_search(), reverse) {
                None => after.spec_frame() == before.spec_frame() && after.spec_search() == before.spec_search(),
                Some(pos) => {
                    &&& revealed(before, after, pos)
                    &&& after.spec_search() matches Some(s)
                    &&& before.spec_search() matches Some(o)
                    &&& s.query == o.query
                    &&& s.direction == o.direction
                    &&& s.current == Some(pos)
                },
            }
        },
    }
}

/// Scrolling by `n` rows at once, as `apply_scroll` does it.
pub open spec fn scroll_effect(before: Pager, after: Pager, n: i32, r: AppAction) -> bool {
    let m = if n == 0 {
        0
    } else {
        clamp_rows(n, content_height_of(before) as i32)
    };
    &&& scrolled_by(before, after, m)
    &&& r == (AppAction::Continue {
        changed: m != 0 && after.spec_frame_anchor() != before.spec_frame_anchor(),
        stop_animation: true,
    })
}

/// Run the search prompt command `c`. Returns whether the page changed.
fn run_search_command(pager: &mut Pager, c: SearchCommand) -> (r: bool)
    requires
        old(pager).wf(),
    ensures
        final(pager).wf(),
        final(pager).spec_doc() == old(pager).spec_doc(),
        c is Nothing ==> !r && *final(pager) == *old(pager),
        c is Cancel ==> r && final(pager).spec_mode() is View && final(pager).spec_search()
            == old(pager).spec_search(),
        c is Submit ==> submitted(*old(pager), *final(pager), r),
        c matches SearchCommand::Edit(e) ==> query_edited(*old(pager), e, *final(pager), r),
{
    match c {
        SearchCommand::Submit => pager.submit_search(),
        SearchCommand::Cancel => pager.cancel_search_input(),
        SearchCommand::Edit(edit) => pager.update_search_query(edit),
        SearchCommand::Nothing => false,
    }
}

/// Handle a key press: the view keys while the page is viewed, the prompt
/// keys while a search query is typed.
pub fn handle_key(pager: &mut Pager, press: KeyPress, scroll_mode: ScrollMode) -> (r: AppAction)
    requires
        old(pager).wf(),
        content_height_of(*old(pager)) <= i32::MAX,
    ensures
        final(pager).wf(),
        old(pager).spec_mode() is View ==> view_effect(
            *old(pager),
            *final(pager),
            view_command_spec(press, content_height_of(*old(pager)) as i32),
            scroll_mode,
            r,
        ),
        old(pager).spec_mode() matches PagerMode::SearchInput(m) ==> {
            let c = search_command_spec(press, m.editor@.0.len() > 0);
            &&& r matches AppAction::Continue { changed, stop_animation } && !stop_animation
            &&& final(pager).spec_doc() == old(pager).spec_doc()
            &&& c is Nothing ==> *final(pager) == *old(pager) && r == (AppAction::Continue {
                changed: false,
                stop_animation: false,
            })
            &&& c is Cancel ==> final(pager).spec_mode() is View && final(pager).spec_search()
                == old(pager).spec_search() && r == (AppAction::Continue { changed: true, stop_animation: false })
            &&& c is Submit ==> (r matches AppAction::Continue { changed, .. } && submitted(
                *old(pager),
                *final(pager),
                changed,
            ))
            &&& c matches SearchCommand::Edit(e) ==> r == (AppAction::Continue {
                changed: true,
                stop_animation: false,
            }) && query_edited(*old(pager), e, *final(pager), true)
        },
{
    let is_view = match pager.mode() {
        PagerMode::View => true,
        PagerMode::SearchInput(_) => false,
    };
    if is_view {
        let height = pager.content_height() as i32;
        let c = view_command(press, height);
        run_view_command(pager, c, scroll_mode)
    } else {
        let c = search_command(press, pager.has_search_input());
        let changed = run_search_command(pager, c);
        AppAction::Continue { changed, stop_animation: false }
    }
}

/// Where the input comes from.
#[derive(Debug, Clone, Copy, PartialEq, Eq, Structural)]
pub enum InputSource {
    File,
    Stdin,
}

/// What to do with the input at startup.
#[derive(Debug, Clone, Copy, PartialEq, Eq, Structural)]
pub enum Startup {
    /// Copy the input to the output unchanged, as there is no screen to page
    /// on.
    Relay(InputSource),
    /// Page the input. Before the pager opens, wait until more than
    /// `wait_for` lines have arrived or the input ends; with `-F`, print the
    /// input instead when it fits in `one_screen` rows.
    Page { source: InputSource, wait_for: usize, one_screen: usize },
    /// No file was named and standard input is a terminal.
    UsageError,
}

/// The startup decision: without a terminal on standard output the input is
/// relayed; otherwise it is paged. The input is the named file, or else
/// standard input when that is not a terminal, and there is none otherwise.
/// With `-F` the pager waits for a screenful of lines, the screen's height
/// less the rows kept for the shell, to see whether the input fits.
pub open spec fn startup_spec(
    stdout_is_terminal: bool,
    stdin_is_terminal: bool,
    has_file: bool,
    quit_if_one_screen: bool,
    screen_height: usize,
    shell_lines: usize,
) -> Startup {
    let source = if has_file {
        Some(InputSource::File)
    } else if !stdin_is_terminal {
        Some(InputSource::Stdin)
    } else {
        None
    };
    match source {
        None => Startup::UsageError,
        Some(src) => if !stdout_is_terminal {
            Startup::Relay(src)
        } else {
            let one_screen = if screen_height >= shell_lines {
                (screen_height - shell_lines) as usize
            } else {
                0
            };
            Startup::Page { source: src, wait_for: if quit_if_one_screen { one_screen } else { 0 }, one_screen }
        },
    }
}

/// Decide what to do with the input at startup.
pub fn startup_plan(
    stdout_is_terminal: bool,
    stdin_is_terminal: bool,
    has_file: bool,
    quit_if_one_screen: bool,
    screen_height: usize,
    shell_lines: usize,
) -> (r: Startup)
    ensures
        r == startup_spec(
            stdout_is_terminal,
            stdin_is_terminal,
            has_file,
            quit_if_one_screen,
            screen_height,
            shell_lines,
        ),
{
    let source = if has_file {
        InputSource::File
    } else if !stdin_is_terminal {
        InputSource::Stdin
    } else {
        return Startup::UsageError;
    };
    if !stdout_is_terminal {
        return Startup::Relay(source);
    }
    let one_screen = screen_height.saturating_sub(shell_lines);
    let wait_for = if quit_if_one_screen {
        one_screen
    } else {
        0
    };
    Startup::Page { source, wait_for, one_screen }
}

} // verus!
