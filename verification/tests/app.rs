use toss::app::{
    apply_scroll, handle_key, search_command, startup_plan, view_command, AppAction, InputSource, Key,
    KeyPress, SearchCommand, Startup, ViewCommand,
};
use toss::document::Document;
use toss::line::Row;
use toss::line_editor::LineEdit;
use toss::options::Options;
use toss::pager::{Pager, PagerMode};
use toss::screen::ScreenSize;
use toss::scroll::ScrollMode;
use toss::search::SearchDirection;

fn press(c: char) -> KeyPress {
    KeyPress { key: Key::Char(c), ctrl: false }
}

fn key(k: Key) -> KeyPress {
    KeyPress { key: k, ctrl: false }
}

fn pager_with(n: usize, height: u16) -> Pager {
    let s = (0..n).map(|i| format!("line{i}")).collect::<Vec<_>>().join("\n");
    Pager::new(Document::from_string(s), Options::default(), ScreenSize::new(20, height))
}

fn top_line(pager: &Pager) -> usize {
    let rows: &[Row] = pager.snapshot().content;
    rows[0].line_index()
}

#[test]
fn keys_view_bindings() {
    assert_eq!(view_command(press('q'), 10), ViewCommand::Quit);
    assert_eq!(view_command(key(Key::Esc), 10), ViewCommand::Quit);
    assert_eq!(view_command(KeyPress { key: Key::Char('c'), ctrl: true }, 10), ViewCommand::Quit);
    assert_eq!(view_command(press('c'), 10), ViewCommand::Nothing);
    assert_eq!(view_command(press('j'), 10), ViewCommand::ScrollBy(1));
    assert_eq!(view_command(key(Key::Up), 10), ViewCommand::ScrollBy(-1));
    assert_eq!(view_command(press('d'), 9), ViewCommand::ScrollEased(4));
    assert_eq!(view_command(press('u'), 9), ViewCommand::ScrollEased(-4));
    assert_eq!(view_command(press(' '), 9), ViewCommand::ScrollEased(9));
    assert_eq!(view_command(press('b'), 9), ViewCommand::ScrollEased(-9));
    assert_eq!(view_command(press('g'), 9), ViewCommand::JumpToStart);
    assert_eq!(view_command(press('G'), 9), ViewCommand::JumpToEnd);
    assert_eq!(view_command(press('?'), 9), ViewCommand::StartSearch(SearchDirection::Backward));
    assert_eq!(view_command(press('N'), 9), ViewCommand::NextMatch(true));
    assert_eq!(view_command(key(Key::Enter), 9), ViewCommand::Nothing);
}

#[test]
fn keys_search_bindings() {
    assert_eq!(search_command(key(Key::Enter), true), SearchCommand::Submit);
    assert_eq!(search_command(key(Key::Esc), true), SearchCommand::Cancel);
    assert_eq!(
        search_command(key(Key::Backspace), true),
        SearchCommand::Edit(LineEdit::DeleteCharBeforeCursor)
    );
    assert_eq!(search_command(key(Key::Backspace), false), SearchCommand::Cancel);
    assert_eq!(search_command(press('x'), false), SearchCommand::Edit(LineEdit::AddChar('x')));
    assert_eq!(search_command(key(Key::Left), true), SearchCommand::Edit(LineEdit::MoveCursorLeft));
    assert_eq!(search_command(key(Key::Up), true), SearchCommand::Nothing);
}

#[test]
fn keys_navigate_up_down() {
    let mut pager = pager_with(10, 4);
    let r = handle_key(&mut pager, press('j'), ScrollMode::Smooth);
    assert_eq!(r, AppAction::Continue { changed: true, stop_animation: true });
    assert_eq!(top_line(&pager), 1);
    handle_key(&mut pager, key(Key::Down), ScrollMode::Smooth);
    assert_eq!(top_line(&pager), 2);
    handle_key(&mut pager, press('k'), ScrollMode::Smooth);
    assert_eq!(top_line(&pager), 1);
}

#[test]
fn keys_cannot_scroll_past_the_top() {
    let mut pager = pager_with(10, 4);
    let r = handle_key(&mut pager, press('k'), ScrollMode::Smooth);
    assert_eq!(r, AppAction::Continue { changed: false, stop_animation: true });
    assert_eq!(top_line(&pager), 0);
}

#[test]
fn keys_top_and_bottom() {
    let mut pager = pager_with(10, 4);
    handle_key(&mut pager, press('G'), ScrollMode::Smooth);
    assert_eq!(top_line(&pager), 7);
    handle_key(&mut pager, press('g'), ScrollMode::Smooth);
    assert_eq!(top_line(&pager), 0);
}

#[test]
fn keys_page_scroll_is_eased_unless_instant() {
    let mut pager = pager_with(20, 5);
    let height = pager.content_height() as i32;
    let r = handle_key(&mut pager, press('f'), ScrollMode::Smooth);
    assert_eq!(r, AppAction::Impulse(height));
    assert_eq!(top_line(&pager), 0);
    let r = handle_key(&mut pager, press('f'), ScrollMode::Instant);
    assert_eq!(r, AppAction::Continue { changed: true, stop_animation: true });
    assert_eq!(top_line(&pager), height as usize);
}

#[test]
fn keys_quit() {
    let mut pager = pager_with(3, 5);
    assert_eq!(handle_key(&mut pager, press('q'), ScrollMode::Smooth), AppAction::Quit);
}

#[test]
fn keys_search_prompt_round_trip() {
    let mut pager = pager_with(20, 5);
    handle_key(&mut pager, press('/'), ScrollMode::Smooth);
    assert!(matches!(pager.mode(), PagerMode::SearchInput(_)));
    for c in "line12".chars() {
        handle_key(&mut pager, press(c), ScrollMode::Smooth);
    }
    assert_eq!(top_line(&pager), 12);
    handle_key(&mut pager, key(Key::Enter), ScrollMode::Smooth);
    assert!(matches!(pager.mode(), PagerMode::View));
    handle_key(&mut pager, press('g'), ScrollMode::Smooth);
    let r = handle_key(&mut pager, press('n'), ScrollMode::Smooth);
    assert_eq!(r, AppAction::Continue { changed: true, stop_animation: true });
    // The match below the page is brought up to the bottom row.
    let rows: &[Row] = pager.snapshot().content;
    assert_eq!(rows[rows.len() - 1].line_index(), 12);
}

#[test]
fn keys_backspace_on_empty_prompt_closes_it() {
    let mut pager = pager_with(20, 5);
    handle_key(&mut pager, press('/'), ScrollMode::Smooth);
    handle_key(&mut pager, key(Key::Backspace), ScrollMode::Smooth);
    assert!(matches!(pager.mode(), PagerMode::View));
}

#[test]
fn keys_scroll_is_clamped_to_one_screen() {
    let mut pager = pager_with(50, 5);
    let height = pager.content_height();
    assert!(apply_scroll(&mut pager, 1000));
    assert_eq!(top_line(&pager), height);
    assert!(!apply_scroll(&mut pager, 0));
    assert_eq!(top_line(&pager), height);
}

#[test]
fn startup_relays_pages_or_refuses() {
    // No terminal on stdout: relay the file, or piped stdin.
    assert_eq!(startup_plan(false, true, true, false, 0, 1), Startup::Relay(InputSource::File));
    assert_eq!(startup_plan(false, false, false, false, 0, 1), Startup::Relay(InputSource::Stdin));
    // Nothing to read: a terminal on stdin and no file.
    assert_eq!(startup_plan(true, true, false, false, 24, 1), Startup::UsageError);
    assert_eq!(startup_plan(false, true, false, false, 0, 1), Startup::UsageError);
    // Paging: -F waits for a screenful less the shell lines.
    assert_eq!(
        startup_plan(true, false, false, true, 24, 1),
        Startup::Page { source: InputSource::Stdin, wait_for: 23, one_screen: 23 }
    );
    assert_eq!(
        startup_plan(true, true, true, false, 24, 30),
        Startup::Page { source: InputSource::File, wait_for: 0, one_screen: 0 }
    );
}
