use toss::document::Document;
use toss::options::{HeadingOptions, Options};
use toss::page::Page;
use toss::query::Query;

fn make_page(content: &str, options: Options, width: usize, height: usize) -> Page {
    let doc = Document::from_string(content.to_string());
    Page::new(doc, options, width, height)
}

#[test]
fn fits_when_fewer_lines_than_screen() {
    // Screen height 5, shell_lines 1: available = 4. 3 lines <= 4.
    let page = make_page("line 1\nline 2\nline 3", Options::default(), 80, 5);
    assert_eq!(page.content_fits_on_screen(5, 1), true);
}

#[test]
fn fits_when_lines_equal_available() {
    // Screen height 5, shell_lines 1: available = 4. 4 lines <= 4.
    let page = make_page("line 1\nline 2\nline 3\nline 4", Options::default(), 80, 5);
    assert_eq!(page.content_fits_on_screen(5, 1), true);
}

#[test]
fn does_not_fit_when_lines_exceed_screen() {
    // Screen height 5, shell_lines 1: available = 4. 5 lines > 4.
    let page = make_page(
        "line 1\nline 2\nline 3\nline 4\nline 5",
        Options::default(),
        80,
        5,
    );
    assert_eq!(page.content_fits_on_screen(5, 1), false);
}

#[test]
fn shell_lines_reduces_available_space() {
    // Screen height 5, shell_lines 2: available = 3. 4 lines > 3.
    let page = make_page("line 1\nline 2\nline 3\nline 4", Options::default(), 80, 5);
    assert_eq!(page.content_fits_on_screen(5, 2), false);
    // Same content with shell_lines 1: available = 4. 4 lines <= 4.
    assert_eq!(page.content_fits_on_screen(5, 1), true);
}

#[test]
fn wrapping_increases_row_count() {
    // "abcdefghij" (10 chars) wraps to 2 rows at width 5.
    // Screen height 5, shell_lines 1: available = 4. 2+1 = 3 rows <= 4.
    let page = make_page("abcdefghij\nshort", Options::default(), 5, 5);
    assert_eq!(page.content_fits_on_screen(5, 1), true);
    // Screen height 4, shell_lines 1: available = 3. 3 rows <= 3.
    assert_eq!(page.content_fits_on_screen(4, 1), true);
    // Screen height 3, shell_lines 1: available = 2. 3 rows > 2.
    assert_eq!(page.content_fits_on_screen(3, 1), false);
}

#[test]
fn empty_document_fits() {
    let page = make_page("", Options::default(), 80, 5);
    assert_eq!(page.content_fits_on_screen(5, 1), true);
}

fn numbered(n: usize) -> String {
    (0..n).map(|i| format!("line{i}")).collect::<Vec<_>>().join("\n")
}

#[test]
fn page_content_starts_below_the_fixed_header() {
    let options = Options { header: 2, ..Options::default() };
    let mut page = make_page(&numbered(20), options, 20, 6);
    // 6 rows: 2 header rows, 1 status row, 3 content rows.
    assert_eq!(page.viewport.rows().len(), 3);
    assert_eq!(page.viewport.rows()[0].line_index, 2);
    let layout = page.resolve_header();
    assert_eq!(layout.fixed_height(), 2);
    assert_eq!(layout.overlay_height(), 0);
}

#[test]
fn page_scroll_moves_the_content() {
    let mut page = make_page(&numbered(20), Options::default(), 20, 5);
    let plan = page.plan_scroll(2).expect("moved");
    assert_eq!(plan.terminal_scroll.get(), 2);
    assert_eq!(page.viewport.rows()[0].line_index, 2);
    let plan = page.plan_scroll(-1).expect("moved");
    assert_eq!(plan.terminal_scroll.get(), 1);
    assert_eq!(page.viewport.rows()[0].line_index, 1);
    assert!(page.plan_scroll(0).is_none());
}

#[test]
fn page_jump_shows_the_line_below_the_sticky_heading() {
    let mut lines: Vec<String> = (0..30).map(|i| format!("line{i}")).collect();
    lines[10] = "# section".to_string();
    let options = Options {
        heading: Some(HeadingOptions { pattern: Query::new("^# ").unwrap(), num_lines: 2 }),
        ..Options::default()
    };
    let mut page = make_page(&lines.join("\n"), options, 20, 8);
    assert!(page.jump_to_visible(15));
    let layout = page.resolve_header_synced();
    let overlay = layout.overlay_height();
    let rows = page.viewport.rows();
    let at = rows.iter().position(|r| r.line_index == 15).expect("line 15 shows");
    assert!(at >= overlay, "line 15 at row {at} under an overlay of {overlay}");
}

#[test]
fn page_resize_changes_the_content_height() {
    let mut page = make_page(&numbered(20), Options::default(), 20, 5);
    page.resize(10, 8);
    assert_eq!(page.viewport.width(), 10);
    assert_eq!(page.viewport.rows().len(), 7);
}
