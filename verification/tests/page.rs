use toss::pager::line::{PageLine, RowSpan};
use toss::pager::page::{EmptyPage, FilledPage};
use toss::query::Query;

#[test]
fn page_hold_lines_less_than_page_size() {
    let mut builder = FilledPage::builder(3);
    builder.push_back(PageLine::new((), "abc".to_string(), 3));
    builder.push_back(PageLine::new((), "def".to_string(), 3));
    let page = builder.into_page().expect("build page");
    assert_eq!(
        page.line_slices(0, page.row_len() - 1),
        vec![RowSpan::new("abc", 1), RowSpan::new("def", 1)]
    );
}

#[test]
fn page_move_page_across_lines() {
    let mut builder = FilledPage::builder(3);
    for chr in 'a'..='c' {
        builder.push_back(PageLine::new((), chr.to_string(), 3));
    }
    let mut page = builder.into_page().expect("build page");
    let initial = vec![
        RowSpan::new("a", 1),
        RowSpan::new("b", 1),
        RowSpan::new("c", 1),
    ];
    assert_eq!(page.line_slices(0, page.row_len() - 1), initial);

    assert_eq!(page.move_down_one_row(), false);
    assert_eq!(page.line_slices(0, page.row_len() - 1), initial);

    page.move_down_one_line(PageLine::new((), 'd'.to_string(), 3));
    assert_eq!(
        page.line_slices(0, page.row_len() - 1),
        vec![
            RowSpan::new("b", 1),
            RowSpan::new("c", 1),
            RowSpan::new("d", 1),
        ]
    );
}

#[test]
fn page_line_wraps_at_the_column_count() {
    let line = PageLine::new(7u32, "abcdefg".to_string(), 3);
    assert_eq!(line.row_len(), 3);
    assert_eq!(*line.meta(), 7);
    assert_eq!(line.slice(0, 0), RowSpan::new("abc", 1));
    assert_eq!(line.slice(1, 2), RowSpan::new("defg", 2));
}

#[test]
fn page_line_keeps_escape_sequences_in_its_rows() {
    // Wrapping counts the plain text; the rows hold the raw text.
    let line = PageLine::new((), "\x1b[31mabcd\x1b[0m".to_string(), 2);
    assert_eq!(line.plain(), "abcd");
    assert_eq!(line.row_len(), 2);
    assert_eq!(line.slice(0, 0), RowSpan::new("\x1b[31mab", 1));
    assert_eq!(line.slice(1, 1), RowSpan::new("cd\x1b[0m", 1));
}

#[test]
fn page_wide_characters_wrap_before_overflowing() {
    let line = PageLine::new((), "日本語".to_string(), 5);
    assert_eq!(line.row_len(), 2);
    assert_eq!(line.slice(0, 0), RowSpan::new("日本", 1));
    assert_eq!(line.slice(1, 1).line(), "語");
    assert_eq!(line.slice(1, 1).size(), 1);
}

fn page_of(lines: &[&str], n_cols: usize, rows: usize) -> FilledPage<()> {
    let mut builder = FilledPage::builder(rows);
    for l in lines {
        if !builder.push_back(PageLine::new((), l.to_string(), n_cols)) {
            break;
        }
    }
    builder.into_page().expect("build page")
}

#[test]
fn page_rows_of_wrapped_lines() {
    let mut page = page_of(&["aaaa", "bb"], 2, 3);
    assert_eq!(page.row_len(), 3);
    assert_eq!(page.start_row_span(), RowSpan::new("aaaa", 2));
    assert_eq!(page.end_row_span(), RowSpan::new("bb", 1));
    assert!(!page.can_move_up_one_row());
    assert!(!page.can_move_down_one_row());

    // The page is full, so its first row follows its last one down.
    page.move_down_one_line(PageLine::new((), "cccc".to_string(), 2));
    assert_eq!(page.row_len(), 3);
    assert_eq!(page.start_row_span(), RowSpan::new("aa", 1));
    assert_eq!(page.end_row_span(), RowSpan::new("cc", 1));
    assert_eq!(page.start_line().plain(), "aaaa");
    assert_eq!(page.end_line().plain(), "cccc");

    // And back up again.
    assert!(page.move_up_one_row());
    assert_eq!(page.start_row_span(), RowSpan::new("aaaa", 2));
    assert_eq!(page.end_row_span(), RowSpan::new("bb", 1));
}

#[test]
fn page_move_up_onto_a_new_line() {
    let mut page = page_of(&["b", "c", "d"], 3, 3);
    page.move_up_one_line(PageLine::new((), "a".to_string(), 3));
    assert_eq!(
        page.row_spans(),
        vec![
            RowSpan::new("a", 1),
            RowSpan::new("b", 1),
            RowSpan::new("c", 1),
        ]
    );
    assert_eq!(page.end_line().plain(), "c");
}

#[test]
fn page_writers_fill_again() {
    let page = page_of(&["x", "y"], 3, 2);
    let mut writer = page.forward_page_writer();
    assert!(writer.push_back(PageLine::new((), "p".to_string(), 3)));
    assert!(!writer.push_back(PageLine::new((), "qqqq".to_string(), 3)));
    let page = writer.write_to_page();
    assert_eq!(page.row_len(), 2);
    assert_eq!(page.end_row_span(), RowSpan::new("qqq", 1));

    let mut writer = page.backward_page_writer();
    assert!(!writer.push_front(PageLine::new((), "zzzzz".to_string(), 3)));
    let page = writer.write_to_page();
    assert_eq!(page.row_len(), 2);
    assert_eq!(page.start_row_span(), RowSpan::new("zzzzz", 2));
}

#[test]
fn page_find_first_match_line() {
    let page = page_of(&["foo", "bar", "baz"], 5, 3);
    let query = Query::new("^ba").unwrap();
    assert_eq!(page.find_first_match_line(&query).map(|l| l.plain()), Some("bar"));
    let none = Query::new("qux").unwrap();
    assert!(page.find_first_match_line(&none).is_none());
}

#[test]
fn page_empty_page_has_no_rows() {
    let page: EmptyPage<()> = EmptyPage::new();
    assert!(page.row_spans().is_empty());
}

#[test]
fn page_line_slices_cut_rows_out_of_the_page() {
    // Three lines of two, one and three rows; the page shows five rows.
    let page = page_of(&["abcd", "ef", "ghijkl"], 2, 5);
    assert_eq!(page.row_len(), 5);
    assert_eq!(
        page.line_slices(0, 4),
        vec![RowSpan::new("abcd", 2), RowSpan::new("ef", 1), RowSpan::new("ghij", 2)]
    );
    assert_eq!(page.line_slices(1, 1), vec![RowSpan::new("cd", 1)]);
    assert_eq!(
        page.line_slices(1, 3),
        vec![RowSpan::new("cd", 1), RowSpan::new("ef", 1), RowSpan::new("gh", 1)]
    );
    assert_eq!(page.line_slices(4, 4), vec![RowSpan::new("ij", 1)]);
}

#[test]
fn page_find_last_match_line_searches_back_from_the_last_row() {
    let page = page_of(&["bar", "foo", "baz", "qux"], 5, 3);
    let query = Query::new("^ba").unwrap();
    assert_eq!(page.find_last_match_line(&query).map(|l| l.plain()), Some("baz"));
    let foo = Query::new("foo").unwrap();
    assert_eq!(page.find_last_match_line(&foo).map(|l| l.plain()), Some("foo"));
    let none = Query::new("zzz").unwrap();
    assert!(page.find_last_match_line(&none).is_none());
}

#[test]
fn page_row_spans_stop_at_the_last_row_of_the_page() {
    let mut builder = FilledPage::builder(3);
    for s in ["a", "b", "c"] {
        builder.push_back(PageLine::new((), s.to_string(), 3));
    }
    let mut page = builder.into_page().expect("build page");
    page.move_down_one_line(PageLine::new((), "d".to_string(), 3));
    assert!(page.move_up_one_row());
    assert_eq!(
        page.row_spans(),
        vec![RowSpan::new("a", 1), RowSpan::new("b", 1), RowSpan::new("c", 1)]
    );
}

#[test]
fn page_full_move_down_keeps_its_row_count() {
    let mut builder = FilledPage::builder(2);
    for chr in 'a'..='c' {
        if !builder.push_back(PageLine::new((), chr.to_string(), 3)) {
            break;
        }
    }
    let mut page = builder.into_page().expect("build page");
    assert_eq!(page.row_len(), 2);
    assert_eq!(page.move_down_one_row(), false);
    page.move_down_one_line(PageLine::new((), "c".to_string(), 3));
    assert_eq!(page.row_len(), 2);
    assert_eq!(page.move_up_one_row(), true);
    assert_eq!(page.row_len(), 2);
    assert_eq!(page.move_down_one_row(), true);
    assert_eq!(page.row_len(), 2);
    assert_eq!(
        page.row_spans(),
        vec![RowSpan::new("b", 1), RowSpan::new("c", 1)]
    );
}

#[test]
fn page_builder_ends_inside_the_line_that_fills_it() {
    // "ab" wraps into two rows and "cdefgh" into three, of which only the
    // first fits: the page ends on that row and can move down two more.
    let mut builder = FilledPage::builder(3);
    assert!(builder.push_back(PageLine::new((), "ab".to_string(), 1)));
    assert!(!builder.push_back(PageLine::new((), "cdefgh".to_string(), 2)));
    let mut page = builder.into_page().expect("build page");
    assert_eq!(page.row_len(), 3);
    assert!(!page.can_move_up_one_row());
    assert_eq!(page.end_row_span(), RowSpan::new("cd", 1));
    assert!(page.move_down_one_row());
    assert!(page.move_down_one_row());
    assert!(!page.move_down_one_row());
    assert_eq!(page.end_row_span(), RowSpan::new("cdefgh", 3));
}
