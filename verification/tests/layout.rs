use toss::document::Document;
use toss::line::Row;
use toss::options::{HeadingOptions, Options};
use toss::pager::layout::{compose, Layout};
use toss::pager::rows::{from_lines, list_backward, list_forward, DocPos};
use toss::pager::ViewportSize;
use toss::query::Query;

fn size(width: usize, height: usize) -> ViewportSize {
    ViewportSize { width, height }
}

fn layout(header: usize, heading: Option<(&str, usize)>, size: ViewportSize) -> Layout {
    let options = Options {
        header,
        heading: heading.map(|(pattern, num_lines)| HeadingOptions {
            pattern: Query::new(pattern).unwrap(),
            num_lines,
        }),
        quit_if_one_screen: false,
    };
    Layout::new(options, size)
}

fn pos(rows: &[Row]) -> Vec<(usize, usize)> {
    rows.iter().map(|r| (r.line_index(), r.wrap_index())).collect()
}

fn lines(rows: &[Row]) -> Vec<usize> {
    rows.iter().map(|r| r.line_index()).collect()
}

fn doc_lines(n: usize) -> Document {
    let s = (0..n).map(|i| format!("line{i}")).collect::<Vec<_>>().join("\n");
    Document::from_string(s)
}

#[test]
fn composes_from_the_top_of_the_document() {
    let doc = doc_lines(10);
    let layout = layout(0, None, size(10, 4));
    let frame = compose(&doc, &layout, (0, 0));
    assert!(frame.header().is_empty());
    assert!(frame.heading().is_empty());
    assert_eq!(pos(frame.content()), vec![(0, 0), (1, 0), (2, 0), (3, 0)]);
}

#[test]
fn short_document_leaves_the_page_partially_filled() {
    let doc = doc_lines(2);
    let layout = layout(0, None, size(10, 5));
    let frame = compose(&doc, &layout, (0, 0));
    assert_eq!(lines(frame.content()), vec![0, 1]);
}

#[test]
fn header_covers_the_rows_it_duplicates() {
    let doc = doc_lines(10);
    let layout = layout(2, None, size(10, 5));
    let frame = compose(&doc, &layout, (0, 0));
    assert_eq!(lines(frame.header()), vec![0, 1]);
    assert_eq!(lines(frame.rows()), vec![0, 1, 2, 3, 4]);
    assert_eq!(lines(frame.content()), vec![2, 3, 4]);
}

#[test]
fn header_is_capped_to_leave_room_for_content() {
    let doc = doc_lines(10);
    let layout = layout(5, None, size(10, 5));
    let frame = compose(&doc, &layout, (0, 0));
    assert_eq!(lines(frame.header()), vec![0, 1, 2, 3]);
}

#[test]
fn anchor_is_pulled_back_to_keep_the_page_full() {
    let doc = doc_lines(6);
    let layout = layout(0, None, size(10, 4));
    let frame = compose(&doc, &layout, (4, 0));
    assert_eq!(frame.anchor(), (2, 0));
    assert_eq!(lines(frame.content()), vec![2, 3, 4, 5]);
}

#[test]
fn anchor_past_the_end_falls_back_to_the_last_page() {
    let doc = doc_lines(6);
    let layout = layout(0, None, size(10, 4));
    let frame = compose(&doc, &layout, (99, 0));
    assert_eq!(lines(frame.content()), vec![2, 3, 4, 5]);
}

#[test]
fn heading_sticks_to_the_row_below_the_header() {
    let doc = Document::from_string("# A\na1\na2\n# B\nb1\nb2\nb3\n".into());
    let layout = layout(0, Some(("^# ", 1)), size(10, 4));
    let frame = compose(&doc, &layout, (2, 0));
    assert_eq!(lines(frame.heading()), vec![0]);
    assert_eq!(lines(frame.content()), vec![3, 4, 5]);
}

#[test]
fn heading_is_pushed_up_by_the_next_section() {
    let doc = Document::from_string("# A\na1\na2\n# B\nb1\nb2\nb3\nb4\nb5\n".into());
    let layout = layout(0, Some(("^# ", 2)), size(10, 6));
    let frame = compose(&doc, &layout, (2, 0));
    assert_eq!(lines(frame.heading()), vec![1]);
    assert_eq!(lines(frame.content()), vec![3, 4, 5, 6, 7]);
}

#[test]
fn heading_never_comes_from_the_global_header() {
    let doc = Document::from_string("# A\n# B\nb1\nb2\nb3\n".into());
    let layout = layout(2, Some(("^# ", 1)), size(10, 5));
    let frame = compose(&doc, &layout, (2, 0));
    assert!(frame.heading().is_empty());
    assert_eq!(lines(frame.header()), vec![0, 1]);
}

#[test]
fn no_heading_when_none_precedes_the_anchor() {
    let doc = Document::from_string("a0\na1\n# B\nb1\n".into());
    let layout = layout(0, Some(("^# ", 1)), size(10, 3));
    let frame = compose(&doc, &layout, (0, 0));
    assert!(frame.heading().is_empty());
}

#[test]
fn contiguous_rows_join_adjacent_sticky_and_content() {
    let doc = Document::from_string("h0\n# A\na1\na2\na3\n".into());
    let layout = layout(1, Some(("^# ", 1)), size(10, 4));
    let frame = compose(&doc, &layout, (0, 0));
    assert_eq!(lines(frame.header()), vec![0]);
    assert_eq!(lines(frame.heading()), vec![1]);
    assert_eq!(lines(&frame.contiguous_rows()), vec![0, 1, 2, 3]);
}

#[test]
fn contiguous_rows_drop_sticky_rows_detached_from_the_content() {
    let doc = Document::from_string("h0\n# A\na1\na2\na3\na4\na5\n".into());
    let layout = layout(1, Some(("^# ", 1)), size(10, 4));
    let frame = compose(&doc, &layout, (3, 0));
    assert_eq!(lines(frame.heading()), vec![1]);
    assert_eq!(lines(&frame.contiguous_rows()), vec![5, 6]);
}

#[test]
fn wrapped_lines_occupy_several_rows() {
    let doc = Document::from_string("abcde\nf\ng\n".into());
    let layout = layout(0, None, size(2, 4));
    let frame = compose(&doc, &layout, (0, 0));
    assert_eq!(pos(frame.content()), vec![(0, 0), (0, 1), (0, 2), (1, 0)]);
}

#[test]
fn from_lines_collects_rows_in_range() {
    let doc = Document::from_string("a\nb\nc\nd\n".into());
    let rows = from_lines(&doc, 80, 0..4, 10);
    assert_eq!(pos(&rows), vec![(0, 0), (1, 0), (2, 0), (3, 0)]);
}

#[test]
fn from_lines_truncates_at_max_rows() {
    let doc = Document::from_string("a\nb\nc\nd\n".into());
    let rows = from_lines(&doc, 80, 0..4, 2);
    assert_eq!(pos(&rows), vec![(0, 0), (1, 0)]);
}

#[test]
fn from_lines_includes_wrap_rows() {
    let doc = Document::from_string("abcde\nf\n".into());
    let rows = from_lines(&doc, 2, 0..2, 10);
    assert_eq!(pos(&rows), vec![(0, 0), (0, 1), (0, 2), (1, 0)]);
}

#[test]
fn from_lines_truncation_can_cut_mid_line() {
    let doc = Document::from_string("abcde\nf\n".into());
    let rows = from_lines(&doc, 2, 0..2, 2);
    assert_eq!(pos(&rows), vec![(0, 0), (0, 1)]);
}

#[test]
fn from_lines_returns_empty_for_out_of_range() {
    let doc = Document::from_string("a\nb\n".into());
    let rows = from_lines(&doc, 80, 5..10, 10);
    assert!(rows.is_empty());
}

#[test]
fn list_forward_returns_rows_starting_at_position() {
    let doc = Document::from_string("a\nb\nc\nd\n".into());
    let rows = list_forward(&doc, 80, (1, 0), 2);
    assert_eq!(pos(&rows), vec![(1, 0), (2, 0)]);
}

#[test]
fn list_forward_starts_from_mid_wrap() {
    let doc = Document::from_string("abcde\nf\n".into());
    let rows = list_forward(&doc, 2, (0, 1), 3);
    assert_eq!(pos(&rows), vec![(0, 1), (0, 2), (1, 0)]);
}

#[test]
fn list_forward_stops_at_end_of_doc() {
    let doc = Document::from_string("a\nb\n".into());
    let rows = list_forward(&doc, 80, (0, 0), 10);
    assert_eq!(pos(&rows), vec![(0, 0), (1, 0)]);
}

#[test]
fn list_backward_from_doc_end() {
    let doc = Document::from_string("a\nb\nc\n".into());
    let rows = list_backward(&doc, 80, DocPos::End, 2);
    assert_eq!(pos(&rows), vec![(1, 0), (2, 0)]);
}

#[test]
fn list_backward_from_before_row() {
    let doc = Document::from_string("a\nb\nc\nd\n".into());
    let pivot = doc.line(2).unwrap().wrap(80)[0];
    let rows = list_backward(&doc, 80, DocPos::Before(&pivot), 2);
    assert_eq!(pos(&rows), vec![(0, 0), (1, 0)]);
}

#[test]
fn list_backward_from_before_wrapped_row() {
    let doc = Document::from_string("abcde\nf\n".into());
    let pivot = doc.line(0).unwrap().wrap(2)[2];
    let rows = list_backward(&doc, 2, DocPos::Before(&pivot), 2);
    assert_eq!(pos(&rows), vec![(0, 0), (0, 1)]);
}

#[test]
fn list_backward_returns_empty_at_doc_start() {
    let doc = Document::from_string("a\nb\n".into());
    let pivot = doc.line(0).unwrap().wrap(80)[0];
    let rows = list_backward(&doc, 80, DocPos::Before(&pivot), 5);
    assert!(rows.is_empty());
}

#[test]
fn list_backward_stops_at_doc_start_when_count_too_large() {
    let doc = Document::from_string("a\nb\nc\n".into());
    let rows = list_backward(&doc, 80, DocPos::End, 10);
    assert_eq!(pos(&rows), vec![(0, 0), (1, 0), (2, 0)]);
}
