use toss::document::Document;
use toss::line::Row;
use toss::pager::header::Header;
use toss::pager::ViewportSize;

fn pos(rows: &[Row]) -> Vec<(usize, usize)> {
    rows.iter()
        .map(|r| (r.line_index(), r.wrap_index()))
        .collect()
}

fn size(width: usize, height: usize) -> ViewportSize {
    ViewportSize { width, height }
}

#[test]
fn no_header_when_num_lines_is_zero() {
    let doc = Document::from_string("a\nb\nc\n".into());
    let h = Header::new(&doc, &size(10, 5), 0);
    assert_eq!(h.height(), 0);
    assert!(h.rows().is_empty());
    assert!(!h.contains(0));
}

#[test]
fn header_takes_first_lines() {
    let doc = Document::from_string("a\nb\nc\nd\n".into());
    let h = Header::new(&doc, &size(10, 5), 2);
    assert_eq!(pos(h.rows()), vec![(0, 0), (1, 0)]);
    assert_eq!(h.height(), 2);
}

#[test]
fn contains_reflects_configured_range() {
    let doc = Document::from_string("a\nb\nc\nd\n".into());
    let h = Header::new(&doc, &size(10, 5), 2);
    assert!(h.contains(0));
    assert!(h.contains(1));
    assert!(!h.contains(2));
}

#[test]
fn header_height_capped_to_leave_room_for_content() {
    // viewport height = 5 -> max header height is 4.
    let doc = Document::from_string("a\nb\nc\nd\ne\nf\n".into());
    let h = Header::new(&doc, &size(10, 5), 5);
    assert_eq!(h.height(), 4);
    // contains() reflects the configured num_lines, not the visible row count.
    assert!(h.contains(4));
    assert_eq!(h.num_lines(), 5);
}

#[test]
fn header_includes_wrap_rows_of_long_lines() {
    // "abcd" at width 2 wraps to (0,0)=ab, (0,1)=cd.
    let doc = Document::from_string("abcd\ne\nf\ng\n".into());
    let h = Header::new(&doc, &size(2, 6), 1);
    assert_eq!(pos(h.rows()), vec![(0, 0), (0, 1)]);
}

#[test]
fn resize_recomputes_rows_at_new_width() {
    let doc = Document::from_string("abcd\ne\n".into());
    let mut h = Header::new(&doc, &size(10, 5), 1);
    assert_eq!(pos(h.rows()), vec![(0, 0)]);

    h.resize(&doc, &size(2, 5));
    assert_eq!(pos(h.rows()), vec![(0, 0), (0, 1)]);
}

#[test]
fn header_in_a_viewport_without_rows_is_empty() {
    let doc = Document::from_string("a\nb\n".into());
    let h = Header::new(&doc, &size(10, 0), 2);
    assert_eq!(h.height(), 0);
}
