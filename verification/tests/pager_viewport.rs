use toss::document::Document;
use toss::line::Row;
use toss::pager::global_header::GlobalHeader;
use toss::pager::viewport::Viewport;
use toss::pager::ViewportSize;

fn pos(rows: &[Row]) -> Vec<(usize, usize)> {
    rows.iter().map(|r| (r.line_index, r.wrap_index)).collect()
}

fn size(width: usize, height: usize) -> ViewportSize {
    ViewportSize { width, height }
}

#[test]
fn fills_from_top_on_construction() {
    let doc = Document::from_string("a\nb\nc\nd\ne\nf\n".into());
    let v = Viewport::new(&doc, size(10, 4));
    assert_eq!(pos(v.rows()), vec![(0, 0), (1, 0), (2, 0), (3, 0)]);
}

#[test]
fn fills_partially_when_doc_is_short() {
    let doc = Document::from_string("a\nb\n".into());
    let v = Viewport::new(&doc, size(10, 5));
    assert_eq!(pos(v.rows()), vec![(0, 0), (1, 0)]);
}

#[test]
fn row_index_finds_existing_row() {
    let doc = Document::from_string("a\nb\nc\n".into());
    let v = Viewport::new(&doc, size(10, 3));
    assert_eq!(v.row_index(1, 0), Some(1));
    assert_eq!(v.row_index(5, 0), None);
}

#[test]
fn scroll_down_reveals_lower_rows() {
    let doc = Document::from_string("a\nb\nc\nd\ne\n".into());
    let mut v = Viewport::new(&doc, size(10, 3));
    let scrolled = v.scroll_down(&doc, 2);
    assert_eq!(scrolled, 2);
    assert_eq!(pos(v.rows()), vec![(2, 0), (3, 0), (4, 0)]);
}

#[test]
fn scroll_down_clamps_at_doc_end() {
    let doc = Document::from_string("a\nb\nc\nd\n".into());
    let mut v = Viewport::new(&doc, size(10, 3));
    let scrolled = v.scroll_down(&doc, 3);
    assert_eq!(scrolled, 1);
    assert_eq!(pos(v.rows()), vec![(1, 0), (2, 0), (3, 0)]);
}

#[test]
fn scroll_up_reveals_upper_rows() {
    let doc = Document::from_string("a\nb\nc\nd\ne\n".into());
    let mut v = Viewport::new(&doc, size(10, 3));
    v.scroll_down(&doc, 2);
    let scrolled = v.scroll_up(&doc, 1);
    assert_eq!(scrolled, 1);
    assert_eq!(pos(v.rows()), vec![(1, 0), (2, 0), (3, 0)]);
}

#[test]
fn scroll_up_clamps_at_doc_start() {
    let doc = Document::from_string("a\nb\nc\n".into());
    let mut v = Viewport::new(&doc, size(10, 3));
    let scrolled = v.scroll_up(&doc, 2);
    assert_eq!(scrolled, 0);
    assert_eq!(pos(v.rows()), vec![(0, 0), (1, 0), (2, 0)]);
}

#[test]
fn jump_to_places_line_below_offset() {
    let doc = Document::from_string("a\nb\nc\nd\ne\nf\ng\n".into());
    let mut v = Viewport::new(&doc, size(10, 4));
    let line_pos = v.jump_to(&doc, 4, 1);
    assert_eq!(line_pos, 1);
    assert_eq!(pos(v.rows()), vec![(3, 0), (4, 0), (5, 0), (6, 0)]);
}

#[test]
fn jump_to_anchors_at_bottom_when_near_end() {
    let doc = Document::from_string("a\nb\nc\nd\ne\n".into());
    let mut v = Viewport::new(&doc, size(10, 4));
    let line_pos = v.jump_to(&doc, 4, 0);
    assert_eq!(line_pos, 3);
    assert_eq!(pos(v.rows()), vec![(1, 0), (2, 0), (3, 0), (4, 0)]);
}

#[test]
fn jump_to_end_anchors_last_line_at_bottom() {
    let doc = Document::from_string("a\nb\nc\nd\ne\n".into());
    let mut v = Viewport::new(&doc, size(10, 3));
    v.jump_to_end(&doc);
    assert_eq!(pos(v.rows()), vec![(2, 0), (3, 0), (4, 0)]);
}

#[test]
fn resize_keeps_top_row_anchored() {
    let doc = Document::from_string("a\nb\nc\nd\ne\nf\n".into());
    let mut v = Viewport::new(&doc, size(10, 3));
    v.scroll_down(&doc, 2);
    assert_eq!(v.rows()[0].line_index(), 2);
    v.resize(&doc, size(10, 4));
    assert_eq!(v.rows()[0].line_index(), 2);
    assert_eq!(v.rows().len(), 4);
}

#[test]
fn refill_from_top_reads_lines_again() {
    let doc = Document::from_string("a\nb\nc\nd\n".into());
    let mut v = Viewport::new(&doc, size(10, 2));
    v.scroll_down(&doc, 2);
    v.refill_from_top(&doc);
    assert_eq!(pos(v.rows()), vec![(0, 0), (1, 0)]);
    assert_eq!(v.size().height, 2);
}

#[test]
fn global_header_keeps_one_row_for_content() {
    let doc = Document::from_string("h1\nh2\nh3\nbody\n".into());
    let header = GlobalHeader::new(&doc, &size(10, 3), 3);
    assert_eq!(pos(header.rows()), vec![(0, 0), (1, 0)]);
    assert_eq!(header.height(), 2);
    assert!(header.contains(2));
    assert!(!header.contains(3));
}

#[test]
fn global_header_rewraps_on_resize() {
    let doc = Document::from_string("abcdefgh\nbody\n".into());
    let mut header = GlobalHeader::new(&doc, &size(10, 5), 1);
    assert_eq!(header.height(), 1);
    header.resize(&doc, &size(5, 5));
    assert_eq!(pos(header.rows()), vec![(0, 0), (0, 1)]);
}
