use toss::document::{Document, StreamMsg};
use toss::line::Line;
use toss::options::HeadingOptions;
use toss::pager::headings::Headings;
use toss::query::Query;

fn heading_options(pattern: &str, num_lines: usize) -> HeadingOptions {
    HeadingOptions {
        pattern: Query::new(pattern).unwrap(),
        num_lines,
    }
}

/// 20 lines with a heading at 0, 5 and 12.
fn doc_with_headings() -> Document {
    let mut lines: Vec<String> = (0..20).map(|i| format!("line{i}")).collect();
    for i in [0, 5, 12] {
        lines[i] = format!("# h{i}");
    }
    Document::from_string(lines.join("\n"))
}

#[test]
fn the_heading_memo_answers_like_a_full_scan() {
    let doc = doc_with_headings();
    let mut headings = Headings::new(heading_options("^# ", 1));
    // A second instance answers one line at a time, with no memo of its own to lean on.
    let probe = Headings::new(heading_options("^# ", 1));

    // Query out of order, so the memo also meets lines far below what it has scanned.
    for at in [19, 18, 3, 4, 13, 12, 11, 6, 0, 19] {
        let expected = (0..=at).rev().find(|&i| probe.is_start(&doc, i));
        assert_eq!(
            headings.start_at_or_above(&doc, 0, at),
            expected,
            "at line {at}"
        );
    }
}

#[test]
fn the_heading_memo_never_reaches_below_the_lower_bound() {
    let doc = doc_with_headings();
    let mut headings = Headings::new(heading_options("^# ", 1));
    assert_eq!(headings.start_at_or_above(&doc, 0, 19), Some(12));
    assert_eq!(headings.start_at_or_above(&doc, 6, 11), None);
    assert_eq!(headings.start_at_or_above(&doc, 6, 19), Some(12));
    assert_eq!(headings.start_at_or_above(&doc, 1, 4), None);
}

#[test]
fn a_heading_start_at_the_end_of_a_growing_document_is_not_memoized() {
    let mut doc = Document::streaming();
    doc.pump(vec![StreamMsg::Line(Line::new(0, "# a".into()))], false);

    // With --heading-lines 2, "# a" is a heading start only while the line that would
    // follow it is still unknown.
    let mut headings = Headings::new(heading_options("^# ", 2));
    assert_eq!(headings.start_at_or_above(&doc, 0, 0), Some(0));

    doc.pump(vec![StreamMsg::Line(Line::new(1, "# b".into()))], false);
    assert_eq!(headings.start_at_or_above(&doc, 0, 0), None);
}

#[test]
fn start_below_finds_the_nearest_heading_start_after_the_line() {
    let doc = doc_with_headings();
    let headings = Headings::new(heading_options("^# ", 1));
    for (at, expected) in [(0, Some(5)), (4, Some(5)), (5, Some(12)), (11, Some(12))] {
        assert_eq!(
            headings.start_below(&doc, 0, at),
            expected,
            "at line {at}"
        );
    }
}

#[test]
fn start_below_never_returns_a_line_above_the_lower_bound() {
    let doc = doc_with_headings();
    let headings = Headings::new(heading_options("^# ", 1));
    // Lines 0..6 are the global header: the heading at line 5 is not a candidate.
    assert_eq!(headings.start_below(&doc, 6, 0), Some(12));
}

#[test]
fn start_below_returns_none_without_a_heading_below() {
    let doc = doc_with_headings();
    let headings = Headings::new(heading_options("^# ", 1));
    assert_eq!(headings.start_below(&doc, 0, 12), None);
    assert_eq!(headings.start_below(&doc, 0, 19), None);
}

#[test]
fn headings_a_later_match_within_the_heading_takes_over() {
    let doc = Document::from_string("# A\n# B\nfoo\nbar".to_string());
    let headings = Headings::new(heading_options("^# ", 2));
    assert_eq!(headings.num_lines(), 2);
    assert!(!headings.is_start(&doc, 0));
    assert!(headings.is_start(&doc, 1));
    assert!(!headings.is_start(&doc, 2));
    assert!(!headings.is_start(&doc, 9));
}
