use toss::document::{Document, StreamMsg};
use toss::line::{Line, Row};
use toss::line_editor::LineEdit;
use toss::options::{HeadingOptions, Options};
use toss::pager::status_line::{STATUS_REVERSE_OFF, STATUS_REVERSE_ON};
use toss::pager::Pager;
use toss::query::Query;
use toss::screen::ScreenSize;
use toss::search::SearchDirection;

fn doc_lines(n: usize) -> Document {
    let s = (0..n).map(|i| format!("line{i}")).collect::<Vec<_>>().join("\n");
    Document::from_string(s)
}

/// Messages carrying lines `start..start + count`, as the reader sends them.
fn line_msgs(start: usize, count: usize) -> Vec<StreamMsg> {
    (0..count)
        .map(|i| StreamMsg::Line(Line::new(start + i, format!("line{}", start + i))))
        .collect()
}

fn heading_opts(pattern: &str, num_lines: usize) -> HeadingOptions {
    HeadingOptions {
        pattern: Query::new(pattern).unwrap(),
        num_lines,
    }
}

fn line_indices(rows: &[Row]) -> Vec<usize> {
    rows.iter().map(|r| r.line_index()).collect()
}

fn type_query(pager: &mut Pager, query: &str) {
    for ch in query.chars() {
        pager.update_search_query(LineEdit::AddChar(ch));
    }
}

fn submit_query(pager: &mut Pager, direction: SearchDirection, query: &str) {
    pager.start_search_input(direction);
    type_query(pager, query);
    pager.submit_search();
}

fn current_match_line(pager: &mut Pager) -> Option<usize> {
    let snap = pager.snapshot();
    snap.search.and_then(|s| s.current.as_ref().map(|m| m.line_index()))
}

/// View-mode status without its reverse-video wrapper, which must be there.
fn view_status(pager: &mut Pager) -> String {
    let s = pager.snapshot().status_line;
    s.strip_prefix(STATUS_REVERSE_ON)
        .and_then(|s| s.strip_suffix(STATUS_REVERSE_OFF))
        .expect("view-mode status should be reverse-wrapped")
        .to_string()
}

fn streaming_with(msgs: Vec<StreamMsg>) -> Document {
    let mut doc = Document::streaming();
    doc.pump(msgs, false);
    doc
}

#[test]
fn status_line_shows_position_for_string_source() {
    let mut pager = Pager::new(doc_lines(5), Options::default(), ScreenSize::new(20, 5));
    assert_eq!(view_status(&mut pager), "lines 1-4/5 80%");
    pager.scroll(1);
    assert_eq!(view_status(&mut pager), "lines 2-5/5 100%");
}

#[test]
fn status_line_marks_loading_then_settles_on_eof() {
    let doc = streaming_with(line_msgs(0, 1));
    let mut pager = Pager::new(doc, Options::default(), ScreenSize::new(20, 5));
    assert_eq!(view_status(&mut pager), "lines 1-1/1+");
    let mut msgs = line_msgs(1, 9);
    msgs.push(StreamMsg::Eof);
    pager.pump_input(msgs, false);
    assert_eq!(view_status(&mut pager), "lines 1-4/10 40%");
}

#[test]
fn status_line_flags_read_error_instead_of_percentage() {
    let doc = streaming_with(line_msgs(0, 1));
    let mut pager = Pager::new(doc, Options::default(), ScreenSize::new(40, 5));
    pager.pump_input(vec![StreamMsg::Error("boom".to_string())], false);
    assert_eq!(view_status(&mut pager), "lines 1-1/1 [read error]");
}

#[test]
fn status_line_prefixes_file_name() {
    let name = ".local/test/status_line_name.txt";
    let doc = Document::from_named_string("a\nb\nc\nd\ne\n".to_string(), name.to_string());
    let mut pager = Pager::new(doc, Options::default(), ScreenSize::new(80, 5));
    assert_eq!(view_status(&mut pager), format!("{name} lines 1-4/5 80%"));
}

#[test]
fn pump_input_fills_first_screen_incrementally() {
    let doc = streaming_with(line_msgs(0, 1));
    let mut pager = Pager::new(doc, Options::default(), ScreenSize::new(20, 5));
    assert_eq!(line_indices(pager.snapshot().content), vec![0]);

    assert!(pager.pump_input(line_msgs(1, 3), false));
    assert_eq!(line_indices(pager.snapshot().content), vec![0, 1, 2, 3]);

    // Once the page is full, new lines stay below the fold, but the status changes.
    assert!(pager.pump_input(line_msgs(4, 5), false));
    assert_eq!(line_indices(pager.snapshot().content), vec![0, 1, 2, 3]);

    // A pump that drains nothing changes nothing.
    assert!(!pager.pump_input(Vec::new(), false));
}

#[test]
fn pump_input_refreshes_status_on_eof_after_first_screen() {
    let doc = streaming_with(line_msgs(0, 5));
    let mut pager = Pager::new(doc, Options::default(), ScreenSize::new(20, 5));
    assert!(pager.is_loading());
    assert!(pager.pump_input(vec![StreamMsg::Eof], false));
    assert!(!pager.is_loading());
}

#[test]
fn jump_to_end_pumps_pending_input_first() {
    let doc = streaming_with(line_msgs(0, 1));
    let mut pager = Pager::new(doc, Options::default(), ScreenSize::new(20, 5));
    // The lines that arrived meanwhile are taken in before the jump.
    pager.pump_input(line_msgs(1, 9), false);
    pager.jump_to_end();
    assert_eq!(line_indices(pager.snapshot().content), vec![6, 7, 8, 9]);
}

#[test]
fn pump_input_returns_none_when_nothing_arrived() {
    let doc = streaming_with(line_msgs(0, 1));
    let mut pager = Pager::new(doc, Options::default(), ScreenSize::new(20, 5));
    assert!(!pager.pump_input(Vec::new(), false));
}

#[test]
fn header_shows_only_the_lines_that_exist_until_the_document_catches_up() {
    let doc = streaming_with(line_msgs(0, 2));
    let opts = Options {
        header: 3,
        ..Default::default()
    };
    let mut pager = Pager::new(doc, opts, ScreenSize::new(20, 10));
    assert_eq!(line_indices(pager.snapshot().header), vec![0, 1]);

    pager.pump_input(line_msgs(2, 3), false);
    assert_eq!(line_indices(pager.snapshot().header), vec![0, 1, 2]);
}

#[test]
fn heading_stays_outside_the_configured_header_while_the_document_is_still_shorter() {
    let doc = streaming_with(vec![StreamMsg::Line(Line::new(0, "# A".into()))]);
    let opts = Options {
        header: 3,
        heading: Some(heading_opts("^# ", 1)),
        ..Default::default()
    };
    let mut pager = Pager::new(doc, opts, ScreenSize::new(20, 10));
    let snap = pager.snapshot();
    assert_eq!(line_indices(snap.header), vec![0]);
    assert!(line_indices(snap.heading).is_empty());

    let mut msgs: Vec<StreamMsg> = [(1, "# B"), (2, "# C"), (3, "# D"), (4, "tail")]
        .into_iter()
        .map(|(i, text)| StreamMsg::Line(Line::new(i, text.into())))
        .collect();
    msgs.push(StreamMsg::Eof);
    pager.pump_input(msgs, false);

    pager.jump_to(1);
    assert_eq!(line_indices(pager.snapshot().heading), vec![3]);

    pager.jump_to(3);
    assert_eq!(line_indices(pager.snapshot().heading), vec![3]);
}

#[test]
fn snapshot_starts_at_top_of_doc() {
    let pager = Pager::new(doc_lines(10), Options::default(), ScreenSize::new(20, 5));
    let snap = pager.snapshot();
    assert!(snap.header.is_empty());
    assert!(snap.heading.is_empty());
    assert_eq!(line_indices(snap.content), vec![0, 1, 2, 3]);
}

#[test]
fn snapshot_pins_global_header_above_content() {
    let opts = Options {
        header: 2,
        ..Default::default()
    };
    let pager = Pager::new(doc_lines(10), opts, ScreenSize::new(20, 6));
    let snap = pager.snapshot();
    assert_eq!(line_indices(snap.header), vec![0, 1]);
    assert_eq!(line_indices(snap.content), vec![2, 3, 4]);
}

#[test]
fn scroll_down_shifts_content_forward() {
    let mut pager = Pager::new(doc_lines(20), Options::default(), ScreenSize::new(20, 5));
    assert!(pager.scroll(2));
    assert_eq!(line_indices(pager.snapshot().content), vec![2, 3, 4, 5]);
}

#[test]
fn scroll_up_brings_back_upper_rows() {
    let mut pager = Pager::new(doc_lines(20), Options::default(), ScreenSize::new(20, 5));
    pager.scroll(3);
    assert_eq!(line_indices(pager.snapshot().content), vec![3, 4, 5, 6]);
    assert!(pager.scroll(-1));
    assert_eq!(line_indices(pager.snapshot().content), vec![2, 3, 4, 5]);
}

#[test]
fn scroll_reports_no_change_at_the_document_edges() {
    let mut pager = Pager::new(doc_lines(6), Options::default(), ScreenSize::new(20, 5));
    assert!(!pager.scroll(-1));
    pager.jump_to_end();
    assert_eq!(line_indices(pager.snapshot().content), vec![2, 3, 4, 5]);
    assert!(!pager.scroll(1));
}

#[test]
fn scroll_keeps_global_header_pinned() {
    let opts = Options {
        header: 2,
        ..Default::default()
    };
    let mut pager = Pager::new(doc_lines(20), opts, ScreenSize::new(20, 6));
    pager.scroll(3);
    let snap = pager.snapshot();
    assert_eq!(line_indices(snap.header), vec![0, 1]);
    assert_eq!(line_indices(snap.content), vec![5, 6, 7]);
}

#[test]
fn jump_to_places_target_line_at_top_of_content() {
    let mut pager = Pager::new(doc_lines(20), Options::default(), ScreenSize::new(20, 5));
    pager.jump_to(10);
    assert_eq!(line_indices(pager.snapshot().content), vec![10, 11, 12, 13]);
}

#[test]
fn jump_to_near_the_document_end_keeps_the_page_full() {
    let mut pager = Pager::new(doc_lines(8), Options::default(), ScreenSize::new(20, 5));
    pager.jump_to(6);
    assert_eq!(line_indices(pager.snapshot().content), vec![4, 5, 6, 7]);
}

#[test]
fn jump_to_upward_places_target_line_at_top() {
    let mut pager = Pager::new(doc_lines(20), Options::default(), ScreenSize::new(20, 5));
    pager.jump_to(10);
    assert_eq!(line_indices(pager.snapshot().content), vec![10, 11, 12, 13]);
    pager.jump_to(8);
    assert_eq!(line_indices(pager.snapshot().content), vec![8, 9, 10, 11]);
}

#[test]
fn jump_to_end_places_last_line_at_bottom() {
    let mut pager = Pager::new(doc_lines(20), Options::default(), ScreenSize::new(20, 5));
    pager.jump_to_end();
    assert_eq!(line_indices(pager.snapshot().content), vec![16, 17, 18, 19]);
}

#[test]
fn jump_to_within_global_header_jumps_to_top() {
    let opts = Options {
        header: 2,
        ..Default::default()
    };
    let mut pager = Pager::new(doc_lines(20), opts, ScreenSize::new(20, 8));
    pager.scroll(5);
    pager.jump_to(1);
    let snap = pager.snapshot();
    assert_eq!(line_indices(snap.header), vec![0, 1]);
    assert_eq!(line_indices(snap.content), vec![2, 3, 4, 5, 6]);
}

#[test]
fn resize_rebuilds_content_at_new_height() {
    let mut pager = Pager::new(doc_lines(10), Options::default(), ScreenSize::new(20, 5));
    pager.resize(20, 10);
    assert_eq!(line_indices(pager.snapshot().content), (0..9).collect::<Vec<_>>());
}

#[test]
fn heading_becomes_sticky_when_scrolled_past() {
    let opts = Options {
        heading: Some(heading_opts("^# ", 1)),
        ..Default::default()
    };
    let mut pager = Pager::new(
        Document::from_string("# A\nx\ny\nz\nw\nv\n".into()),
        opts,
        ScreenSize::new(20, 5),
    );
    pager.scroll(2);
    let snap = pager.snapshot();
    assert_eq!(line_indices(snap.heading), vec![0]);
    assert_eq!(line_indices(snap.content), vec![3, 4, 5]);
}

#[test]
fn fits_within_returns_true_for_short_doc() {
    let pager = Pager::new(doc_lines(5), Options::default(), ScreenSize::new(20, 10));
    assert!(pager.fits_within(5));
}

#[test]
fn fits_within_returns_false_when_doc_exceeds_height() {
    let pager = Pager::new(doc_lines(6), Options::default(), ScreenSize::new(20, 10));
    assert!(!pager.fits_within(5));
}

#[test]
fn content_height_excludes_header_rows() {
    let opts = Options {
        header: 1,
        ..Default::default()
    };
    let pager = Pager::new(doc_lines(10), opts, ScreenSize::new(20, 6));
    assert_eq!(pager.content_height(), 4);
}

#[test]
fn contiguous_rows_includes_global_header_when_adjacent() {
    let opts = Options {
        header: 2,
        ..Default::default()
    };
    let pager = Pager::new(doc_lines(10), opts, ScreenSize::new(20, 6));
    assert_eq!(line_indices(&pager.frame().contiguous_rows()), vec![0, 1, 2, 3, 4]);
}

#[test]
fn contiguous_rows_excludes_global_header_when_far() {
    let opts = Options {
        header: 2,
        ..Default::default()
    };
    let mut pager = Pager::new(doc_lines(20), opts, ScreenSize::new(20, 6));
    pager.scroll(5);
    assert_eq!(line_indices(&pager.frame().contiguous_rows()), vec![7, 8, 9]);
}

#[test]
fn contiguous_rows_includes_heading_when_adjacent() {
    let opts = Options {
        heading: Some(heading_opts("^# ", 1)),
        ..Default::default()
    };
    let pager = Pager::new(
        Document::from_string("# A\nline0\nline1\nline2\nline3\n".into()),
        opts,
        ScreenSize::new(20, 5),
    );
    assert_eq!(line_indices(&pager.frame().contiguous_rows()), vec![0, 1, 2, 3]);
}

#[test]
fn snapshot_search_prefers_draft_over_committed_query() {
    let mut pager = Pager::new(doc_lines(20), Options::default(), ScreenSize::new(20, 5));
    pager.start_search_input(SearchDirection::Forward);
    type_query(&mut pager, "line5");
    pager.submit_search();

    pager.start_search_input(SearchDirection::Forward);
    type_query(&mut pager, "line8");
    let snap = pager.snapshot();
    let search = snap.search.expect("draft search should override committed");
    assert_eq!(search.query.as_str(), "line8");
}

#[test]
fn cursor_move_in_search_input_does_not_rerun_search() {
    let mut pager = Pager::new(doc_lines(20), Options::default(), ScreenSize::new(20, 5));
    pager.start_search_input(SearchDirection::Forward);
    type_query(&mut pager, "line5");
    assert_eq!(current_match_line(&mut pager), Some(5));

    pager.update_search_query(LineEdit::MoveCursorLeft);
    assert_eq!(current_match_line(&mut pager), Some(5));

    pager.update_search_query(LineEdit::MoveCursorRight);
    assert_eq!(current_match_line(&mut pager), Some(5));
}

#[test]
fn contiguous_rows_excludes_heading_when_far() {
    let opts = Options {
        heading: Some(heading_opts("^# ", 1)),
        ..Default::default()
    };
    let mut pager = Pager::new(
        Document::from_string("# A\nline0\nline1\nline2\nline3\nline4\n".into()),
        opts,
        ScreenSize::new(20, 4),
    );
    pager.scroll(2);
    let rows = pager.frame().contiguous_rows();
    assert_ne!(rows[0].line_index(), 0);
}

#[test]
fn next_match_in_page_moves_highlight_without_scrolling() {
    let mut pager = Pager::new(doc_lines(20), Options::default(), ScreenSize::new(20, 5));
    submit_query(&mut pager, SearchDirection::Forward, "line");
    assert_eq!(line_indices(pager.snapshot().content), vec![0, 1, 2, 3]);
    assert_eq!(current_match_line(&mut pager), Some(0));

    assert!(pager.jump_to_next_match(false));
    assert_eq!(line_indices(pager.snapshot().content), vec![0, 1, 2, 3]);
    assert_eq!(current_match_line(&mut pager), Some(1));
}

#[test]
fn next_match_below_page_anchors_line_at_bottom() {
    let mut pager = Pager::new(
        Document::from_string("a\nb\nc\nhit\ne\nf\ng\nhit\ni\nj\n".into()),
        Options::default(),
        ScreenSize::new(20, 5),
    );
    submit_query(&mut pager, SearchDirection::Forward, "hit");
    assert_eq!(line_indices(pager.snapshot().content), vec![3, 4, 5, 6]);
    assert_eq!(current_match_line(&mut pager), Some(3));

    pager.jump_to_next_match(false);
    assert_eq!(line_indices(pager.snapshot().content), vec![4, 5, 6, 7]);
    assert_eq!(current_match_line(&mut pager), Some(7));
}

#[test]
fn next_match_above_page_anchors_line_at_top() {
    let mut pager = Pager::new(
        Document::from_string("a\nb\nc\nhit\ne\nf\ng\nhit\ni\nj\n".into()),
        Options::default(),
        ScreenSize::new(20, 5),
    );
    submit_query(&mut pager, SearchDirection::Forward, "hit");
    pager.jump_to_next_match(false);
    assert_eq!(line_indices(pager.snapshot().content), vec![4, 5, 6, 7]);

    pager.jump_to_next_match(true);
    assert_eq!(line_indices(pager.snapshot().content), vec![3, 4, 5, 6]);
    assert_eq!(current_match_line(&mut pager), Some(3));
}

#[test]
fn jump_to_bottom_shows_whole_wrapped_line() {
    // Width 5 wraps "01234hit" into two rows.
    let mut pager = Pager::new(
        Document::from_string("a\nb\nc\nd\ne\nf\n01234hit\n".into()),
        Options::default(),
        ScreenSize::new(5, 5),
    );
    pager.jump_to_bottom(6);
    let snap = pager.snapshot();
    let line6_wraps: Vec<usize> = snap
        .content
        .iter()
        .filter(|r| r.line_index() == 6)
        .map(|r| r.wrap_index())
        .collect();
    assert_eq!(line6_wraps, vec![0, 1]);
    let last = snap.content.last().unwrap();
    assert_eq!((last.line_index(), last.wrap_index()), (6, 1));
}

#[test]
fn cancel_search_goes_back_to_where_it_started() {
    let mut pager = Pager::new(doc_lines(20), Options::default(), ScreenSize::new(20, 5));
    pager.jump_to(2);
    pager.start_search_input(SearchDirection::Forward);
    type_query(&mut pager, "line9");
    assert_eq!(line_indices(pager.snapshot().content), vec![9, 10, 11, 12]);
    assert!(pager.cancel_search_input());
    assert_eq!(line_indices(pager.snapshot().content), vec![2, 3, 4, 5]);
    assert!(pager.snapshot().search.is_none());
}

#[test]
fn invalid_pattern_keeps_the_prompt_and_the_last_preview() {
    let mut pager = Pager::new(doc_lines(20), Options::default(), ScreenSize::new(20, 5));
    pager.start_search_input(SearchDirection::Forward);
    type_query(&mut pager, "line7(");
    // The preview stays at the last valid input, "line7".
    assert_eq!(current_match_line(&mut pager), Some(7));
    assert!(!pager.submit_search());
    assert!(pager.has_search_input());
    pager.update_search_query(LineEdit::DeleteCharBeforeCursor);
    assert!(pager.submit_search());
    assert!(!pager.has_search_input());
    assert_eq!(current_match_line(&mut pager), Some(7));
}

#[test]
fn backward_search_finds_the_match_above() {
    let mut pager = Pager::new(
        Document::from_string("hit\nb\nc\nd\nhit\nf\ng\nh\n".into()),
        Options::default(),
        ScreenSize::new(20, 4),
    );
    pager.jump_to(3);
    submit_query(&mut pager, SearchDirection::Backward, "hit");
    assert_eq!(current_match_line(&mut pager), Some(0));
    // Going on backward finds nothing more above the first line.
    assert!(!pager.jump_to_next_match(false));
    // Reversing goes forward again.
    assert!(pager.jump_to_next_match(true));
    assert_eq!(current_match_line(&mut pager), Some(4));
}

#[test]
fn scroll_down_then_up_restores_the_page_with_wrapped_lines() {
    // Width 5: "abcdefghij" wraps into two rows.
    let doc = Document::from_string("a\nabcdefghij\nb\nc\nd\ne\nf\ng".to_string());
    let mut pager = Pager::new(doc, Options::default(), ScreenSize::new(5, 4));
    pager.scroll(1);
    let before: Vec<(usize, usize)> = pager.frame().rows().iter().map(|r| (r.line_index(), r.wrap_index())).collect();
    assert!(pager.scroll(3));
    assert!(pager.scroll(-3));
    let after: Vec<(usize, usize)> = pager.frame().rows().iter().map(|r| (r.line_index(), r.wrap_index())).collect();
    assert_eq!(before, after);
    assert_eq!(before[0], (1, 0));
}
