use toss::document::{Document, PumpResult, StreamMsg};
use toss::line::Line;

fn lines(indices_and_text: &[(usize, &str)]) -> Vec<StreamMsg> {
    indices_and_text
        .iter()
        .map(|(i, s)| StreamMsg::Line(Line::new(*i, s.to_string())))
        .collect()
}

#[test]
fn stream_is_incomplete_until_eof() {
    let mut doc = Document::streaming();
    assert!(!doc.is_complete());
    assert_eq!(doc.line_count(), 0);

    // Nothing arrived yet: a pump is a no-op.
    assert_eq!(doc.pump(Vec::new(), false), PumpResult::default());
    assert!(!doc.is_complete());

    let r = doc.pump(lines(&[(0, "a"), (1, "b")]), false);
    assert!(r.grew);
    assert!(!r.reached_eof);
    assert_eq!(doc.line_count(), 2);
    assert_eq!(doc.line(0).unwrap().raw(), "a");
    assert_eq!(doc.line(1).unwrap().raw(), "b");
    assert!(!doc.is_complete());

    let mut msgs = lines(&[(2, "c")]);
    msgs.push(StreamMsg::Eof);
    let r = doc.pump(msgs, false);
    assert!(r.grew);
    assert!(r.reached_eof);
    assert_eq!(doc.line_count(), 3);
    assert_eq!(doc.line(2).unwrap().raw(), "c");
    assert!(doc.is_complete());

    // A pump after completion is a no-op.
    assert_eq!(doc.pump(Vec::new(), false), PumpResult::default());
}

#[test]
fn stream_drains_multiple_batches_in_one_pump() {
    let mut doc = Document::streaming();
    let mut msgs = lines(&[(0, "a")]);
    msgs.extend(lines(&[(1, "b")]));
    let r = doc.pump(msgs, false);
    assert!(r.grew);
    assert_eq!(doc.line_count(), 2);
}

#[test]
fn stream_error_is_treated_as_eof() {
    let mut doc = Document::streaming();
    let mut msgs = lines(&[(0, "a")]);
    msgs.push(StreamMsg::Error("boom".to_string()));
    let r = doc.pump(msgs, false);
    assert!(r.grew);
    assert!(r.reached_eof);
    assert_eq!(doc.line_count(), 1);
    assert!(doc.is_complete());
    assert_eq!(doc.stream_error().map(|e| e.as_str()), Some("boom"));
}

#[test]
fn stream_disconnect_without_eof_completes() {
    let mut doc = Document::streaming();
    let r = doc.pump(lines(&[(0, "a")]), true);
    assert!(r.grew);
    assert!(r.reached_eof);
    assert_eq!(doc.line_count(), 1);
    assert!(doc.is_complete());
}

#[test]
fn from_stdin_handles_no_trailing_newline_and_crlf() {
    let doc = Document::from_string("hello\r\nworld".to_string());
    assert_eq!(doc.line_count(), 2);
    assert_eq!(doc.line(0).unwrap().raw(), "hello");
    assert_eq!(doc.line(1).unwrap().raw(), "world");
}

#[test]
fn from_string_is_complete_and_pump_is_noop() {
    let mut doc = Document::from_string("a\nb".into());
    assert!(doc.is_complete());
    assert_eq!(doc.line_count(), 2);
    assert_eq!(doc.pump(Vec::new(), false), PumpResult::default());
    assert_eq!(doc.line_count(), 2);
    assert!(doc.is_complete());
}

#[test]
fn from_string_splits_lines() {
    let doc = Document::from_string("hello\nworld\nfoo".into());
    assert_eq!(doc.line_count(), 3);
    assert_eq!(doc.line(0).unwrap().raw(), "hello");
    assert_eq!(doc.line(1).unwrap().raw(), "world");
    assert_eq!(doc.line(2).unwrap().raw(), "foo");
}

#[test]
fn from_string_trailing_newline() {
    let doc = Document::from_string("a\nb\n".into());
    assert_eq!(doc.line_count(), 2);
}

#[test]
fn empty_document() {
    let doc = Document::from_string(String::new());
    assert_eq!(doc.line_count(), 0);
    assert!(doc.line(0).is_none());
}

#[test]
fn document_out_of_bounds() {
    let doc = Document::from_string("one\ntwo".into());
    assert!(doc.line(2).is_none());
    assert!(doc.line(100).is_none());
}

#[test]
fn stream_and_string_sources_have_no_name() {
    assert!(Document::streaming().name().is_none());
    assert!(Document::from_string("a\nb".into()).name().is_none());
}

#[test]
fn named_document_exposes_its_name() {
    let doc = Document::from_named_string("aaa\n".into(), "notes.txt".into());
    assert_eq!(doc.name().map(|n| n.as_str()), Some("notes.txt"));
}

#[test]
fn lines_carry_their_position() {
    let doc = Document::from_string("x\ny\nz".into());
    assert_eq!(doc.line(2).unwrap().index(), 2);
}

#[test]
fn document_line_from_bytes_drops_the_terminator() {
    let line = toss::document::line_from_bytes(3, b"ab\r\n");
    assert_eq!(line.raw(), "ab");
    assert_eq!(line.index(), 3);
    assert_eq!(toss::document::line_from_bytes(0, b"x\r").raw(), "x");
    assert_eq!(toss::document::line_from_bytes(0, b"x\n\n").raw(), "x\n");
}

#[test]
fn document_line_from_bytes_replaces_invalid_utf8() {
    let line = toss::document::line_from_bytes(0, b"a\xffb\n");
    assert_eq!(line.raw(), "a\u{FFFD}b");
}

#[test]
fn from_file_loads_lines_on_demand() {
    let path = ".local/test/test_lazy_load.txt".to_string();
    let doc = Document::from_file_bytes(b"aaa\nbbb\nccc\n".to_vec(), path);
    assert_eq!(doc.line_count(), 3);
    assert_eq!(doc.line(0).unwrap().raw(), "aaa");
    assert_eq!(doc.line(2).unwrap().raw(), "ccc");
    assert_eq!(doc.line(1).unwrap().raw(), "bbb");
    assert!(doc.line(3).is_none());
}

#[test]
fn from_file_exposes_path_as_name() {
    let path = ".local/test/test_name.txt".to_string();
    let doc = Document::from_file_bytes(b"aaa\n".to_vec(), path.clone());
    assert_eq!(doc.name(), Some(&path));
}

#[test]
fn from_file_no_trailing_newline() {
    let path = ".local/test/test_no_trailing.txt".to_string();
    let doc = Document::from_file_bytes(b"hello\nworld".to_vec(), path);
    assert_eq!(doc.line_count(), 2);
    assert_eq!(doc.line(0).unwrap().raw(), "hello");
    assert_eq!(doc.line(1).unwrap().raw(), "world");
}

#[test]
fn from_file_bytes_drops_carriage_returns_and_completes() {
    let doc = Document::from_file_bytes(b"hello\r\nworld\r\n".to_vec(), "t".to_string());
    assert_eq!(doc.line_count(), 2);
    assert_eq!(doc.line(0).unwrap().raw(), "hello");
    assert_eq!(doc.line(1).unwrap().raw(), "world");
    assert!(doc.is_complete());
}

#[test]
fn from_file_bytes_keeps_empty_lines_and_replaces_invalid_utf8() {
    let doc = Document::from_file_bytes(b"a\n\n\xffb\n".to_vec(), "t".to_string());
    assert_eq!(doc.line_count(), 3);
    assert_eq!(doc.line(1).unwrap().raw(), "");
    assert_eq!(doc.line(2).unwrap().raw(), "\u{fffd}b");
    assert_eq!(doc.line(2).unwrap().index(), 2);
    let empty = Document::from_file_bytes(Vec::new(), "t".to_string());
    assert_eq!(empty.line_count(), 0);
}
