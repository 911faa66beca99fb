use std::io::{Cursor, Read};

use toss::reader::{LinePos, QueryLine, Reader};

fn read_all(mut source: impl Read) -> Vec<u8> {
    let mut content = Vec::new();
    source.read_to_end(&mut content).expect("read source");
    content
}

fn read_lines_back_and_forth(content: Vec<u8>) {
    let mut reader = Reader::new(content);

    // Read forward
    {
        let (pos, text) = reader.read_line(QueryLine::AtStart).unwrap();
        assert_eq!(text, "abcde");
        assert_eq!(pos, LinePos::new(0, 5));

        let (pos, text) = reader.read_line(QueryLine::NextOf(pos)).unwrap();
        assert_eq!(text, "1234567");
        assert_eq!(pos, LinePos::new(6, 13));

        let (pos, text) = reader.read_line(QueryLine::NextOf(pos)).unwrap();
        assert_eq!(text, "890");
        assert_eq!(pos, LinePos::new(14, 17));

        let result = reader.read_line(QueryLine::NextOf(pos));
        assert_eq!(result, None);

        let (_pos, text) = reader.read_line(QueryLine::AtStart).unwrap();
        assert_eq!(text, "abcde");
    }

    // Read backward
    {
        let (pos, text) = reader.read_line(QueryLine::AtEnd).unwrap();
        assert_eq!(text, "890");
        assert_eq!(pos, LinePos::new(14, 17));

        let (pos, text) = reader.read_line(QueryLine::PrevOf(pos)).unwrap();
        assert_eq!(text, "1234567");
        assert_eq!(pos, LinePos::new(6, 13));

        let (pos, text) = reader.read_line(QueryLine::PrevOf(pos)).unwrap();
        assert_eq!(text, "abcde");
        assert_eq!(pos, LinePos::new(0, 5));

        let result = reader.read_line(QueryLine::PrevOf(pos));
        assert_eq!(result, None);
    }
}

#[test]
fn readable_read_lines_back_and_forth() {
    let s = "abcde\n1234567\n890".to_string();
    read_lines_back_and_forth(read_all(Cursor::new(s)));
}

#[test]
fn seekable_read_lines_back_and_forth() {
    let s = "abcde\n1234567\n890".to_string();
    read_lines_back_and_forth(s.into_bytes());
}

#[test]
fn reader_last_line_skips_a_final_line_break() {
    let mut reader = Reader::new(b"one\ntwo\n".to_vec());
    let (pos, text) = reader.read_line(QueryLine::AtEnd).unwrap();
    assert_eq!(text, "two");
    assert_eq!(pos, LinePos::new(4, 7));
    // The answer is the same once the reader knows how the text ends.
    let (pos, text) = reader.read_line(QueryLine::AtEnd).unwrap();
    assert_eq!((pos, text.as_str()), (LinePos::new(4, 7), "two"));
    assert_eq!(reader.read_line(QueryLine::NextOf(pos)), None);
}

#[test]
fn reader_empty_text_has_no_lines() {
    let mut reader = Reader::new(Vec::new());
    assert_eq!(reader.read_line(QueryLine::AtStart), None);
    assert_eq!(reader.read_line(QueryLine::AtEnd), None);
}

#[test]
fn reader_reads_empty_lines_and_replaces_invalid_utf8() {
    let mut reader = Reader::new(b"a\n\n\xffb".to_vec());
    let (pos, text) = reader.read_line(QueryLine::AtStart).unwrap();
    assert_eq!((pos, text.as_str()), (LinePos::new(0, 1), "a"));
    let (pos, text) = reader.read_line(QueryLine::NextOf(pos)).unwrap();
    assert_eq!((pos, text.as_str()), (LinePos::new(2, 2), ""));
    let (pos, text) = reader.read_line(QueryLine::NextOf(pos)).unwrap();
    assert_eq!((pos, text.as_str()), (LinePos::new(3, 5), "\u{fffd}b"));
    // Back again: the empty line, then the first.
    let (pos, text) = reader.read_line(QueryLine::PrevOf(pos)).unwrap();
    assert_eq!((pos, text.as_str()), (LinePos::new(2, 2), ""));
    let (pos, text) = reader.read_line(QueryLine::PrevOf(pos)).unwrap();
    assert_eq!((pos, text.as_str()), (LinePos::new(0, 1), "a"));
    // The line at a position.
    let (_, text) = reader.read_line(QueryLine::At(LinePos::new(3, 5))).unwrap();
    assert_eq!(text, "\u{fffd}b");
}

#[test]
fn reader_has_no_line_before_one_that_follows_a_leading_line_break() {
    let mut reader = Reader::new(b"\nx".to_vec());
    let (pos, text) = reader.read_line(QueryLine::AtEnd).unwrap();
    assert_eq!((pos, text.as_str()), (LinePos::new(1, 2), "x"));
    assert_eq!(reader.read_line(QueryLine::PrevOf(pos)), None);
}

#[test]
fn reader_cursors_walk_the_lines_both_ways() {
    let mut reader = Reader::new(b"l1\nl2\nl3".to_vec());
    let mut forward = Vec::new();
    {
        let mut cursor = reader.lines_from(QueryLine::AtStart);
        while let Some((_, text)) = cursor.next() {
            forward.push(text);
        }
    }
    assert_eq!(forward, vec!["l1", "l2", "l3"]);
    let mut backward = Vec::new();
    {
        let mut cursor = reader.lines_rev_from(QueryLine::AtEnd);
        while let Some((_, text)) = cursor.next() {
            backward.push(text);
        }
    }
    assert_eq!(backward, vec!["l3", "l2", "l1"]);
}

#[test]
fn line_positions_lead_to_each_other() {
    let p = LinePos::new(0, 3);
    let q = LinePos::new(p.next_start_byte(), 8);
    assert_eq!(q.start_byte(), 4);
    assert_eq!(q.prev_end_byte(), Some(p.end_byte()));
    assert_eq!(LinePos::new(0, 5).prev_end_byte(), None);
}
