use toss::pager::line_reader::LineReader;
use toss::pager::line_store::LineStore;
use toss::pager::ViewportSize;
use toss::reader::{LinePos, QueryLine, Reader};

fn store(text: &str, height: usize) -> LineStore {
    let reader = Reader::new(text.as_bytes().to_vec());
    LineStore::new(reader, &ViewportSize { width: 80, height })
}

fn read(store: &mut LineStore, query: QueryLine) -> Option<(u64, u64, String)> {
    store.read_line(query).map(|line| {
        let pos = line.meta().pos();
        (pos.start_byte(), pos.end_byte(), line.plain().to_string())
    })
}

#[test]
fn line_store_reads_lines_by_position() {
    let mut s = store("abc\ndefg\nhi", 10);
    assert_eq!(read(&mut s, QueryLine::AtStart), Some((0, 3, "abc".to_string())));
    let first = LinePos::new(0, 3);
    assert_eq!(read(&mut s, QueryLine::NextOf(first)), Some((4, 8, "defg".to_string())));
    let second = LinePos::new(4, 8);
    assert_eq!(read(&mut s, QueryLine::PrevOf(second)), Some((0, 3, "abc".to_string())));
    assert_eq!(read(&mut s, QueryLine::At(second)), Some((4, 8, "defg".to_string())));
    assert_eq!(read(&mut s, QueryLine::AtEnd), Some((9, 11, "hi".to_string())));
    assert_eq!(read(&mut s, QueryLine::AtEnd), Some((9, 11, "hi".to_string())));
    assert_eq!(read(&mut s, QueryLine::NextOf(LinePos::new(9, 11))), None);
    assert_eq!(read(&mut s, QueryLine::PrevOf(first)), None);
}

#[test]
fn line_store_gives_the_same_lines_after_letting_them_go() {
    // Room for two lines: the store lets its lines go on every other read.
    let mut s = store("a\nb\nc\n", 1);
    let mut pos = LinePos::new(0, 1);
    assert_eq!(read(&mut s, QueryLine::AtStart), Some((0, 1, "a".to_string())));
    for (start, text) in [(2u64, "b"), (4u64, "c")] {
        let got = read(&mut s, QueryLine::NextOf(pos));
        assert_eq!(got, Some((start, start + 1, text.to_string())));
        pos = LinePos::new(start, start + 1);
    }
    assert_eq!(read(&mut s, QueryLine::NextOf(pos)), None);
    assert_eq!(read(&mut s, QueryLine::PrevOf(pos)), Some((2, 3, "b".to_string())));
    assert_eq!(read(&mut s, QueryLine::AtEnd), Some((4, 5, "c".to_string())));
}

#[test]
fn line_store_keeps_the_empty_first_line_before_the_second() {
    let second = LinePos::new(1, 2);
    let mut fresh = store("\nb", 10);
    assert_eq!(read(&mut fresh, QueryLine::PrevOf(second)), None);
    let mut warm = store("\nb", 10);
    assert_eq!(read(&mut warm, QueryLine::AtStart), Some((0, 0, String::new())));
    assert_eq!(read(&mut warm, QueryLine::PrevOf(second)), Some((0, 0, String::new())));
}

#[test]
fn line_reader_reads_and_keeps_lines() {
    let reader = Reader::new(b"abc\ndefg\nhi".to_vec());
    let mut r = LineReader::new(reader, &ViewportSize { width: 2, height: 3 });
    let line = r.read_line(QueryLine::AtEnd).expect("last line");
    assert_eq!(*line.meta(), LinePos::new(9, 11));
    assert_eq!(line.plain(), "hi");
    let line = r.read_line(QueryLine::AtStart).expect("first line");
    assert_eq!(*line.meta(), LinePos::new(0, 3));
    assert_eq!(line.row_len(), 2);
    let line = r.read_line(QueryLine::NextOf(LinePos::new(0, 3))).expect("second line");
    assert_eq!(line.plain(), "defg");
    let line = r.read_line(QueryLine::PrevOf(LinePos::new(9, 11))).expect("second line again");
    assert_eq!(*line.meta(), LinePos::new(4, 8));
    assert!(r.read_line(QueryLine::PrevOf(LinePos::new(0, 3))).is_none());
}
