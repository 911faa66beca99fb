use toss::document::Document;
use toss::header::{Header, SectionIndex};
use toss::options::HeadingOptions;
use toss::query::Query;

fn make_doc(content: &str) -> Document {
    Document::from_string(content.to_string())
}

fn index(pattern: &str, header_lines: usize) -> SectionIndex {
    SectionIndex::new(Query::new(pattern).unwrap(), header_lines)
}

#[test]
fn find_section_no_match() {
    let doc = make_doc("line 1\nline 2\nline 3");
    let mut idx = index("^#", 1);
    assert_eq!(idx.find_section(&doc, 2), None);
    assert_eq!(idx.current_section(), None);
}

#[test]
fn find_section_basic() {
    let doc = make_doc("# Section A\nline 1\nline 2\n# Section B\nline 3");
    let mut idx = index("^# ", 1);

    // viewport_top=2: section at line 0 qualifies (0 < 2)
    assert_eq!(idx.find_section(&doc, 2), Some(0));

    // viewport_top=4: section at line 3 qualifies (3 < 4)
    assert_eq!(idx.find_section(&doc, 4), Some(3));
}

#[test]
fn find_section_partially_visible() {
    let doc = make_doc("# Sec\ncontinued\nline 2\nline 3");
    let mut idx = index("^# ", 1);

    // viewport_top=1: section_start=0 < 1, sticky
    assert_eq!(idx.find_section(&doc, 1), Some(0));

    // viewport_top=2: still sticky
    assert_eq!(idx.find_section(&doc, 2), Some(0));
}

#[test]
fn scroll_down_updates_section() {
    let doc = make_doc("# A\nline\n# B\nline\nline");
    let mut idx = index("^# ", 1);

    // Initially no section
    assert_eq!(idx.current_section(), None);

    // Scroll from top=0 to top=1: line 0 (# A) scrolled past (0 < 1)
    idx.update_on_scroll_down(&doc, 0, 1);
    assert_eq!(idx.current_section(), Some(0));

    // Scroll from top=1 to top=3: line 2 (# B) scrolled past (2 < 3)
    idx.update_on_scroll_down(&doc, 1, 3);
    assert_eq!(idx.current_section(), Some(2));
}

#[test]
fn scroll_down_multi_line_header() {
    let doc = make_doc("# A\ncont\nline\nline");
    let mut idx = index("^# ", 1);

    // Scroll from 0 to 1: line 0 matches, 0 < 1 → sticky
    idx.update_on_scroll_down(&doc, 0, 1);
    assert_eq!(idx.current_section(), Some(0));
}

#[test]
fn scroll_up_reverts_to_previous_section() {
    let doc = make_doc("# A\nline\n# B\nline\nline");
    let mut idx = index("^# ", 1);
    // Currently on section B.
    idx.update_on_scroll_down(&doc, 0, 3);
    assert_eq!(idx.current_section(), Some(2));

    // Scroll up so new_top=2: section_start=2 >= new_top=2, no longer sticky.
    // Scan backward from 1: line 1 (no), line 0 (yes) → Section A.
    idx.update_on_scroll_up(&doc, 2);
    assert_eq!(idx.current_section(), Some(0));
}

#[test]
fn scroll_up_no_previous_section() {
    let doc = make_doc("line\nline\n# B\nline");
    let mut idx = index("^# ", 1);
    idx.update_on_scroll_down(&doc, 0, 3);
    assert_eq!(idx.current_section(), Some(2));

    // Scroll up past section B: section_start=2 >= new_top=2
    idx.update_on_scroll_up(&doc, 2);
    assert_eq!(idx.current_section(), None);
}

#[test]
fn find_section_skips_match_within_block() {
    // header_lines=3: section at line 0 owns block [0,1,2].
    // Line 2 matches but is within line 0's block.
    let doc = make_doc("# A\nline\n## sub\nline\nline");
    let mut idx = index("^#", 3);

    // Scanning backward from viewport_top=3: finds ## sub at line 2,
    // then resolves to line 0 (the true section start).
    assert_eq!(idx.find_section(&doc, 3), Some(0));
}

#[test]
fn scroll_down_skips_match_within_block() {
    // header_lines=3: line 0 starts section, block [0,1,2].
    // Line 2 matches but should be skipped.
    let doc = make_doc("# A\nline\n## sub\nline\n# B\nline");
    let mut idx = index("^#", 3);

    // Scroll from 0 to 3: line 0 matches (section), line 2 is within block → skip
    idx.update_on_scroll_down(&doc, 0, 3);
    assert_eq!(idx.current_section(), Some(0));

    // Scroll from 3 to 5: line 4 (# B) matches and is outside block → new section
    idx.update_on_scroll_down(&doc, 3, 5);
    assert_eq!(idx.current_section(), Some(4));
}

#[test]
fn scroll_up_resolves_through_block() {
    // header_lines=3: line 0 starts section, block [0,1,2].
    // Line 2 matches. When scrolling up to find previous section,
    // the backward scan should resolve line 2 → line 0.
    let doc = make_doc("# A\nline\n## sub\nline\n# B\nline");
    let mut idx = index("^#", 3);
    // Currently on section B.
    idx.update_on_scroll_down(&doc, 0, 5);
    assert_eq!(idx.current_section(), Some(4));

    // Scroll up so new_top=4: section B no longer sticky.
    // Backward scan finds ## sub (line 2), resolves to # A (line 0).
    idx.update_on_scroll_up(&doc, 4);
    assert_eq!(idx.current_section(), Some(0));
}

#[test]
fn section_index_rows_to_the_next_section() {
    // Lines 0..4 at width 2: "abcd" takes two rows; "# B" at line 2 is next.
    let doc = make_doc("abcd\nx\n# B\ny");
    let idx = index("^# ", 1);
    assert_eq!(idx.find_next_section_row_distance(&doc, 0, 0, 10, 2), Some(3));
    assert_eq!(idx.find_next_section_row_distance(&doc, 0, 1, 10, 2), Some(2));
    assert_eq!(idx.find_next_section_row_distance(&doc, 0, 0, 3, 2), None);
}

fn heading(pattern: &str, num_lines: usize) -> HeadingOptions {
    HeadingOptions { pattern: Query::new(pattern).unwrap(), num_lines }
}

fn lines_of(rows: &[toss::page::viewport::ScreenRow]) -> Vec<(usize, usize)> {
    rows.iter().map(|r| (r.line_index, r.wrap_index)).collect()
}

#[test]
fn header_pins_fixed_lines_and_the_sticky_heading() {
    let doc = make_doc("title\n# A\na1\na2\n# B\nb1\nb2\nb3");
    let mut header = Header::new(1, Some(heading("^# ", 1)));
    assert_eq!(header.min_top_line(), 1);
    // Viewport at line 3: section A (line 1) is sticky below the title.
    let rows = header.resolve(&doc, 20, 3, 0, true);
    assert_eq!(lines_of(&rows), vec![(0, 0), (1, 0)]);
    assert_eq!(header.current_section(), Some(1));
    assert_eq!(header.section_overlay(), 0);
    assert_eq!(header.resolve_fixed_height(&doc, 20), 1);
}

#[test]
fn header_block_is_pushed_up_by_the_next_section() {
    let doc = make_doc("# A\na1\nx\n# B\nb1\ny");
    let mut header = Header::new(0, Some(heading("^# ", 2)));
    // Viewport at line 2: "# B" is one row below the top, so only the last
    // row of the two-line block of A shows.
    let rows = header.resolve(&doc, 20, 2, 0, true);
    assert_eq!(lines_of(&rows), vec![(1, 0)]);
    assert_eq!(header.section_overlay(), 1);
}

#[test]
fn header_scroll_follows_sections() {
    let doc = make_doc("# A\nx\n# B\ny\nz");
    let mut header = Header::new(0, Some(heading("^# ", 1)));
    header.update_section_on_scroll(&doc, 0, 3, true);
    assert_eq!(header.current_section(), Some(2));
    header.update_section_on_scroll(&doc, 3, 1, false);
    assert_eq!(header.current_section(), Some(0));
}
