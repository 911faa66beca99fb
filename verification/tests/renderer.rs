use toss::renderer::{as_scroll, dirty_groups, plan_shift, PaintedFrame, PaintedGroup, PaintedRow};
use toss::screen::Direction;

fn frame(rows: &[(usize, &str)], status: &str) -> PaintedFrame {
    let mut groups = Vec::new();
    let mut painted = Vec::new();
    for (y, &(line_index, text)) in rows.iter().enumerate() {
        groups.push(PaintedGroup {
            y,
            height: 1,
            text: Some(text.to_string()),
        });
        painted.push(PaintedRow {
            pos: (line_index, 0),
            raw: 0..text.len(),
            group: y,
        });
    }
    PaintedFrame {
        groups,
        rows: painted,
        status: status.to_string(),
        status_y: rows.len(),
        height: rows.len(),
    }
}

#[test]
fn shift_is_zero_for_an_unchanged_frame() {
    let old = frame(&[(0, "a"), (1, "b"), (2, "c")], "s");
    let new = frame(&[(0, "a"), (1, "b"), (2, "c")], "s");
    assert_eq!(plan_shift(&old, &new), 0);
    assert!(dirty_groups(&old, &new, 0).is_empty());
}

#[test]
fn scrolling_down_shifts_the_content_up() {
    let old = frame(&[(0, "a"), (1, "b"), (2, "c")], "s");
    let new = frame(&[(2, "c"), (3, "d"), (4, "e")], "s");
    assert_eq!(plan_shift(&old, &new), 2);
    assert_eq!(dirty_groups(&old, &new, 2), vec![1, 2]);
}

#[test]
fn scrolling_up_shifts_the_content_down() {
    let old = frame(&[(2, "c"), (3, "d"), (4, "e")], "s");
    let new = frame(&[(1, "b"), (2, "c"), (3, "d")], "s");
    assert_eq!(plan_shift(&old, &new), -1);
    assert_eq!(dirty_groups(&old, &new, -1), vec![0]);
}

#[test]
fn sticky_rows_do_not_decide_the_shift() {
    let old = frame(&[(0, "# A"), (3, "c"), (4, "d"), (5, "e")], "s");
    let new = frame(&[(0, "# A"), (4, "d"), (5, "e"), (6, "f")], "s");
    assert_eq!(plan_shift(&old, &new), 1);
    assert_eq!(dirty_groups(&old, &new, 1), vec![0, 3]);
}

#[test]
fn a_tie_between_two_directions_is_broken_deterministically() {
    let old = frame(&[(0, "a"), (1, "b"), (2, "c")], "s");
    let new = frame(&[(1, "b"), (0, "a"), (9, "z")], "s");
    assert_eq!(plan_shift(&old, &new), -1);
}

#[test]
fn a_shift_that_saves_nothing_loses_to_staying_put() {
    let old = frame(&[(0, "a"), (1, "b"), (2, "c")], "s");
    let new = frame(&[(7, "x"), (8, "y"), (9, "z")], "s");
    assert_eq!(plan_shift(&old, &new), 0);
    assert_eq!(dirty_groups(&old, &new, 0), vec![0, 1, 2]);
}

#[test]
fn changed_text_makes_a_row_dirty_in_place() {
    let old = frame(&[(0, "a"), (1, "hit"), (2, "c")], "s");
    let new = frame(&[(0, "a"), (1, "{rev}hit{/rev}"), (2, "c")], "s");
    assert_eq!(plan_shift(&old, &new), 0);
    assert_eq!(dirty_groups(&old, &new, 0), vec![1]);
}

#[test]
fn a_shift_turns_into_a_terminal_scroll() {
    let down = as_scroll(2).expect("a non-zero shift scrolls");
    assert_eq!(down.direction, Direction::Down);
    assert_eq!(down.num_rows.get(), 2);

    let up = as_scroll(-3).expect("a non-zero shift scrolls");
    assert_eq!(up.direction, Direction::Up);
    assert_eq!(up.num_rows.get(), 3);

    assert!(as_scroll(0).is_none());
}

#[test]
fn the_most_voted_shift_wins_over_a_closer_one() {
    let old = frame(&[(0, "a"), (1, "b"), (2, "c"), (3, "d")], "s");
    // Rows 2 and 3 moved up by two; row 0 stayed.
    let new = frame(&[(0, "a"), (2, "c"), (3, "d"), (9, "z")], "s");
    assert_eq!(plan_shift(&old, &new), 1);
}

use toss::document::Document;
use toss::options::Options;
use toss::pager::Pager;
use toss::renderer::{build_frame, plan_render};
use toss::screen::ScreenSize;

#[test]
fn wrapped_line_is_painted_as_one_group() {
    let doc = Document::from_string("abcdefgh\nxy\n".into());
    let pager = Pager::new(Document::from_string("abcdefgh\nxy\n".into()), Options::default(), ScreenSize::new(5, 4));
    let snap = pager.snapshot();
    let frame = build_frame(&doc, &snap);
    assert_eq!(frame.rows.len(), 3);
    assert_eq!(frame.groups.len(), 2);
    assert_eq!(frame.groups[0], PaintedGroup { y: 0, height: 2, text: Some("abcdefgh".to_string()) });
    assert_eq!(frame.groups[1], PaintedGroup { y: 2, height: 1, text: Some("xy".to_string()) });
    assert_eq!(frame.rows[1].group, 0);
    assert_eq!(frame.rows[1].raw, 5..8);
    assert_eq!(frame.status_y, 3);
    assert_eq!(frame.height, 3);
}

#[test]
fn first_render_redraws_everything_then_only_what_moved() {
    let doc = Document::from_string("a\nb\nc\nd\ne\nf\n".into());
    let mut pager = Pager::new(Document::from_string("a\nb\nc\nd\ne\nf\n".into()), Options::default(), ScreenSize::new(10, 4));
    let first = build_frame(&doc, &pager.snapshot());
    let plan = plan_render(None, &first);
    assert!(plan.scroll.is_none());
    assert_eq!(plan.dirty, vec![0, 1, 2]);
    assert_eq!((plan.blank_start, plan.blank_end), (3, 4));

    pager.scroll(1);
    let second = build_frame(&doc, &pager.snapshot());
    let plan = plan_render(Some(&first), &second);
    let scroll = plan.scroll.expect("the content moved up by one row");
    assert_eq!(scroll.direction, Direction::Down);
    assert_eq!(scroll.num_rows.get(), 1);
    assert_eq!(plan.dirty, vec![2]);
}
