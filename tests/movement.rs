use sodium::buffer::Buffer;
use sodium::cursor::Cursor;
use sodium::editor::Editor;
use sodium::mode::{CommandMode, Mode, PrimitiveMode};

fn editor_of(lines: &[&str]) -> Editor {
    let v: Vec<Vec<char>> = lines.iter().map(|l| l.chars().collect()).collect();
    Editor::new(Buffer::from_lines(v))
}

fn editor_at(lines: &[&str], x: usize, y: usize) -> Editor {
    let mut e = editor_of(lines);
    e.goto((x, y));
    e
}

#[test]
fn fresh_cursor_is_at_origin_in_normal_mode() {
    let c = Cursor::new();
    assert_eq!(c.x, 0);
    assert_eq!(c.y, 0);
    assert_eq!(c.mode, Mode::Command(CommandMode::Normal));
}

#[test]
fn after_crosses_line_without_separator() {
    let e = editor_of(&["abc", "de"]);
    assert_eq!(e.after(1, (2, 0)), Some((0, 1)));
}

#[test]
fn before_crosses_line_without_separator() {
    let e = editor_of(&["abc", "de"]);
    assert_eq!(e.before(1, (0, 1)), Some((2, 0)));
}

#[test]
fn after_zero_stays() {
    let e = editor_of(&["abc", "de"]);
    for &(x, y) in &[(0, 0), (1, 0), (2, 0), (0, 1), (1, 1)] {
        assert_eq!(e.after(0, (x, y)), Some((x, y)));
    }
}

#[test]
fn after_zero_from_end_of_line_wraps() {
    let e = editor_of(&["abc", "de"]);
    assert_eq!(e.after(0, (3, 0)), Some((0, 1)));
    assert_eq!(e.after(0, (2, 1)), None);
}

#[test]
fn before_zero_stays() {
    let e = editor_of(&["abc", "de"]);
    for &(x, y) in &[(0, 0), (3, 0), (0, 1), (2, 1)] {
        assert_eq!(e.before(0, (x, y)), Some((x, y)));
    }
}

#[test]
fn after_within_line() {
    let e = editor_of(&["hello", "x"]);
    assert_eq!(e.after(3, (1, 0)), Some((4, 0)));
}

#[test]
fn after_skips_empty_lines() {
    let e = editor_of(&["ab", "", "", "cd"]);
    assert_eq!(e.after(2, (1, 0)), Some((1, 3)));
    assert_eq!(e.after(1, (1, 0)), Some((0, 3)));
}

#[test]
fn after_runs_off_end() {
    let e = editor_of(&["abc", "de"]);
    assert_eq!(e.after(5, (0, 0)), None);
    assert_eq!(e.after(4, (0, 0)), Some((1, 1)));
    assert_eq!(e.after(1, (1, 1)), None);
}

#[test]
fn before_skips_empty_lines() {
    let e = editor_of(&["ab", "", "", "cd"]);
    assert_eq!(e.before(1, (0, 3)), Some((1, 0)));
    assert_eq!(e.before(2, (1, 3)), Some((1, 0)));
}

#[test]
fn before_runs_off_start() {
    let e = editor_of(&["abc", "de"]);
    assert_eq!(e.before(4, (0, 1)), None);
    assert_eq!(e.before(3, (0, 1)), Some((0, 0)));
    assert_eq!(e.before(1, (0, 0)), None);
}

#[test]
fn before_none_iff_fewer_characters_before() {
    let e = editor_of(&["abc", "", "de"]);
    let pos = (1, 2);
    for n in 0..10 {
        assert_eq!(e.before(n, pos).is_none(), 4 < n);
    }
}

#[test]
fn after_then_before_round_trip() {
    let lines = ["abc", "", "de", "f"];
    let e = editor_of(&lines);
    for (y, l) in lines.iter().enumerate() {
        for x in 0..l.len() {
            for n in 0..8 {
                if let Some(q) = e.after(n, (x, y)) {
                    assert_eq!(e.before(n, q), Some((x, y)));
                }
            }
        }
    }
}

#[test]
fn next_and_previous_use_current_cursor() {
    let e = editor_at(&["abc", "de"], 2, 0);
    assert_eq!(e.next(1), Some((0, 1)));
    assert_eq!(e.previous(2), Some((0, 0)));
    assert_eq!(e.previous(3), None);
}

#[test]
fn right_is_clamped_to_line_length() {
    let e = editor_at(&["abc"], 1, 0);
    assert_eq!(e.right(5), (3, 0));
    assert_eq!(e.right(1), (2, 0));
    assert_eq!(e.right(usize::MAX), (3, 0));
}

#[test]
fn left_is_clamped_at_zero() {
    let e = editor_at(&["abcdef"], 4, 0);
    assert_eq!(e.left(3), (1, 0));
    assert_eq!(e.left(9), (0, 0));
}

#[test]
fn right_and_left_stay_in_line() {
    let e = editor_at(&["ab", "wxyz"], 2, 1);
    for n in 0..8 {
        let (x, y) = e.right(n);
        assert!(x <= 4 && y == 1);
        let (x, y) = e.left(n);
        assert!(x <= 4 && y == 1);
    }
}

#[test]
fn up_keeps_column_and_stops_at_first_line() {
    let e = editor_at(&["a", "b", "long line"], 7, 2);
    assert_eq!(e.up(1), (7, 1));
    assert_eq!(e.up(5), (7, 0));
}

#[test]
fn down_stops_at_last_line_and_bounds_column() {
    let e = editor_at(&["long line", "b", "cd"], 7, 0);
    assert_eq!(e.down(1), (1, 1));
    assert_eq!(e.down(9), (2, 2));
    assert_eq!(e.down(0), (7, 0));
}

#[test]
fn down_never_passes_last_line() {
    let e = editor_at(&["a", "b", "c"], 0, 1);
    for n in 0..6 {
        assert!(e.down(n).1 < 3);
    }
}

#[test]
fn unbounded_moves_do_not_clamp() {
    let e = editor_at(&["abc", "de"], 1, 1);
    assert_eq!(e.right_unbounded(5), (6, 1));
    assert_eq!(e.left_unbounded(3), (-2, 1));
    assert_eq!(e.up_unbounded(4), (1, -3));
    assert_eq!(e.down_unbounded(4), (1, 5));
}

#[test]
fn next_ocur_finds_nth_match() {
    let e = editor_at(&["abcabc"], 0, 0);
    assert_eq!(e.next_ocur('c', 1), Some(2));
    assert_eq!(e.next_ocur('c', 2), Some(5));
    assert_eq!(e.next_ocur('c', 3), None);
    assert_eq!(e.next_ocur('z', 1), None);
}

#[test]
fn next_ocur_scans_from_given_column() {
    let e = editor_at(&["abcabc"], 3, 0);
    assert_eq!(e.next_ocur('c', 1), Some(5));
    assert_eq!(e.next_ocur('a', 1), Some(3));
    let e = editor_at(&["abcabc"], 6, 0);
    assert_eq!(e.next_ocur('c', 1), None);
}

#[test]
fn next_ocur_stays_on_line() {
    let e = editor_at(&["ab", "c"], 0, 0);
    assert_eq!(e.next_ocur('c', 1), None);
}

#[test]
fn ocur_with_zero_count_finds_nothing() {
    let e = editor_at(&["aaa"], 1, 0);
    assert_eq!(e.next_ocur('a', 0), None);
    assert_eq!(e.previous_ocur('a', 0), None);
}

#[test]
fn previous_ocur_scans_left_of_cursor() {
    let e = editor_at(&["abcabc"], 5, 0);
    assert_eq!(e.previous_ocur('c', 1), Some(2));
    assert_eq!(e.previous_ocur('a', 1), Some(3));
    assert_eq!(e.previous_ocur('a', 2), Some(0));
    assert_eq!(e.previous_ocur('a', 3), None);
    assert_eq!(e.previous_ocur('c', 2), None);
}

#[test]
fn previous_ocur_past_line_end_scans_whole_line() {
    let e = editor_at(&["abc"], 9, 0);
    assert_eq!(e.previous_ocur('c', 1), Some(2));
}

#[test]
fn goto_moves_without_bounding() {
    let mut e = editor_of(&["abc"]);
    e.goto((42, 7));
    assert_eq!(e.pos(), (42, 7));
    assert_eq!(e.cursor().mode, Mode::Command(CommandMode::Normal));
}

#[test]
fn cursor_mut_changes_current_cursor() {
    let mut e = editor_of(&["abc"]);
    e.cursor_mut().mode = Mode::Primitive(PrimitiveMode::Insert);
    e.cursor_mut().x = 2;
    assert_eq!(e.x(), 2);
    assert_eq!(e.y(), 0);
    assert_eq!(e.cursor().mode, Mode::Primitive(PrimitiveMode::Insert));
}

#[test]
fn current_char_under_cursor() {
    let e = editor_at(&["abc", "de"], 1, 1);
    assert_eq!(e.current(), Some('e'));
    let e = editor_at(&["abc", "de"], 2, 1);
    assert_eq!(e.current(), None);
}

#[test]
fn left_from_past_line_end_is_bounded() {
    let e = editor_at(&["abc"], 5, 0);
    assert_eq!(e.left(1), (3, 0));
    assert_eq!(e.left(4), (1, 0));
    assert_eq!(e.left(9), (0, 0));
}

#[test]
fn left_after_sticky_up_stays_in_line() {
    let mut e = editor_at(&["ab", "long line"], 7, 1);
    let (x, y) = e.up(1);
    e.goto((x, y));
    assert_eq!(e.left(1), (2, 0));
}

#[test]
fn after_from_past_line_end() {
    let e = editor_of(&["abc", "de"]);
    assert_eq!(e.after(0, (4, 0)), Some((1, 1)));
    assert_eq!(e.after(1, (5, 0)), None);
    assert_eq!(e.after(0, (7, 1)), None);
}

#[test]
fn before_from_past_line_end() {
    let e = editor_of(&["abc", "de"]);
    assert_eq!(e.before(1, (5, 0)), Some((4, 0)));
    assert_eq!(e.before(6, (5, 0)), None);
    assert_eq!(e.before(4, (3, 1)), Some((2, 0)));
}

#[test]
fn next_and_previous_from_past_line_end() {
    let e = editor_at(&["abc", "de"], 4, 0);
    assert_eq!(e.next(0), Some((1, 1)));
    assert_eq!(e.previous(2), Some((2, 0)));
    assert_eq!(e.previous(5), None);
}
