use sodium::buffer::Buffer;
use sodium::cursor::Cursor;
use sodium::editor::Editor;

fn cursor_at(x: usize, y: usize) -> Cursor {
    let mut c = Cursor::new();
    c.x = x;
    c.y = y;
    c
}

#[test]
fn single_cursor_advance_is_no_op() {
    let mut e = Editor::new(Buffer::new());
    e.goto((0, 0));
    let before = *e.cursor();
    e.next_cursor();
    assert_eq!(*e.cursor(), before);
    e.next_cursor();
    assert_eq!(*e.cursor(), before);
}

#[test]
fn advance_cycles_through_cursors() {
    let cs = vec![cursor_at(1, 0), cursor_at(2, 0), cursor_at(3, 0)];
    let mut e = Editor::with_cursors(Buffer::new(), cs, 1).unwrap();
    assert_eq!(e.x(), 2);
    e.next_cursor();
    assert_eq!(e.x(), 3);
    e.next_cursor();
    assert_eq!(e.x(), 1);
    e.next_cursor();
    assert_eq!(e.x(), 2);
}

#[test]
fn advance_length_times_returns_to_start() {
    for len in 1..=256usize {
        let cs: Vec<Cursor> = (0..len).map(|i| cursor_at(i, 0)).collect();
        let start = (len / 2) as u8;
        let mut e = Editor::with_cursors(Buffer::new(), cs, start).unwrap();
        for _ in 0..len {
            e.next_cursor();
        }
        assert_eq!(e.x(), start as usize);
    }
}

#[test]
fn with_cursors_rejects_bad_registries() {
    assert!(Editor::with_cursors(Buffer::new(), Vec::new(), 0).is_none());
    assert!(Editor::with_cursors(Buffer::new(), vec![Cursor::new()], 1).is_none());
    let many: Vec<Cursor> = (0..257).map(|i| cursor_at(i, 0)).collect();
    assert!(Editor::with_cursors(Buffer::new(), many, 0).is_none());
    assert!(Editor::with_cursors(Buffer::new(), vec![Cursor::new(); 2], 1).is_some());
}

#[test]
fn new_buffer_has_one_empty_line() {
    let b = Buffer::new();
    assert_eq!(b.len(), 1);
    assert_eq!(b.get_line(0).len(), 0);
}
