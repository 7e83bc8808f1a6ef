use sudoko::cursor::Cursor;

#[test]
fn cursor_starts_top_left() {
    let c = Cursor::new();
    assert_eq!((c.row, c.col), (1, 1));
}

#[test]
fn cursor_moves_and_saturates() {
    let mut c = Cursor::new();
    c.move_left();
    c.move_up();
    assert_eq!((c.row, c.col), (1, 1));
    for _ in 0..12 {
        c.move_right();
        c.move_down();
    }
    assert_eq!((c.row, c.col), (9, 9));
    c.move_left();
    c.move_up();
    assert_eq!((c.row, c.col), (8, 8));
}

#[test]
fn cursor_right_from_outside_goes_to_last_column() {
    let mut c = Cursor { row: 1, col: 0 };
    c.move_right();
    assert_eq!(c.col, 9);
    let mut c = Cursor { row: 1, col: 12 };
    c.move_right();
    assert_eq!(c.col, 9);
    c.move_left();
    assert_eq!(c.col, 8);
}
