use sudoko::board::Sudoko;
use sudoko::error::{Place, SudokoError};
use sudoko::value::SudokoValue;

fn digit(d: u8) -> SudokoValue {
    SudokoValue { digit: Some(d), selected: false }
}

fn candidates(s: &Sudoko, r: usize, c: usize) -> Vec<u8> {
    match s.find_possible_values(r, c).unwrap() {
        None => vec![],
        Some(v) => v.iter().map(|x| x.digit.unwrap()).collect(),
    }
}

/// A complete valid grid.
fn solved_digit(r: usize, c: usize) -> u8 {
    (((r - 1) * 3 + (r - 1) / 3 + (c - 1)) % 9 + 1) as u8
}

fn solved_board() -> Sudoko {
    let mut s = Sudoko::new();
    for r in 1..=9 {
        for c in 1..=9 {
            s.set_value(r, c, digit(solved_digit(r, c))).unwrap();
        }
    }
    s
}

fn snapshot(s: &Sudoko) -> Vec<(SudokoValue, bool)> {
    let mut out = Vec::new();
    for r in 1..=9 {
        for c in 1..=9 {
            out.push((s.get_value(r, c).unwrap(), s.is_locked(r, c)));
        }
    }
    out
}

#[test]
fn index_round_trips_for_every_cell() {
    for r in 1..=9usize {
        for c in 1..=9usize {
            let i = Sudoko::convert_to_index(r, c).unwrap();
            assert_eq!((i.row, i.col), (r, c));
            assert_eq!((i.row_block - 1) * 3 + i.internal_row, r);
            assert_eq!((i.col_block - 1) * 3 + i.internal_col, c);
            assert_eq!(i.index_block, (i.row_block - 1) * 3 + (i.col_block - 1));
        }
    }
    let i = Sudoko::convert_to_index(5, 8).unwrap();
    assert_eq!((i.row_block, i.col_block, i.internal_row, i.internal_col, i.index_block), (2, 3, 2, 2, 5));
}

#[test]
fn index_rejects_each_axis() {
    assert_eq!(Sudoko::convert_to_index(0, 5), Err(SudokoError::InvalidRow));
    assert_eq!(Sudoko::convert_to_index(10, 5), Err(SudokoError::InvalidRow));
    assert_eq!(Sudoko::convert_to_index(0, 0), Err(SudokoError::InvalidRow));
    assert_eq!(Sudoko::convert_to_index(5, 0), Err(SudokoError::InvalidColumn));
    assert_eq!(Sudoko::convert_to_index(5, 10), Err(SudokoError::InvalidColumn));
}

#[test]
fn new_board_is_empty() {
    let s = Sudoko::new();
    for r in 1..=9 {
        for c in 1..=9 {
            assert_eq!(s.get_value(r, c), Ok(SudokoValue { digit: None, selected: false }));
            assert!(!s.is_locked(r, c));
        }
    }
    assert_eq!(s.get_value(10, 1), Err(SudokoError::InvalidRow));
    assert_eq!(s.get_value(1, 10), Err(SudokoError::InvalidColumn));
}

#[test]
fn set_value_writes_without_validating() {
    let mut s = Sudoko::new();
    s.set_value(3, 7, digit(8)).unwrap();
    s.set_value(3, 8, digit(8)).unwrap();
    assert_eq!(s.get_value(3, 7), Ok(digit(8)));
    assert_eq!(s.get_value(3, 8), Ok(digit(8)));
    assert_eq!(s.set_value(0, 1, digit(1)), Err(SudokoError::InvalidRow));
    assert_eq!(s.set_value(1, 0, digit(1)), Err(SudokoError::InvalidColumn));
}

#[test]
fn select_twice_is_select_once() {
    let mut once = Sudoko::new();
    once.set_value(4, 4, digit(2)).unwrap();
    once.select_value(4, 4).unwrap();
    let mut twice = Sudoko::new();
    twice.set_value(4, 4, digit(2)).unwrap();
    twice.select_value(4, 4).unwrap();
    twice.select_value(4, 4).unwrap();
    assert_eq!(snapshot(&once), snapshot(&twice));
    assert_eq!(twice.get_value(4, 4), Ok(SudokoValue { digit: Some(2), selected: true }));
}

#[test]
fn selecting_another_cell_clears_the_first() {
    let mut s = Sudoko::new();
    s.set_value(1, 1, digit(5)).unwrap();
    s.select_value(1, 1).unwrap();
    s.select_value(2, 3).unwrap();
    for r in 1..=9 {
        for c in 1..=9 {
            assert_eq!(s.get_value(r, c).unwrap().selected, (r, c) == (2, 3));
        }
    }
    assert_eq!(s.get_value(1, 1), Ok(digit(5)));
    assert_eq!(s.select_value(0, 3), Err(SudokoError::InvalidRow));
    assert_eq!(s.select_value(3, 0), Err(SudokoError::InvalidColumn));
}

#[test]
fn unselect_clears_the_flag() {
    let mut s = Sudoko::new();
    s.select_value(6, 2).unwrap();
    s.unselect_value().unwrap();
    assert!(!s.get_value(6, 2).unwrap().selected);
    s.unselect_value().unwrap();
    s.select_value(6, 2).unwrap();
    assert!(s.get_value(6, 2).unwrap().selected);
}

#[test]
fn lock_blocks_writes_until_unlock() {
    let mut s = Sudoko::new();
    s.set_value(2, 6, digit(5)).unwrap();
    s.lock().unwrap();
    assert!(s.is_locked(2, 6));
    assert!(!s.is_locked(2, 7));
    assert_eq!(s.set_value(2, 6, digit(7)), Err(SudokoError::LockedCell));
    assert_eq!(s.get_value(2, 6), Ok(digit(5)));
    s.set_value(2, 7, digit(7)).unwrap();
    s.lock().unwrap();
    s.lock().unwrap();
    assert!(s.is_locked(2, 7));
    s.unlock();
    assert!(!s.is_locked(2, 6));
    s.set_value(2, 6, digit(7)).unwrap();
    assert_eq!(s.get_value(2, 6), Ok(digit(7)));
}

#[test]
fn empty_board_allows_every_digit() {
    let s = Sudoko::new();
    for r in 1..=9 {
        for c in 1..=9 {
            assert_eq!(candidates(&s, r, c), vec![1, 2, 3, 4, 5, 6, 7, 8, 9]);
        }
    }
}

#[test]
fn placed_digit_leaves_its_peers() {
    let mut s = Sudoko::new();
    s.set_value(1, 1, digit(4)).unwrap();
    assert!(!candidates(&s, 1, 2).contains(&4));
    assert!(!candidates(&s, 2, 1).contains(&4));
    assert!(!candidates(&s, 2, 2).contains(&4));
    assert!(candidates(&s, 5, 5).contains(&4));
    assert_eq!(candidates(&s, 1, 5), vec![1, 2, 3, 5, 6, 7, 8, 9]);
    assert_eq!(s.find_possible_values(0, 1), Err(SudokoError::InvalidRow));
    assert_eq!(s.find_possible_values(1, 0), Err(SudokoError::InvalidColumn));
}

#[test]
fn cell_with_no_candidate_gives_none() {
    let mut s = Sudoko::new();
    for c in 2..=9 {
        s.set_value(1, c, digit(c as u8 - 1)).unwrap();
    }
    s.set_value(2, 1, digit(9)).unwrap();
    assert_eq!(s.find_possible_values(1, 1), Ok(None));
}

#[test]
fn validation_reports_block_before_row() {
    let mut s = Sudoko::new();
    s.set_value(1, 1, digit(3)).unwrap();
    s.set_value(2, 2, digit(3)).unwrap();
    s.set_value(5, 1, digit(7)).unwrap();
    s.set_value(5, 9, digit(7)).unwrap();
    assert_eq!(s.validate(), Err(SudokoError::DuplicateValue(3, Place::Block(0))));
    assert_eq!(s.validate_row(5), Err(SudokoError::DuplicateValue(7, Place::Row(5, 9))));
}

#[test]
fn validation_reports_row_then_column() {
    let mut s = Sudoko::new();
    s.set_value(5, 1, digit(7)).unwrap();
    s.set_value(5, 9, digit(7)).unwrap();
    s.set_value(1, 2, digit(2)).unwrap();
    s.set_value(9, 2, digit(2)).unwrap();
    assert_eq!(s.validate(), Err(SudokoError::DuplicateValue(7, Place::Row(5, 9))));
    s.set_value(5, 9, digit(1)).unwrap();
    assert_eq!(s.validate(), Err(SudokoError::DuplicateValue(2, Place::Column(2, 9))));
    assert_eq!(s.validate_col(2), Err(SudokoError::DuplicateValue(2, Place::Column(2, 9))));
    s.set_value(9, 2, digit(3)).unwrap();
    assert_eq!(s.validate(), Ok(()));
}

#[test]
fn line_validation_checks_its_index() {
    let s = Sudoko::new();
    assert_eq!(s.validate_row(0), Err(SudokoError::InvalidRow));
    assert_eq!(s.validate_row(10), Err(SudokoError::InvalidRow));
    assert_eq!(s.validate_col(0), Err(SudokoError::InvalidColumn));
    assert_eq!(s.validate_col(10), Err(SudokoError::InvalidColumn));
    assert_eq!(s.validate_row(3), Ok(()));
    assert_eq!(s.validate_col(3), Ok(()));
    assert_eq!(solved_board().validate(), Ok(()));
}

#[test]
fn solve_step_fills_the_last_empty_cell() {
    let mut s = solved_board();
    s.set_value(5, 5, SudokoValue::new(None).unwrap()).unwrap();
    let cur = s.solve_step().unwrap();
    assert_eq!((cur.row, cur.col), (5, 5));
    assert_eq!(s.get_value(5, 5), Ok(digit(solved_digit(5, 5))));
}

#[test]
fn solve_step_on_full_board_changes_nothing() {
    let mut s = solved_board();
    let before = snapshot(&s);
    let cur = s.solve_step().unwrap();
    assert_eq!((cur.row, cur.col), (1, 1));
    assert_eq!(snapshot(&s), before);
    s.solve().unwrap();
    assert_eq!(snapshot(&s), before);
}

#[test]
fn solve_step_on_empty_board_finds_nothing() {
    let mut s = Sudoko::new();
    let cur = s.solve_step().unwrap();
    assert_eq!((cur.row, cur.col), (1, 1));
    assert_eq!(s.get_value(1, 1), Ok(SudokoValue { digit: None, selected: false }));
}

#[test]
fn solve_step_finds_hidden_single() {
    let mut s = Sudoko::new();
    s.set_value(1, 4, digit(1)).unwrap();
    s.set_value(3, 7, digit(1)).unwrap();
    s.set_value(4, 1, digit(1)).unwrap();
    s.set_value(7, 3, digit(1)).unwrap();
    let cur = s.solve_step().unwrap();
    assert_eq!((cur.row, cur.col), (2, 2));
    assert_eq!(s.get_value(2, 2), Ok(digit(1)));
}

#[test]
fn row_missing_one_digit_end_to_end() {
    let mut s = Sudoko::new();
    for c in 1..=8 {
        s.set_value(1, c, digit(c as u8)).unwrap();
    }
    assert_eq!(s.find_possible_values(1, 9), Ok(Some(vec![digit(9)])));
    let cur = s.solve_step().unwrap();
    assert_eq!((cur.row, cur.col), (1, 9));
    assert_eq!(s.get_value(1, 9), Ok(digit(9)));
}
