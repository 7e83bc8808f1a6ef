use sudoko::block::SudokoBlock;
use sudoko::error::SudokoError;
use sudoko::value::SudokoValue;

fn digit(d: u8) -> SudokoValue {
    SudokoValue { digit: Some(d), selected: false }
}

#[test]
fn value_from_optional_digit() {
    let empty = SudokoValue { digit: None, selected: false };
    assert_eq!(SudokoValue::new(None), Ok(empty));
    assert_eq!(SudokoValue::new(Some(0)), Ok(empty));
    assert_eq!(SudokoValue::new(Some(1)), Ok(digit(1)));
    assert_eq!(SudokoValue::new(Some(9)), Ok(digit(9)));
    assert_eq!(SudokoValue::new(Some(10)), Err(SudokoError::InvalidDigit));
}

#[test]
fn value_projects_to_digit() {
    assert_eq!(digit(7).to_value(), Some(7));
    assert_eq!(SudokoValue::new(None).unwrap().to_value(), None);
    assert!(SudokoValue::new(None).unwrap().is_empty());
    assert!(!digit(3).is_empty());
    assert!(digit(3).is_valid());
    assert!(!SudokoValue { digit: Some(0), selected: false }.is_valid());
    assert!(digit(3).with_selected(true).selected);
}

#[test]
fn full_set_is_nine_digits_ascending() {
    let all = SudokoValue::full_hashset();
    assert_eq!(all.len(), 9);
    for (i, v) in all.iter().enumerate() {
        assert_eq!(*v, digit(i as u8 + 1));
    }
}

#[test]
fn block_addresses_are_checked() {
    let b = SudokoBlock::new();
    assert_eq!(b.get_value(0, 1), Err(SudokoError::InvalidRow));
    assert_eq!(b.get_value(4, 1), Err(SudokoError::InvalidRow));
    assert_eq!(b.get_value(2, 0), Err(SudokoError::InvalidColumn));
    assert_eq!(b.get_value(2, 4), Err(SudokoError::InvalidColumn));
    let i = b.convert_to_index(2, 3).unwrap();
    assert_eq!(i.index_block, 5);
}

#[test]
fn block_set_get_and_values() {
    let mut b = SudokoBlock::new();
    assert_eq!(b.get_values(), vec![]);
    b.set_value(1, 2, SudokoValue { digit: Some(4), selected: true }).unwrap();
    b.set_value(3, 3, digit(2)).unwrap();
    assert_eq!(b.set_value(0, 3, digit(2)), Err(SudokoError::InvalidRow));
    assert_eq!(b.get_value(1, 2), Ok(SudokoValue { digit: Some(4), selected: true }));
    assert_eq!(b.get_values(), vec![digit(4), digit(2)]);
    assert_eq!(b.validate(), Ok(()));
}

#[test]
fn block_validation_names_repeated_digit() {
    let mut b = SudokoBlock::new();
    b.set_value(1, 1, digit(6)).unwrap();
    b.set_value(2, 1, digit(3)).unwrap();
    b.set_value(2, 2, digit(6)).unwrap();
    b.set_value(3, 3, digit(3)).unwrap();
    assert_eq!(b.validate(), Err(6));
}
