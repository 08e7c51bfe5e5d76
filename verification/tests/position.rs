use sudoku::position::Position;

#[test]
fn test_value() {
    let position = Position::with_value(0, 0, 8);

    if let Some(value) = position.get_value() {
        assert_eq!(value, 8);
    }
}

#[test]
fn test_equals() {
    let position_a = Position::new(0, 0);
    let position_b = Position::new(0, 1);
    let position_c = Position::new(0, 0);

    assert_ne!(position_a, position_b);
    assert_eq!(position_a, position_c);
}

#[test]
fn test_position_reset() {
    let mut position = Position::new(2, 3);
    assert_eq!(position.get_value(), None);

    position.set_value(5);
    assert_eq!(position.get_value(), Some(5));

    position.set_dir(None);
    assert_eq!(position.get_value(), None);

    position.reset(1, 1, 7);
    assert_eq!(position.x, 1);
    assert_eq!(position.y, 1);
    assert_eq!(position.get_value(), Some(7));

    position.reset_none(4, 6);
    assert_eq!(position.x, 4);
    assert_eq!(position.y, 6);
    assert_eq!(position.get_value(), Some(7));
}

#[test]
fn test_position_index() {
    let position = Position::with_value(3, 5, 0);
    assert_eq!(position.index, (4, 6));

    let position = Position::new(3, 5);
    assert_eq!(position.index, (3, 5));

    let position = Position::default();
    assert_eq!(position.x, 0);
    assert_eq!(position.y, 0);
    assert_eq!(position.index, (0, 0));
    assert_eq!(position.get_value(), None);
}
