use sudoku::board::get_index;
use sudoku::board::Board;
use sudoku::board::SIDE;

/// Gets a filled board to test against.
fn get_board_with_values() -> Board {
    let inner_info_1 = [0, 1, 2, 3, 4, 5, 6, 7, 8];
    let inner_info_2 = [3, 4, 5, 6, 7, 8, 0, 1, 2];
    let inner_info_3 = [6, 7, 8, 0, 1, 2, 3, 4, 5];
    let inner_info_4 = [1, 2, 0, 4, 5, 3, 7, 8, 6];
    let inner_info_5 = [4, 5, 3, 7, 8, 6, 1, 2, 0];
    let inner_info_6 = [7, 8, 6, 1, 2, 0, 4, 5, 3];
    let inner_info_7 = [2, 0, 1, 5, 3, 4, 8, 6, 7];
    let inner_info_8 = [5, 3, 4, 8, 6, 7, 2, 0, 1];
    let inner_info_9 = [8, 6, 7, 2, 0, 1, 5, 3, 4];

    let info = [
        inner_info_1,
        inner_info_2,
        inner_info_3,
        inner_info_4,
        inner_info_5,
        inner_info_6,
        inner_info_7,
        inner_info_8,
        inner_info_9,
    ];
    Board::with_rows(info)
}

/// Get a board mostly filled.
fn get_empty_board() -> Board {
    let inner_info_1 = [7, 3, 5, 9, 10, 10, 8, 10, 10];
    let inner_info_2 = [9, 10, 10, 10, 6, 10, 10, 10, 10];
    let inner_info_3 = [8, 10, 10, 10, 10, 10, 10, 1, 10];
    let inner_info_4 = [10, 10, 9, 10, 10, 10, 10, 4, 10];
    let inner_info_5 = [10, 10, 8, 10, 10, 10, 10, 10, 10];
    let inner_info_6 = [10, 10, 10, 10, 10, 9, 10, 10, 10];
    let inner_info_7 = [10, 9, 10, 10, 10, 6, 10, 10, 3];
    let inner_info_8 = [10, 8, 10, 10, 10, 3, 10, 10, 10];
    let inner_info_9 = [4, 7, 3, 10, 10, 10, 2, 10, 6];

    let info = [
        inner_info_1,
        inner_info_2,
        inner_info_3,
        inner_info_4,
        inner_info_5,
        inner_info_6,
        inner_info_7,
        inner_info_8,
        inner_info_9,
    ];
    Board::with_rows(info)
}

/// Get a board filled only with 1s to simulate a "false" board.
fn get_board_with_false_values() -> Board {
    let inner_info_1 = [1, 1, 1, 1, 1, 1, 1, 1, 1];
    let inner_info_2 = [1, 1, 1, 1, 1, 1, 1, 1, 1];
    let inner_info_3 = [1, 1, 1, 1, 1, 1, 1, 1, 1];
    let inner_info_4 = [1, 1, 1, 1, 1, 1, 1, 1, 1];
    let inner_info_5 = [1, 1, 1, 1, 1, 1, 1, 1, 1];
    let inner_info_6 = [1, 1, 1, 1, 1, 1, 1, 1, 1];
    let inner_info_7 = [1, 1, 1, 1, 1, 1, 1, 1, 1];
    let inner_info_8 = [1, 1, 1, 1, 1, 1, 1, 1, 1];
    let inner_info_9 = [1, 1, 1, 1, 1, 1, 1, 1, 1];

    let info = [
        inner_info_1,
        inner_info_2,
        inner_info_3,
        inner_info_4,
        inner_info_5,
        inner_info_6,
        inner_info_7,
        inner_info_8,
        inner_info_9,
    ];
    Board::with_squares(info)
}

#[test]
fn test_from_string() {
    let test_string =
        "0b2345678345678012678012345120453786453786120786120453201534867534867201867201534";
    let test_board = Board::from_string(test_string.to_string()).unwrap();

    assert!(test_board.test_board());
    assert!(test_board.get(1, 1) == Some(4));

    let test_string =
        "abcdefghidefghiabcghiabcdefbcaefdhigefdhigbcahigbcaefdcabfdeighfdeighcabighcabfde";
    let test_board = Board::from_string(test_string.to_string()).unwrap();

    assert!(test_board.test_board());
    assert!(test_board.get(1, 1) == Some(4));
}

#[test]
fn test_to_string() {
    let test_string =
        "abcdefghidefghiabcghiabcdefbcaefdhigefdhigbcahigbcaefdcabfdeighfdeighcabighcabfde";

    let test_board = get_board_with_values();
    assert_eq!(test_string, test_board.to_string());
}

#[test]
fn test_add_number() {
    let mut board = get_empty_board();

    assert!(!board.add_number(0, 0, 1));
    assert!(board.add_number(5, 0, 1));
    assert!(board.add_number(4, 4, 1));
}

#[test]
fn test_creation() {
    let board = Board::new_empty();

    assert_eq!(board.get(2, 2), None);
}

#[test]
fn test_row_manual() {
    let board = get_board_with_values();

    assert_eq!(Some(0), board.get(0, 0));
    assert_eq!(Some(1), board.get(0, 1));
    assert_eq!(Some(2), board.get(0, 2));
    assert_eq!(Some(3), board.get(0, 3));
    assert_eq!(Some(4), board.get(0, 4));
    assert_eq!(Some(5), board.get(0, 5));
    assert_eq!(Some(6), board.get(0, 6));
    assert_eq!(Some(7), board.get(0, 7));
    assert_eq!(Some(8), board.get(0, 8));

    assert_eq!(Some(3), board.get(1, 0));
    assert_eq!(Some(4), board.get(1, 1));
    assert_eq!(Some(5), board.get(1, 2));
    assert_eq!(Some(6), board.get(1, 3));
    assert_eq!(Some(7), board.get(1, 4));
    assert_eq!(Some(8), board.get(1, 5));
    assert_eq!(Some(0), board.get(1, 6));
    assert_eq!(Some(1), board.get(1, 7));
    assert_eq!(Some(2), board.get(1, 8));

    let board = get_board_with_false_values();

    assert_eq!(Some(1), board.get(0, 0));
    assert_eq!(Some(1), board.get(0, 1));
    assert_eq!(Some(1), board.get(0, 2));
    assert_eq!(Some(1), board.get(0, 3));
    assert_eq!(Some(1), board.get(0, 4));
    assert_eq!(Some(1), board.get(0, 5));
    assert_eq!(Some(1), board.get(0, 6));
    assert_eq!(Some(1), board.get(0, 7));
    assert_eq!(Some(1), board.get(0, 8));
}

#[test]
fn test_board() {
    let board = get_board_with_values();

    assert!(board.test_board());

    let board = get_board_with_values();

    assert!(board.test_board());

    let board = get_board_with_false_values();

    assert!(!board.test_board());
}

#[test]
fn test_row() {
    let board = get_board_with_values();

    for each in 0..SIDE {
        assert!(board.test_row(each));
    }

    let board = get_board_with_values();

    for each in 0..SIDE {
        assert!(board.test_row(each));
    }

    let board = get_board_with_false_values();

    for each in 0..SIDE {
        // assert NOT
        assert!(!board.test_row(each));
    }
}

#[test]
fn test_column() {
    let board = get_board_with_values();

    for each in 0..SIDE {
        assert!(board.test_column(each));
    }

    let board = get_board_with_values();

    for each in 0..SIDE {
        assert!(board.test_column(each));
    }

    let board = get_board_with_false_values();

    for each in 0..SIDE {
        // assert NOT
        assert!(!board.test_column(each));
    }
}

#[test]
fn test_get_indexes() {
    let square = 4;
    let index = 6;

    let (first, second) = get_index(3, 5);

    assert_eq!(first, square);
    assert_eq!(second, index);

    let square = 8;
    let index = 6;

    let (first, second) = get_index(6, 8);

    assert_eq!(first, square);
    assert_eq!(second, index);
}
