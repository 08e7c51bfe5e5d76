use sudoku::app::get_string_value;
use sudoku::app::App;
use sudoku::board::Board;
use sudoku::board::ParseError;
use sudoku::difficulties::Difficulties;

/// An all-given valid Latin square, 81 letters.
const LATIN: &str =
    "abcdefghidefghiabcghiabcdefbcaefdhigefdhigbcahigbcaefdcabfdeighfdeighcabighcabfde";

/// A mix of one given, eighty player entries.
const MIXED: &str =
    "0b2345678345678012678012345120453786453786120786120453201534867534867201867201534";

fn board_from(text: &str) -> Board {
    Board::from_string(text.to_string()).unwrap()
}

#[test]
fn test_generated_solution_is_valid() {
    for num in 0..3u8 {
        let difficulty = Difficulties::from_num(num);
        let board = Board::new(&difficulty);
        let mut rows = [[0usize; 9]; 9];
        for r in 0..9 {
            for c in 0..9 {
                rows[r][c] = board.get_solution(r, c).unwrap();
            }
        }
        let solution_board = Board::with_rows(rows);
        assert!(solution_board.test_board());
    }
}

#[test]
fn test_generated_removal_counts() {
    let expected = [(0u8, 15usize), (1, 30), (2, 60)];
    for (num, removed) in expected {
        let difficulty = Difficulties::from_num(num);
        let board = Board::new(&difficulty);
        let mut absent = 0;
        let mut present = 0;
        for r in 0..9 {
            for c in 0..9 {
                if board.get_given(r, c).is_none() {
                    absent += 1;
                } else {
                    present += 1;
                    // every given comes from the solution
                    assert_eq!(board.get_given(r, c), board.get_solution(r, c));
                    assert_eq!(board.get(r, c), board.get_given(r, c));
                }
            }
        }
        assert_eq!(absent, removed);
        assert_eq!(present, board.given_count);
        assert_eq!(board.given_count, 81 - removed);
        assert_eq!(board.filled_count, 0);
    }
}

#[test]
fn test_round_trip_mixed() {
    let board = board_from(MIXED);
    let text = board.to_string();
    assert_eq!(text, MIXED);
    let again = Board::from_string(text).unwrap();
    for r in 0..9 {
        for c in 0..9 {
            assert_eq!(board.get(r, c), again.get(r, c));
            assert_eq!(board.get_given(r, c), again.get_given(r, c));
        }
    }
    assert_eq!(board.given_count, again.given_count);
    assert_eq!(board.filled_count, again.filled_count);
    assert_eq!(board.given_count, 1);
    assert_eq!(board.filled_count, 80);
}

#[test]
fn test_round_trip_with_empty_cells() {
    let mut board = board_from(
        "a.c.efghidefghiabcghiabcdefbcaefdhigefdhigbcahigbcaefdcabfdeighfdeighcabighcabfde",
    );
    assert!(board.add_number(1, 0, 2));
    let text = board.to_string();
    assert_eq!(text.len(), 81);
    assert!(text.starts_with("a1c."));
    let again = Board::from_string(text).unwrap();
    for r in 0..9 {
        for c in 0..9 {
            assert_eq!(board.get(r, c), again.get(r, c));
            assert_eq!(board.get_given(r, c), again.get_given(r, c));
        }
    }
    assert_eq!(board.given_count, again.given_count);
    assert_eq!(board.filled_count, again.filled_count);
}

#[test]
fn test_from_string_wrong_length() {
    assert_eq!(Board::from_string("abc".to_string()).err(), Some(ParseError::WrongLength));
    assert_eq!(Board::from_string(String::new()).err(), Some(ParseError::WrongLength));
    let long = MIXED.to_string() + "0";
    assert_eq!(Board::from_string(long).err(), Some(ParseError::WrongLength));
}

#[test]
fn test_from_string_invalid_character() {
    let bad = "z".repeat(81);
    assert_eq!(Board::from_string(bad).err(), Some(ParseError::InvalidCharacter));
    let mut almost = String::from(&LATIN[..80]);
    almost.push('9');
    assert_eq!(Board::from_string(almost).err(), Some(ParseError::InvalidCharacter));
}

#[test]
fn test_add_number_given_cell_unchanged() {
    let mut board = board_from(LATIN);
    for r in 0..9 {
        for c in 0..9 {
            assert!(!board.add_number(c, r, 5));
        }
    }
    // nothing changed anywhere
    assert_eq!(board.to_string(), LATIN);
}

#[test]
fn test_add_number_zero_clears_entry() {
    let mut board = Board::new_empty();
    assert!(board.add_number(3, 2, 7));
    assert_eq!(board.get(2, 3), Some(6));
    assert_eq!(board.filled_count, 1);
    assert!(board.add_number(3, 2, 0));
    assert_eq!(board.get(2, 3), None);
    assert_eq!(board.filled_count, 0);
}

#[test]
fn test_uniform_boards_are_invalid() {
    for digit in 0..9usize {
        let info = [[digit; 9]; 9];
        let board = Board::with_rows(info);
        assert!(!board.test_board());
        assert!(!board.test_row(0));
        assert!(!board.test_column(0));
        assert!(!board.test_square(0));
    }
}

#[test]
fn test_all_given_latin_square() {
    let mut board = board_from(LATIN);
    assert!(board.test_board());
    assert!(board.test_filled());
    for r in 0..9 {
        for c in 0..9 {
            assert!(board.get_given(r, c).is_some());
            assert!(!board.add_number(c, r, 1));
        }
    }
}

#[test]
fn test_enter_on_editable_then_given() {
    let inner_info_1 = [7, 3, 5, 9, 10, 10, 8, 10, 10];
    let inner_info_2 = [9, 10, 10, 10, 6, 10, 10, 10, 10];
    let inner_info_3 = [8, 10, 10, 10, 10, 10, 10, 1, 10];
    let inner_info_4 = [10, 10, 9, 10, 10, 10, 10, 4, 10];
    let inner_info_5 = [10, 10, 8, 10, 10, 10, 10, 10, 10];
    let inner_info_6 = [10, 10, 10, 10, 10, 9, 10, 10, 10];
    let inner_info_7 = [10, 9, 10, 10, 10, 6, 10, 10, 3];
    let inner_info_8 = [10, 8, 10, 10, 10, 3, 10, 10, 10];
    let inner_info_9 = [4, 7, 3, 10, 10, 10, 2, 10, 6];
    let info = [
        inner_info_1,
        inner_info_2,
        inner_info_3,
        inner_info_4,
        inner_info_5,
        inner_info_6,
        inner_info_7,
        inner_info_8,
        inner_info_9,
    ];
    let mut board = Board::with_rows(info);
    // row 0, column 4 is editable and empty
    assert!(board.add_number(4, 0, 1));
    assert_eq!(board.get(0, 4), Some(0));
    // row 0, column 0 is the given 7
    assert!(!board.add_number(0, 0, 1));
    assert_eq!(board.get(0, 0), Some(7));
}

#[test]
fn test_filled_becomes_true() {
    // the Latin square with its last cell blanked out
    let mut text = String::from(&LATIN[..80]);
    text.push('.');
    let mut board = Board::from_string(text).unwrap();
    assert_eq!(board.given_count, 80);
    assert_eq!(board.filled_count, 0);
    assert!(!board.test_filled());
    assert!(board.add_number(8, 8, 5));
    assert!(board.test_filled());
    assert!(board.test_board());
}

#[test]
fn test_difficulties() {
    assert_eq!(Difficulties::from_num(0), Difficulties::Easy);
    assert_eq!(Difficulties::from_num(1), Difficulties::Medium);
    assert_eq!(Difficulties::from_num(2), Difficulties::Hard);
    assert_eq!(Difficulties::from_num(77), Difficulties::Medium);
    assert_eq!(Difficulties::Easy.value(), 16);
    assert_eq!(Difficulties::Medium.value(), 8);
    assert_eq!(Difficulties::Hard.value(), 4);
    assert_eq!(Difficulties::Easy.name(), "easy");
    assert_eq!(Difficulties::Medium.name(), "medium");
    assert_eq!(Difficulties::Hard.name(), "hard");
}

#[test]
fn test_get_string_value_kinds() {
    let mut board = board_from(
        "a.c.efghidefghiabcghiabcdefbcaefdhigefdhigbcahigbcaefdcabfdeighfdeighcabighcabfde",
    );
    assert!(board.add_number(1, 0, 2));
    let (text, given) = get_string_value(0, 0, &board);
    assert_eq!(text, "1");
    assert!(given);
    let (text, given) = get_string_value(0, 1, &board);
    assert_eq!(text, "2");
    assert!(!given);
    let (text, given) = get_string_value(0, 3, &board);
    assert_eq!(text, "_");
    assert!(!given);
}

#[test]
fn test_app_cursor_wraps() {
    let board = Board::new_empty();
    let mut app = App::with_board(board, "save-test".to_string());
    assert_eq!(app.active(), (4, 4));
    for _ in 0..5 {
        app.up();
    }
    assert_eq!(app.active(), (8, 4));
    app.down();
    assert_eq!(app.active(), (0, 4));
    for _ in 0..5 {
        app.left();
    }
    assert_eq!(app.active(), (0, 8));
    app.right();
    assert_eq!(app.active(), (0, 0));
    app.up();
    assert_eq!(app.active(), (8, 0));
    app.left();
    assert_eq!(app.active(), (8, 8));
    app.down();
    app.right();
    assert_eq!(app.active(), (0, 0));
}

#[test]
fn test_app_enter() {
    let board = board_from(LATIN);
    let mut app = App::with_board(board, "save-test".to_string());
    // every cell is a given, so entry fails
    assert!(!app.enter(3));

    let board = Board::new_empty();
    let mut app = App::with_board(board, "save-test".to_string());
    assert!(app.enter(3));
    assert_eq!(app.board.get(4, 4), Some(2));
    assert!(app.enter(0));
    assert_eq!(app.board.get(4, 4), None);
}
