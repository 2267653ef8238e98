use mach::game::{BoardIndex, Column, Row};
use mach::input::{parse_board_index, parse_input};

#[test]
fn parses_a_square() {
    assert_eq!(parse_board_index("e2"), Ok(BoardIndex::new(Column::E, Row::R2)));
    assert_eq!(parse_board_index("a1"), Ok(BoardIndex::new(Column::A, Row::R1)));
    assert_eq!(parse_board_index("h8"), Ok(BoardIndex::new(Column::H, Row::R8)));
}

#[test]
fn rejects_bad_squares() {
    assert_eq!(parse_board_index(""), Err(()));
    assert_eq!(parse_board_index("e"), Err(()));
    assert_eq!(parse_board_index("e22"), Err(()));
    assert_eq!(parse_board_index("i2"), Err(()));
    assert_eq!(parse_board_index("e9"), Err(()));
    assert_eq!(parse_board_index("E2"), Err(()));
    assert_eq!(parse_board_index("2e"), Err(()));
}

#[test]
fn parses_a_move_line() {
    let e2 = BoardIndex::new(Column::E, Row::R2);
    let e4 = BoardIndex::new(Column::E, Row::R4);
    assert_eq!(parse_input("e2 e4\n"), Ok((e2, e4)));
    assert_eq!(parse_input("  e2\t\te4  "), Ok((e2, e4)));
    assert_eq!(parse_input("e2 e4 extra"), Ok((e2, e4)));
}

#[test]
fn rejects_bad_move_lines() {
    assert_eq!(parse_input(""), Err(()));
    assert_eq!(parse_input("   \n"), Err(()));
    assert_eq!(parse_input("e2"), Err(()));
    assert_eq!(parse_input("e2 \n"), Err(()));
    assert_eq!(parse_input("e2 x4"), Err(()));
    assert_eq!(parse_input("e2e4 e5"), Err(()));
}
