use mach::game::{standard_piece, BoardIndex, Color, Column, GameBoard, GamePiece, GameState, Piece, Row};

#[test]
fn linear_index_puts_rank_one_first() {
    assert_eq!(BoardIndex::new(Column::A, Row::R1).to_linear(), 0);
    assert_eq!(BoardIndex::new(Column::H, Row::R1).to_linear(), 7);
    assert_eq!(BoardIndex::new(Column::A, Row::R2).to_linear(), 8);
    assert_eq!(BoardIndex::new(Column::E, Row::R4).to_linear(), 28);
    assert_eq!(BoardIndex::new(Column::H, Row::R8).to_linear(), 63);
}

#[test]
fn column_and_row_indices_round_trip() {
    for t in 0..8u32 {
        assert_eq!(Column::from_index(t).to_index(), t);
        assert_eq!(Row::from_index(t).to_index(), t);
    }
}

#[test]
fn new_board_is_empty() {
    let board = GameBoard::new();
    for r in 0..8u32 {
        for c in 0..8u32 {
            assert_eq!(board.get_board_index(BoardIndex::new(Column::from_index(c), Row::from_index(r))), None);
        }
    }
    let state = GameState::new();
    assert_eq!(state.turn, Color::White);
    assert_eq!(state.board, board);
}

#[test]
fn standard_layout_squares() {
    let mut board = GameBoard::new();
    board.set_standard();
    let at = |c, r| board.get_board_index(BoardIndex::new(c, r));
    assert_eq!(at(Column::A, Row::R1), Some(GamePiece::new(Piece::Rook, Color::White)));
    assert_eq!(at(Column::B, Row::R1), Some(GamePiece::new(Piece::Knight, Color::White)));
    assert_eq!(at(Column::C, Row::R1), Some(GamePiece::new(Piece::Bishop, Color::White)));
    assert_eq!(at(Column::D, Row::R1), Some(GamePiece::new(Piece::Queen, Color::White)));
    assert_eq!(at(Column::E, Row::R1), Some(GamePiece::new(Piece::King, Color::White)));
    assert_eq!(at(Column::H, Row::R1), Some(GamePiece::new(Piece::Rook, Color::White)));
    assert_eq!(at(Column::C, Row::R2), Some(GamePiece::new(Piece::Pawn, Color::White)));
    assert_eq!(at(Column::E, Row::R4), None);
    assert_eq!(at(Column::A, Row::R3), None);
    assert_eq!(at(Column::H, Row::R6), None);
    assert_eq!(at(Column::F, Row::R7), Some(GamePiece::new(Piece::Pawn, Color::Black)));
    assert_eq!(at(Column::D, Row::R8), Some(GamePiece::new(Piece::Queen, Color::Black)));
    assert_eq!(at(Column::E, Row::R8), Some(GamePiece::new(Piece::King, Color::Black)));
    assert_eq!(at(Column::G, Row::R8), Some(GamePiece::new(Piece::Knight, Color::Black)));
    assert_eq!(standard_piece(BoardIndex::new(Column::F, Row::R8)), Some(GamePiece::new(Piece::Bishop, Color::Black)));
}

#[test]
fn set_standard_clears_the_middle() {
    let mut board = GameBoard::new();
    *board.get_board_index_mut(BoardIndex::new(Column::D, Row::R5)) = Some(GamePiece::new(Piece::Queen, Color::Black));
    board.set_standard();
    assert_eq!(board.get_board_index(BoardIndex::new(Column::D, Row::R5)), None);
}

#[test]
fn move_piece_overwrites_and_empties() {
    let mut board = GameBoard::new();
    board.set_standard();
    let from = BoardIndex::new(Column::A, Row::R2);
    let to = BoardIndex::new(Column::A, Row::R7);
    board.move_piece(from, to);
    assert_eq!(board.get_board_index(from), None);
    assert_eq!(board.get_board_index(to), Some(GamePiece::new(Piece::Pawn, Color::White)));
    let copy = board.snapshot();
    assert_eq!(copy, board);
}
