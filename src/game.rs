//! The board model: an 8x8 grid of optional pieces and whose turn it is.
//! Moves are stored as given; no game rules are checked here.
use vstd::prelude::*;

verus! {

/// Number of rows, and of columns, on the board.
pub const SIZE: u32 = 8;

#[derive(Debug, Clone, Copy, PartialEq, Eq, Hash, Structural)]
pub enum Color {
    Black,
    White,
}

#[derive(Debug, Clone, Copy, PartialEq, Eq, Hash, Structural)]
pub enum Piece {
    Pawn,
    Bishop,
    Knight,
    Rook,
    Queen,
    King,
}

#[derive(Debug, Clone, Copy, PartialEq, Eq, Hash, Structural)]
pub struct GamePiece {
    pub piece: Piece,
    pub color: Color,
}

impl GamePiece {
    pub fn new(piece: Piece, color: Color) -> (r: GamePiece)
        ensures
            r == (GamePiece { piece, color }),
    {
        GamePiece { piece, color }
    }
}

#[derive(Debug, Clone, Copy, PartialEq, Eq, Hash, Structural)]
pub enum Column {
    A,
    B,
    C,
    D,
    E,
    F,
    G,
    H,
}

impl Column {
    /// Position of the column from the left, `A` being 0.
    pub open spec fn index_spec(self) -> int {
        match self {
            Column::A => 0,
            Column::B => 1,
            Column::C => 2,
            Column::D => 3,
            Column::E => 4,
            Column::F => 5,
            Column::G => 6,
            Column::H => 7,
        }
    }

    pub fn from_index(t: u32) -> (r: Column)
        requires
            t < SIZE,
        ensures
            r.index_spec() == t,
    {
        match t {
            0 => Column::A,
            1 => Column::B,
            2 => Column::C,
            3 => Column::D,
            4 => Column::E,
            5 => Column::F,
            6 => Column::G,
            _ => Column::H,
        }
    }

    pub fn to_index(self) -> (r: u32)
        ensures
            r == self.index_spec(),
            r < SIZE,
    {
        match self {
            Column::A => 0,
            Column::B => 1,
            Column::C => 2,
            Column::D => 3,
            Column::E => 4,
            Column::F => 5,
            Column::G => 6,
            Column::H => 7,
        }
    }
}

#[derive(Debug, Clone, Copy, PartialEq, Eq, Hash, Structural)]
pub enum Row {
    R1,
    R2,
    R3,
    R4,
    R5,
    R6,
    R7,
    R8,
}

impl Row {
    /// Position of the row from the bottom, `R1` being 0.
    pub open spec fn index_spec(self) -> int {
        match self {
            Row::R1 => 0,
            Row::R2 => 1,
            Row::R3 => 2,
            Row::R4 => 3,
            Row::R5 => 4,
            Row::R6 => 5,
            Row::R7 => 6,
            Row::R8 => 7,
        }
    }

    pub fn from_index(t: u32) -> (r: Row)
        requires
            t < SIZE,
        ensures
            r.index_spec() == t,
    {
        match t {
            0 => Row::R1,
            1 => Row::R2,
            2 => Row::R3,
            3 => Row::R4,
            4 => Row::R5,
            5 => Row::R6,
            6 => Row::R7,
            _ => Row::R8,
        }
    }

    pub fn to_index(self) -> (r: u32)
        ensures
            r == self.index_spec(),
            r < SIZE,
    {
        match self {
            Row::R1 => 0,
            Row::R2 => 1,
            Row::R3 => 2,
            Row::R4 => 3,
            Row::R5 => 4,
            Row::R6 => 5,
            Row::R7 => 6,
            Row::R8 => 7,
        }
    }
}

#[derive(Debug, Clone, Copy, PartialEq, Eq, Hash, Structural)]
pub struct BoardIndex {
    pub column: Column,
    pub row: Row,
}

impl BoardIndex {
    /// Offset of the square in row-major storage, row 1 first.
    pub open spec fn linear(self) -> int {
        self.row.index_spec() * 8 + self.column.index_spec()
    }

    pub fn new(column: Column, row: Row) -> (r: BoardIndex)
        ensures
            r == (BoardIndex { column, row }),
    {
        BoardIndex { column, row }
    }

    pub fn to_linear(self) -> (r: usize)
        ensures
            r == self.linear(),
            r < 64,
    {
        let column: u32 = self.column.to_index();
        let row: u32 = self.row.to_index();
        (row * SIZE) as usize + column as usize
    }
}

/// The piece that a back rank holds in the given column.
pub open spec fn back_rank_piece(col: int) -> Piece {
    if col == 0 || col == 7 {
        Piece::Rook
    } else if col == 1 || col == 6 {
        Piece::Knight
    } else if col == 2 || col == 5 {
        Piece::Bishop
    } else if col == 3 {
        Piece::Queen
    } else {
        Piece::King
    }
}

/// What the standard starting layout holds at the given row and column (both from 0).
pub open spec fn standard_square(row: int, col: int) -> Option<GamePiece> {
    if row == 0 {
        Some(GamePiece { piece: back_rank_piece(col), color: Color::White })
    } else if row == 1 {
        Some(GamePiece { piece: Piece::Pawn, color: Color::White })
    } else if row == 6 {
        Some(GamePiece { piece: Piece::Pawn, color: Color::Black })
    } else if row == 7 {
        Some(GamePiece { piece: back_rank_piece(col), color: Color::Black })
    } else {
        None
    }
}

/// The standard starting layout in row-major storage.
pub open spec fn standard_layout() -> Seq<Option<GamePiece>> {
    Seq::new(64, |i: int| standard_square(i / 8, i % 8))
}

/// A board with no pieces.
pub open spec fn empty_layout() -> Seq<Option<GamePiece>> {
    Seq::new(64, |i: int| None::<GamePiece>)
}

/// The content of the standard starting layout at the given square.
pub fn standard_piece(index: BoardIndex) -> (r: Option<GamePiece>)
    ensures
        r == standard_square(index.row.index_spec(), index.column.index_spec()),
{
    let back = match index.column {
        Column::A | Column::H => Piece::Rook,
        Column::B | Column::G => Piece::Knight,
        Column::C | Column::F => Piece::Bishop,
        Column::D => Piece::Queen,
        Column::E => Piece::King,
    };
    match index.row {
        Row::R1 => Some(GamePiece::new(back, Color::White)),
        Row::R2 => Some(GamePiece::new(Piece::Pawn, Color::White)),
        Row::R7 => Some(GamePiece::new(Piece::Pawn, Color::Black)),
        Row::R8 => Some(GamePiece::new(back, Color::Black)),
        _ => None,
    }
}

#[derive(Debug, Clone, PartialEq, Eq, Hash)]
pub struct GameBoard {
    /// Row-major storage of the grid, square A1 at index 0; always 64 cells.
    board: Vec<Option<GamePiece>>,
}

impl View for GameBoard {
    type V = Seq<Option<GamePiece>>;

    closed spec fn view(&self) -> Seq<Option<GamePiece>> {
        self.board@
    }
}

impl GameBoard {
    /// The grid has one cell per square.
    pub open spec fn wf(&self) -> bool {
        self@.len() == 64
    }

    /// Creates an empty board.
    pub fn new() -> (r: GameBoard)
        ensures
            r.wf(),
            r@ == empty_layout(),
    {
        let mut board: Vec<Option<GamePiece>> = Vec::new();
        let mut i: u32 = 0;
        while i < SIZE * SIZE
            invariant
                i <= 64,
                board@ == Seq::new(i as nat, |j: int| None::<GamePiece>),
            decreases 64 - i,
        {
            board.push(None);
            i = i + 1;
        }
        let r = GameBoard { board };
        assert(r@ =~= empty_layout());
        r
    }

    /// Sets every square to the standard starting layout.
    pub fn set_standard(&mut self)
        requires
            old(self).wf(),
        ensures
            final(self).wf(),
            final(self)@ == standard_layout(),
    {
        let mut row_num: u32 = 0;
        while row_num < SIZE
            invariant
                row_num <= 8,
                self.wf(),
                forall|i: int| 0 <= i < row_num * 8 ==> #[trigger] self@[i] == standard_layout()[i],
            decreases 8 - row_num,
        {
            let row = Row::from_index(row_num);
            let mut col_num: u32 = 0;
            while col_num < SIZE
                invariant
                    row_num < 8,
                    col_num <= 8,
                    row.index_spec() == row_num,
                    self.wf(),
                    forall|i: int|
                        0 <= i < row_num * 8 + col_num ==> #[trigger] self@[i] == standard_layout()[i],
                decreases 8 - col_num,
            {
                let index = BoardIndex::new(Column::from_index(col_num), row);
                let piece = standard_piece(index);
                *self.get_board_index_mut(index) = piece;
                proof {
                    let k = row_num * 8 + col_num;
                    assert(k / 8 == row_num as int && k % 8 == col_num as int);
                    assert(self@[k as int] == standard_layout()[k as int]);
                }
                col_num = col_num + 1;
            }
            row_num = row_num + 1;
        }
        assert(self@ =~= standard_layout());
    }

    /// The current content of the square at the given index.
    pub fn get_board_index(&self, index: BoardIndex) -> (r: Option<GamePiece>)
        requires
            self.wf(),
        ensures
            r == self@[index.linear()],
    {
        self.board[index.to_linear()]
    }

    /// A mutable reference to the square at the given index.
    pub fn get_board_index_mut(&mut self, index: BoardIndex) -> (r: &mut Option<GamePiece>)
        requires
            old(self).wf(),
        ensures
            *r == old(self)@[index.linear()],
            final(self)@ == old(self)@.update(index.linear(), *final(r)),
    {
        &mut self.board[index.to_linear()]
    }

    /// Moves whatever stands on `from` to `to`, overwriting `to` and leaving `from` empty.
    pub fn move_piece(&mut self, from: BoardIndex, to: BoardIndex)
        requires
            old(self).wf(),
        ensures
            final(self).wf(),
            final(self)@ == old(self)@.update(from.linear(), None).update(to.linear(), old(self)@[from.linear()]),
    {
        let start_piece = self.get_board_index(from);
        *self.get_board_index_mut(from) = None;
        *self.get_board_index_mut(to) = start_piece;
    }

    /// A board with the given squares in row-major order, row 1 first;
    /// `None` unless there is exactly one cell per square.
    pub fn from_cells(cells: Vec<Option<GamePiece>>) -> (r: Option<GameBoard>)
        ensures
            r is Some <==> cells@.len() == 64,
            r is Some ==> r->Some_0.wf() && r->Some_0@ == cells@,
    {
        if cells.len() == 64 {
            Some(GameBoard { board: cells })
        } else {
            None
        }
    }

    /// The squares in row-major order, row 1 first.
    pub fn cells(&self) -> (r: Vec<Option<GamePiece>>)
        requires
            self.wf(),
        ensures
            r@ == self@,
    {
        self.snapshot().board
    }

    /// A copy of the board with the same squares.
    pub fn snapshot(&self) -> (r: GameBoard)
        requires
            self.wf(),
        ensures
            r@ == self@,
    {
        let mut board: Vec<Option<GamePiece>> = Vec::new();
        let mut i: usize = 0;
        while i < self.board.len()
            invariant
                i <= self.board@.len(),
                board@ == self.board@.subrange(0, i as int),
            decreases self.board@.len() - i,
        {
            board.push(self.board[i]);
            i = i + 1;
        }
        assert(board@ =~= self.board@);
        GameBoard { board }
    }
}

#[derive(Debug, Clone, PartialEq, Eq, Hash)]
pub struct GameState {
    pub board: GameBoard,
    pub turn: Color,
}

impl GameState {
    /// An empty board with White to move.
    pub fn new() -> (r: GameState)
        ensures
            r.board.wf(),
            r.board@ == empty_layout(),
            r.turn == Color::White,
    {
        GameState { board: GameBoard::new(), turn: Color::White }
    }

    /// A copy of the state with the same squares and turn.
    pub fn snapshot(&self) -> (r: GameState)
        requires
            self.board.wf(),
        ensures
            r.board@ == self.board@,
            r.turn == self.turn,
    {
        GameState { board: self.board.snapshot(), turn: self.turn }
    }
}

} // verus!
