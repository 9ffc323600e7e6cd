//! Sides, piece kinds and board cells, with their four-bit encoding.

use vstd::prelude::*;

verus! {

/// The six kinds of chess piece.
#[derive(Debug, Clone, Copy, PartialEq, Eq, Structural)]
pub enum Piece {
    Pawn,
    Rook,
    Knight,
    Bishop,
    Queen,
    King,
}

/// One of the two sides.
#[derive(Debug, Clone, Copy, PartialEq, Eq, Structural)]
pub enum Player {
    White,
    Black,
}

/// What a square of the board holds.
#[derive(Debug, Clone, Copy, PartialEq, Eq, Structural)]
pub enum Cell {
    Empty,
    Occupied(Player, Piece),
}

impl Piece {
    /// The three-bit number of a piece kind.
    pub open spec fn index(self) -> int {
        match self {
            Piece::Pawn => 0,
            Piece::Rook => 1,
            Piece::Knight => 2,
            Piece::Bishop => 3,
            Piece::Queen => 4,
            Piece::King => 5,
        }
    }

    /// The executable form of [`Piece::index`].
    pub fn ordinal(&self) -> (n: u8)
        ensures
            n == self.index(),
    {
        match self {
            Piece::Pawn => 0,
            Piece::Rook => 1,
            Piece::Knight => 2,
            Piece::Bishop => 3,
            Piece::Queen => 4,
            Piece::King => 5,
        }
    }
}

impl Player {
    /// The one-bit number of a side: White is 0, Black is 1.
    pub open spec fn index(self) -> int {
        match self {
            Player::White => 0,
            Player::Black => 1,
        }
    }

    /// The side that is not this one.
    pub open spec fn other(self) -> Player {
        match self {
            Player::White => Player::Black,
            Player::Black => Player::White,
        }
    }

    /// The other side.
    pub fn opponent(&self) -> (other: Player)
        ensures
            other == self.other(),
    {
        match self {
            Player::White => Player::Black,
            Player::Black => Player::White,
        }
    }
}

impl Cell {
    /// Whether the cell holds a piece of `side`.
    pub open spec fn owned_by(self, side: Player) -> bool {
        match self {
            Cell::Empty => false,
            Cell::Occupied(owner, _) => owner == side,
        }
    }

    /// Whether the cell holds exactly the given piece of the given side.
    pub open spec fn holds(self, side: Player, kind: Piece) -> bool {
        self == Cell::Occupied(side, kind)
    }
}

/// The four-bit encoding of a cell: 0 for an empty cell, else one more than
/// the side's bit shifted three places plus the kind's number.
pub open spec fn cell_code(cell: Cell) -> int {
    match cell {
        Cell::Empty => 0,
        Cell::Occupied(side, kind) => 1 + 8 * side.index() + kind.index(),
    }
}

/// The numbers that encode a cell: 0, 1 to 6 (White) and 9 to 14 (Black).
pub open spec fn code_is_valid(code: int) -> bool {
    code == 0 || 1 <= code <= 6 || 9 <= code <= 14
}

/// The piece kind with the given number; meaningful for numbers below 6.
pub open spec fn piece_of_index(n: int) -> Piece {
    if n == 0 {
        Piece::Pawn
    } else if n == 1 {
        Piece::Rook
    } else if n == 2 {
        Piece::Knight
    } else if n == 3 {
        Piece::Bishop
    } else if n == 4 {
        Piece::Queen
    } else {
        Piece::King
    }
}

/// The cell that a valid code stands for.
pub open spec fn cell_of_code(code: int) -> Cell {
    if code == 0 {
        Cell::Empty
    } else if code <= 6 {
        Cell::Occupied(Player::White, piece_of_index(code - 1))
    } else {
        Cell::Occupied(Player::Black, piece_of_index(code - 9))
    }
}

/// Decoding inverts encoding, and encoding inverts decoding on the valid
/// codes: the four-bit encoding of a cell round-trips exactly.
pub proof fn lemma_cell_code_round_trip(cell: Cell, code: int)
    ensures
        code_is_valid(cell_code(cell)),
        cell_of_code(cell_code(cell)) == cell,
        code_is_valid(code) ==> cell_code(cell_of_code(code)) == code,
{
}

/// Maps a number to a piece kind, rejecting numbers that name none.
pub fn piece_from_u8(value: u8) -> (kind: Option<Piece>)
    ensures
        kind is Some <==> value < 6,
        value < 6 ==> kind == Some(piece_of_index(value as int)),
{
    if value == 0 {
        Some(Piece::Pawn)
    } else if value == 1 {
        Some(Piece::Rook)
    } else if value == 2 {
        Some(Piece::Knight)
    } else if value == 3 {
        Some(Piece::Bishop)
    } else if value == 4 {
        Some(Piece::Queen)
    } else if value == 5 {
        Some(Piece::King)
    } else {
        None
    }
}

/// Encodes a cell in four bits.
pub fn cell_to_u8(cell: &Cell) -> (code: u8)
    ensures
        code == cell_code(*cell),
        code_is_valid(code as int),
{
    match cell {
        Cell::Empty => 0,
        Cell::Occupied(side, kind) => {
            let side_bit: u8 = match side {
                Player::White => 0,
                Player::Black => 8,
            };
            1 + side_bit + kind.ordinal()
        },
    }
}

/// Decodes a cell, rejecting every number that encodes none.
pub fn cell_from_u8(code: u8) -> (cell: Option<Cell>)
    ensures
        cell is Some <==> code_is_valid(code as int),
        code_is_valid(code as int) ==> cell == Some(cell_of_code(code as int)),
{
    if code == 0 {
        return Some(Cell::Empty);
    }
    if code >= 16 {
        return None;
    }
    let side = if code < 8 {
        Player::White
    } else {
        Player::Black
    };
    if code == 8 {
        return None;
    }
    let number: u8 = if code < 8 {
        code - 1
    } else {
        code - 9
    };
    match piece_from_u8(number) {
        Some(kind) => Some(Cell::Occupied(side, kind)),
        None => None,
    }
}

} // verus!
