//! The position: sixty-four cells, the side to move, the castling rights,
//! the en-passant target and the two move counters.

use vstd::prelude::*;
use crate::pieces::{cell_code, cell_to_u8, Cell, Piece, Player};

verus! {

/// The number of files, and of ranks.
pub const SIZE: usize = 8;

/// The number of squares.
pub const SIZE_2: usize = 64;

/// Index of White's king-side right in [`ChessBoard::castle_rights`].
pub const WHITE_KING_SIDE: usize = 0;

/// Index of White's queen-side right.
pub const WHITE_QUEEN_SIDE: usize = 1;

/// Index of Black's king-side right.
pub const BLACK_KING_SIDE: usize = 2;

/// Index of Black's queen-side right.
pub const BLACK_QUEEN_SIDE: usize = 3;

/// Where White's king lands when it castles king-side.
pub const WHITE_KING_SIDE_POS: usize = 6;

/// Where White's king lands when it castles queen-side.
pub const WHITE_QUEEN_SIDE_POS: usize = 2;

/// Where Black's king lands when it castles king-side.
pub const BLACK_KING_SIDE_POS: usize = 62;

/// Where Black's king lands when it castles queen-side.
pub const BLACK_QUEEN_SIDE_POS: usize = 58;

/// The mathematical model of a position.
///
/// Squares are numbered 0 to 63, rank by rank from White's side: the file
/// of a square is its number modulo 8, the rank its number divided by 8.
pub struct Position {
    pub cells: Seq<Cell>,
    pub side: Player,
    pub white_king_side: bool,
    pub white_queen_side: bool,
    pub black_king_side: bool,
    pub black_queen_side: bool,
    pub en_passant: Option<int>,
    pub half_move: int,
    pub full_move: int,
}

/// A chess position as it is stored.
#[derive(Clone, Copy)]
pub struct ChessBoard {
    pub board: [Cell; 64],
    pub player: Player,
    /// White king-side, White queen-side, Black king-side, Black queen-side.
    pub castle_rights: [bool; 4],
    /// The square that a pawn may capture onto en passant.
    pub en_passant: Option<usize>,
    /// Moves since the last pawn move or capture.
    pub half_move: usize,
    pub full_move: usize,
}

impl View for ChessBoard {
    type V = Position;

    open spec fn view(&self) -> Position {
        Position {
            cells: self.board@,
            side: self.player,
            white_king_side: self.castle_rights@[0],
            white_queen_side: self.castle_rights@[1],
            black_king_side: self.castle_rights@[2],
            black_queen_side: self.castle_rights@[3],
            en_passant: match self.en_passant {
                Some(t) => Some(t as int),
                None => None,
            },
            half_move: self.half_move as int,
            full_move: self.full_move as int,
        }
    }
}

/// The piece kind on each file of a side's back rank at the start.
pub open spec fn back_rank_kind(file: int) -> Piece {
    if file == 0 || file == 7 {
        Piece::Rook
    } else if file == 1 || file == 6 {
        Piece::Knight
    } else if file == 2 || file == 5 {
        Piece::Bishop
    } else if file == 3 {
        Piece::Queen
    } else {
        Piece::King
    }
}

/// What each square holds at the start of a game.
pub open spec fn start_cell(square: int) -> Cell {
    if square < 8 {
        Cell::Occupied(Player::White, back_rank_kind(square))
    } else if square < 16 {
        Cell::Occupied(Player::White, Piece::Pawn)
    } else if square < 48 {
        Cell::Empty
    } else if square < 56 {
        Cell::Occupied(Player::Black, Piece::Pawn)
    } else {
        Cell::Occupied(Player::Black, back_rank_kind(square - 56))
    }
}

/// The position at the start of a game.
pub open spec fn start_position() -> Position {
    Position {
        cells: Seq::new(64, |square: int| start_cell(square)),
        side: Player::White,
        white_king_side: true,
        white_queen_side: true,
        black_king_side: true,
        black_queen_side: true,
        en_passant: None,
        half_move: 0,
        full_move: 1,
    }
}

impl Position {
    /// What a consistent position satisfies: a castling right that still
    /// stands has its king and rook on their first squares, and an
    /// en-passant target is the empty square behind the opposing pawn that
    /// has just advanced two squares.
    pub open spec fn wf(self) -> bool {
        &&& self.cells.len() == 64
        &&& self.white_king_side ==> self.cells[4] == Cell::Occupied(Player::White, Piece::King)
            && self.cells[7] == Cell::Occupied(Player::White, Piece::Rook)
        &&& self.white_queen_side ==> self.cells[4] == Cell::Occupied(Player::White, Piece::King)
            && self.cells[0] == Cell::Occupied(Player::White, Piece::Rook)
        &&& self.black_king_side ==> self.cells[60] == Cell::Occupied(Player::Black, Piece::King)
            && self.cells[63] == Cell::Occupied(Player::Black, Piece::Rook)
        &&& self.black_queen_side ==> self.cells[60] == Cell::Occupied(Player::Black, Piece::King)
            && self.cells[56] == Cell::Occupied(Player::Black, Piece::Rook)
        &&& match self.en_passant {
            None => true,
            Some(t) => match self.side {
                Player::White => 40 <= t < 48 && self.cells[t] == Cell::Empty && self.cells[t - 8]
                    == Cell::Occupied(Player::Black, Piece::Pawn),
                Player::Black => 16 <= t < 24 && self.cells[t] == Cell::Empty && self.cells[t + 8]
                    == Cell::Occupied(Player::White, Piece::Pawn),
            },
        }
    }

    /// The low three bits of the en-passant target, 0 where there is none.
    pub open spec fn en_passant_file(self) -> int {
        match self.en_passant {
            Some(t) => t % 8,
            None => 0,
        }
    }

    /// Byte `i` of the 36-byte snapshot.
    ///
    /// Bytes 0 to 31 hold the cells two by two, the lower square in the low
    /// four bits.  Byte 32 holds the side to move (bit 0), the four castling
    /// rights (bits 1 to 4) and the file of the en-passant target (bits 5 to
    /// 7).  Byte 33 holds the half-move clock in seven bits and, in bit 7,
    /// whether there is an en-passant target.  Bytes 34 and 35 hold the
    /// full-move number, low byte first.
    pub open spec fn snapshot_byte(self, i: int) -> int {
        if i < 32 {
            cell_code(self.cells[2 * i]) + 16 * cell_code(self.cells[2 * i + 1])
        } else if i == 32 {
            self.side.index() + 2 * bit(self.white_king_side) + 4 * bit(self.white_queen_side) + 8
                * bit(self.black_king_side) + 16 * bit(self.black_queen_side) + 32
                * self.en_passant_file()
        } else if i == 33 {
            self.half_move % 128 + 128 * bit(self.en_passant is Some)
        } else if i == 34 {
            self.full_move % 256
        } else {
            (self.full_move / 256) % 256
        }
    }

    /// The 36-byte snapshot of the position.
    pub open spec fn snapshot(self) -> Seq<u8> {
        Seq::new(36, |i: int| self.snapshot_byte(i) as u8)
    }
}

/// 1 for true, 0 for false.
pub open spec fn bit(b: bool) -> int {
    if b {
        1
    } else {
        0
    }
}

impl ChessBoard {
    /// The standard starting position: White to move, every castling right
    /// standing, no en-passant target, half-move clock 0, full-move number 1.
    pub fn new() -> (start: ChessBoard)
        ensures
            start@ == start_position(),
            start@.wf(),
    {
        let wr = Cell::Occupied(Player::White, Piece::Rook);
        let wn = Cell::Occupied(Player::White, Piece::Knight);
        let wb = Cell::Occupied(Player::White, Piece::Bishop);
        let wq = Cell::Occupied(Player::White, Piece::Queen);
        let wk = Cell::Occupied(Player::White, Piece::King);
        let wp = Cell::Occupied(Player::White, Piece::Pawn);
        let br = Cell::Occupied(Player::Black, Piece::Rook);
        let bn = Cell::Occupied(Player::Black, Piece::Knight);
        let bb = Cell::Occupied(Player::Black, Piece::Bishop);
        let bq = Cell::Occupied(Player::Black, Piece::Queen);
        let bk = Cell::Occupied(Player::Black, Piece::King);
        let bp = Cell::Occupied(Player::Black, Piece::Pawn);
        let no = Cell::Empty;
        let start = ChessBoard {
            board: [
                wr, wn, wb, wq, wk, wb, wn, wr,
                wp, wp, wp, wp, wp, wp, wp, wp,
                no, no, no, no, no, no, no, no,
                no, no, no, no, no, no, no, no,
                no, no, no, no, no, no, no, no,
                no, no, no, no, no, no, no, no,
                bp, bp, bp, bp, bp, bp, bp, bp,
                br, bn, bb, bq, bk, bb, bn, br,
            ],
            player: Player::White,
            castle_rights: [true, true, true, true],
            en_passant: None,
            half_move: 0,
            full_move: 1,
        };
        assert(start@.cells =~= start_position().cells);
        start
    }

    /// Writes the position as 36 bytes.
    pub fn serialize(&self) -> (bytes: [u8; 36])
        ensures
            bytes@ == self@.snapshot(),
    {
        let mut ans: [u8; 36] = [0u8; 36];
        let mut i: usize = 0;
        while i < 32
            invariant
                i <= 32,
                forall|j: int| 0 <= j < i ==> ans@[j] == self@.snapshot_byte(j),
            decreases 32 - i,
        {
            let c1: u8 = cell_to_u8(&self.board[2 * i]);
            let c2: u8 = cell_to_u8(&self.board[2 * i + 1]);
            let both: u8 = c1 | (c2 << 4);
            assert(both == c1 + 16 * c2) by (bit_vector)
                requires
                    c1 < 16,
                    c2 < 16,
                    both == c1 | (c2 << 4),
            ;
            ans[i] = both;
            i += 1;
        }
        let side: u8 = match self.player {
            Player::White => 0,
            Player::Black => 1,
        };
        let wk: u8 = if self.castle_rights[WHITE_KING_SIDE] { 1 } else { 0 };
        let wq: u8 = if self.castle_rights[WHITE_QUEEN_SIDE] { 1 } else { 0 };
        let bk: u8 = if self.castle_rights[BLACK_KING_SIDE] { 1 } else { 0 };
        let bq: u8 = if self.castle_rights[BLACK_QUEEN_SIDE] { 1 } else { 0 };
        let (file, present): (u8, u8) = match self.en_passant {
            Some(t) => ((t % 8) as u8, 1),
            None => (0, 0),
        };
        let flags: u8 = side | (wk << 1) | (wq << 2) | (bk << 3) | (bq << 4) | (file << 5);
        assert(flags == side + 2 * wk + 4 * wq + 8 * bk + 16 * bq + 32 * file) by (bit_vector)
            requires
                side < 2,
                wk < 2,
                wq < 2,
                bk < 2,
                bq < 2,
                file < 8,
                flags == side | (wk << 1) | (wq << 2) | (bk << 3) | (bq << 4) | (file << 5),
        ;
        ans[32] = flags;
        let clock: u8 = (self.half_move % 128) as u8;
        let half: u8 = clock | (present << 7);
        assert(half == clock + 128 * present) by (bit_vector)
            requires
                clock < 128,
                present < 2,
                half == clock | (present << 7),
        ;
        ans[33] = half;
        ans[34] = (self.full_move % 256) as u8;
        ans[35] = ((self.full_move / 256) % 256) as u8;
        assert(ans@ =~= self@.snapshot());
        ans
    }
}

} // verus!
