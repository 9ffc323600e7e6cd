//! Carrying out a move and taking it back.

use vstd::prelude::*;
use crate::board::{
    ChessBoard, Position, BLACK_KING_SIDE, BLACK_KING_SIDE_POS, BLACK_QUEEN_SIDE,
    BLACK_QUEEN_SIDE_POS, WHITE_KING_SIDE, WHITE_KING_SIDE_POS, WHITE_QUEEN_SIDE,
    WHITE_QUEEN_SIDE_POS,
};
use crate::moves::{
    get_pos0, get_pos1, get_promote, mreq_promote_code, mreq_source, mreq_target, mres_get_capture,
    mres_get_castle, mres_get_en_passant, mres_get_prev_castle_right_bk,
    mres_get_prev_castle_right_bq, mres_get_prev_castle_right_wk, mres_get_prev_castle_right_wq,
    mres_new, mres_record, mres_set_capture, mres_set_castle, mres_set_en_passant,
    mres_set_prev_castle_rights, mres_set_promote, MoveRecord, MoveRequest, MoveResult,
};
use crate::laws::lemma_move_keeps_consistency;
use crate::pieces::{cell_code, cell_of_code, code_is_valid, Cell, Piece, Player};

verus! {

impl Position {
    /// What a move must satisfy to be carried out: its source holds a piece
    /// of the side to move, and its promotion bits encode a cell.
    pub open spec fn accepts(self, m: MoveRequest) -> bool {
        &&& self.cells.len() == 64
        &&& self.cells[mreq_source(m)].owned_by(self.side)
        &&& code_is_valid(mreq_promote_code(m))
    }

    /// Whether the move is made by a pawn.
    pub open spec fn is_pawn_move(self, m: MoveRequest) -> bool {
        self.cells[mreq_source(m)] matches Cell::Occupied(_, Piece::Pawn)
    }

    /// Whether the move is a pawn move onto the en-passant target.
    pub open spec fn takes_en_passant(self, m: MoveRequest) -> bool {
        self.is_pawn_move(m) && self.en_passant == Some(mreq_target(m))
    }

    /// Whether the move is a pawn move onto the farthest rank.
    pub open spec fn promotes(self, m: MoveRequest) -> bool {
        self.is_pawn_move(m) && match self.side {
            Player::White => mreq_target(m) / 8 == 7,
            Player::Black => mreq_target(m) / 8 == 0,
        }
    }

    /// Whether the move is a king-side castle hop that the rights permit.
    pub open spec fn castles_king_side(self, m: MoveRequest) -> bool {
        match self.side {
            Player::White => self.white_king_side && mreq_source(m) == 4 && mreq_target(m) == 6,
            Player::Black => self.black_king_side && mreq_source(m) == 60 && mreq_target(m) == 62,
        }
    }

    /// Whether the move is a queen-side castle hop that the rights permit.
    pub open spec fn castles_queen_side(self, m: MoveRequest) -> bool {
        match self.side {
            Player::White => self.white_queen_side && mreq_source(m) == 4 && mreq_target(m) == 2,
            Player::Black => self.black_queen_side && mreq_source(m) == 60 && mreq_target(m) == 58,
        }
    }

    /// Whether the move is a castle.
    pub open spec fn castles(self, m: MoveRequest) -> bool {
        self.castles_king_side(m) || self.castles_queen_side(m)
    }

    /// The position once the pawn rules have acted: the pawn passed en
    /// passant is gone, a promoting pawn has become its landing piece on its
    /// source square, and the en-passant target is that of the next position.
    pub open spec fn with_pawn_rules(self, m: MoveRequest) -> Position {
        let lifted = if self.takes_en_passant(m) {
            self.cells.update(en_passant_victim(mreq_source(m), mreq_target(m)), Cell::Empty)
        } else {
            self.cells
        };
        let crowned = if self.promotes(m) {
            lifted.update(mreq_source(m), cell_of_code(mreq_promote_code(m)))
        } else {
            lifted
        };
        Position { cells: crowned, en_passant: self.en_passant_after(m), ..self }
    }

    /// The cells once a castling rook has hopped over its king's path.
    pub open spec fn rook_hopped(self, m: MoveRequest) -> Seq<Cell> {
        let rank = match self.side {
            Player::White => 0int,
            Player::Black => 56int,
        };
        if self.castles_king_side(m) {
            self.cells.update(rank + 5, self.cells[rank + 7]).update(rank + 7, Cell::Empty)
        } else if self.castles_queen_side(m) {
            self.cells.update(rank + 3, self.cells[rank]).update(rank, Cell::Empty)
        } else {
            self.cells
        }
    }

    /// The cells once the special rules have acted and before the piece
    /// itself is relocated.
    pub open spec fn cells_prepared(self, m: MoveRequest) -> Seq<Cell> {
        self.with_pawn_rules(m).rook_hopped(m)
    }

    /// The cell that the move captures: what stands on the target, or the
    /// pawn passed en passant.
    pub open spec fn captured(self, m: MoveRequest) -> Cell {
        let prepared = self.cells_prepared(m);
        if prepared[mreq_target(m)] != Cell::Empty {
            prepared[mreq_target(m)]
        } else if self.takes_en_passant(m) {
            self.cells[en_passant_victim(mreq_source(m), mreq_target(m))]
        } else {
            Cell::Empty
        }
    }

    /// The cells after the move.
    pub open spec fn cells_after(self, m: MoveRequest) -> Seq<Cell> {
        let prepared = self.cells_prepared(m);
        prepared.update(mreq_target(m), prepared[mreq_source(m)]).update(
            mreq_source(m),
            Cell::Empty,
        )
    }

    /// The en-passant target after the move: the square that a pawn has
    /// passed over in a double step from its starting rank.
    pub open spec fn en_passant_after(self, m: MoveRequest) -> Option<int> {
        let source = mreq_source(m);
        let target = mreq_target(m);
        if !self.is_pawn_move(m) {
            None
        } else {
            match self.side {
                Player::White => if source / 8 == 1 && target == source + 16 {
                    Some(source + 8)
                } else {
                    None
                },
                Player::Black => if source / 8 == 6 && source == target + 16 {
                    Some(source - 8)
                } else {
                    None
                },
            }
        }
    }

    /// The position after the move, the two counters left as they were.
    ///
    /// A castling right falls as soon as the move's source or target is the
    /// first square of its king or of its rook.
    pub open spec fn moved(self, m: MoveRequest) -> Position {
        Position {
            cells: self.cells_after(m),
            side: self.side.other(),
            white_king_side: self.white_king_side && !touches(m, 4) && !touches(m, 7),
            white_queen_side: self.white_queen_side && !touches(m, 4) && !touches(m, 0),
            black_king_side: self.black_king_side && !touches(m, 60) && !touches(m, 63),
            black_queen_side: self.black_queen_side && !touches(m, 60) && !touches(m, 56),
            en_passant: self.en_passant_after(m),
            half_move: self.half_move,
            full_move: self.full_move,
        }
    }

    /// The position after the move: the half-move clock restarts on a pawn
    /// move or a capture and advances otherwise, and the full-move number
    /// advances after Black's move.
    pub open spec fn after_move(self, m: MoveRequest) -> Position {
        Position {
            half_move: if self.is_pawn_move(m) || self.captured(m) != Cell::Empty {
                0
            } else {
                self.half_move + 1
            },
            full_move: if self.side == Player::Black {
                self.full_move + 1
            } else {
                self.full_move
            },
            ..self.moved(m)
        }
    }

    /// What the result of the move records.
    pub open spec fn move_record(self, m: MoveRequest) -> MoveRecord {
        MoveRecord {
            source: mreq_source(m),
            target: mreq_target(m),
            promote: mreq_promote_code(m),
            capture: cell_code(self.captured(m)),
            en_passant: self.takes_en_passant(m),
            castle: self.castles(m),
            prev_wk: self.white_king_side,
            prev_wq: self.white_queen_side,
            prev_bk: self.black_king_side,
            prev_bq: self.black_queen_side,
            spare: 0,
        }
    }

    /// What a record must satisfy to be taken back: its two cell codes
    /// encode cells, and a castle lands on one of the four castle squares.
    pub open spec fn can_undo(self, rec: MoveRecord) -> bool {
        &&& self.cells.len() == 64
        &&& 0 <= rec.source < 64
        &&& 0 <= rec.target < 64
        &&& code_is_valid(rec.promote)
        &&& code_is_valid(rec.capture)
        &&& rec.castle ==> rec.target == 2 || rec.target == 6 || rec.target == 58 || rec.target
            == 62
    }

    /// The position with the recorded move taken back, the two counters
    /// left as they are.
    ///
    /// The moved piece returns to its source, as a pawn where the record
    /// holds a promotion; the captured cell returns to the target, or, after
    /// an en-passant capture, to the square of the passed pawn, and the
    /// target is then the en-passant target again; the four rights are those
    /// of the record; a castled rook returns to its corner.
    pub open spec fn undone(self, rec: MoveRecord) -> Position {
        let side = self.side.other();
        let restored = self.cells.update(
            rec.source,
            if cell_of_code(rec.promote) != Cell::Empty {
                Cell::Occupied(side, Piece::Pawn)
            } else {
                self.cells[rec.target]
            },
        );
        let refilled = if rec.en_passant {
            restored.update(
                en_passant_victim(rec.source, rec.target),
                cell_of_code(rec.capture),
            ).update(rec.target, Cell::Empty)
        } else {
            restored.update(rec.target, cell_of_code(rec.capture))
        };
        let cells = if !rec.castle {
            refilled
        } else if rec.target == 6 || rec.target == 62 {
            refilled.update(rec.target + 1, refilled[rec.target - 1]).update(
                rec.target - 1,
                Cell::Empty,
            )
        } else {
            refilled.update(rec.target - 2, refilled[rec.target + 1]).update(
                rec.target + 1,
                Cell::Empty,
            )
        };
        Position {
            cells,
            side,
            white_king_side: rec.prev_wk,
            white_queen_side: rec.prev_wq,
            black_king_side: rec.prev_bk,
            black_queen_side: rec.prev_bq,
            en_passant: if rec.en_passant {
                Some(rec.target)
            } else {
                None
            },
            half_move: self.half_move,
            full_move: self.full_move,
        }
    }
}

/// Whether the move starts from the square or ends on it.
pub open spec fn touches(m: MoveRequest, square: int) -> bool {
    mreq_source(m) == square || mreq_target(m) == square
}

/// The square of the pawn that an en-passant capture removes: on the
/// source's rank and the target's file.
pub open spec fn en_passant_victim(source: int, target: int) -> int {
    source / 8 * 8 + target % 8
}

impl ChessBoard {
    /// Removes the pawn that an en-passant capture passes, and records it.
    fn capture_en_passant(&mut self, is_pawn: bool, pos0: usize, pos1: usize, ans: &mut MoveResult)
        requires
            pos0 < 64,
            pos1 < 64,
        ensures
            final(self)@ == (Position {
                cells: if is_pawn && old(self)@.en_passant == Some(pos1 as int) {
                    old(self)@.cells.update(
                        en_passant_victim(pos0 as int, pos1 as int),
                        Cell::Empty,
                    )
                } else {
                    old(self)@.cells
                },
                ..old(self)@
            }),
            mres_record(*final(ans)) == (if is_pawn && old(self)@.en_passant == Some(
                pos1 as int,
            ) {
                MoveRecord {
                    capture: cell_code(
                        old(self)@.cells[en_passant_victim(pos0 as int, pos1 as int)],
                    ),
                    en_passant: true,
                    ..mres_record(*old(ans))
                }
            } else {
                mres_record(*old(ans))
            }),
    {
        if is_pawn {
            if let Some(pos) = self.en_passant {
                if pos == pos1 {
                    let captured_pos: usize = pos0 / 8 * 8 + pos1 % 8;
                    mres_set_capture(ans, &self.board[captured_pos]);
                    mres_set_en_passant(ans);
                    self.board[captured_pos] = Cell::Empty;
                }
            }
        }
    }

    /// Sets the en-passant target that the move leaves behind: the square
    /// passed over by a pawn's double step, or none.
    fn mark_en_passant(&mut self, is_pawn: bool, pos0: usize, pos1: usize)
        requires
            pos0 < 64,
            pos1 < 64,
        ensures
            final(self)@ == (Position {
                en_passant: if !is_pawn {
                    None
                } else {
                    match old(self)@.side {
                        Player::White => if pos0 / 8 == 1 && pos1 == pos0 + 16 {
                            Some(pos0 + 8)
                        } else {
                            None
                        },
                        Player::Black => if pos0 / 8 == 6 && pos0 == pos1 + 16 {
                            Some(pos0 - 8)
                        } else {
                            None
                        },
                    }
                },
                ..old(self)@
            }),
    {
        if is_pawn {
            self.en_passant = match self.player {
                Player::White => {
                    if pos0 / 8 == 1 && pos1 == pos0 + 16 {
                        Some(pos0 + 8)
                    } else {
                        None
                    }
                },
                Player::Black => {
                    if pos0 / 8 == 6 && pos0 == pos1 + 16 {
                        Some(pos0 - 8)
                    } else {
                        None
                    }
                },
            };
        } else {
            self.en_passant = None;
        }
    }

    /// Turns a pawn that is about to reach the farthest rank into its
    /// landing piece, on its source square.
    fn crown_pawn(
        &mut self,
        is_pawn: bool,
        pos0: usize,
        pos1: usize,
        promote_to: Cell,
        ans: &mut MoveResult,
    )
        requires
            pos0 < 64,
            pos1 < 64,
            mres_record(*old(ans)).promote == cell_code(promote_to),
        ensures
            final(self)@ == (Position {
                cells: if is_pawn && match old(self)@.side {
                    Player::White => pos1 / 8 == 7,
                    Player::Black => pos1 / 8 == 0,
                } {
                    old(self)@.cells.update(pos0 as int, promote_to)
                } else {
                    old(self)@.cells
                },
                ..old(self)@
            }),
            mres_record(*final(ans)) == mres_record(*old(ans)),
    {
        let far_rank: usize = match self.player {
            Player::White => 7,
            Player::Black => 0,
        };
        if is_pawn && pos1 / 8 == far_rank {
            mres_set_promote(ans, &promote_to);
            self.board[pos0] = promote_to;
        }
    }

    /// Applies what only a pawn move brings: the en-passant capture, the
    /// new en-passant target and the promotion.
    fn apply_pawn_rules(&mut self, mreq: MoveRequest, ans: &mut MoveResult)
        requires
            old(self)@.accepts(mreq),
            mres_record(*old(ans)).source == mreq_source(mreq),
            mres_record(*old(ans)).target == mreq_target(mreq),
            mres_record(*old(ans)).promote == mreq_promote_code(mreq),
        ensures
            final(self)@ == old(self)@.with_pawn_rules(mreq),
            mres_record(*final(ans)) == (if old(self)@.takes_en_passant(mreq) {
                MoveRecord {
                    capture: cell_code(
                        old(self)@.cells[en_passant_victim(mreq_source(mreq), mreq_target(mreq))],
                    ),
                    en_passant: true,
                    ..mres_record(*old(ans))
                }
            } else {
                mres_record(*old(ans))
            }),
    {
        let pos0: usize = get_pos0(*ans);
        let pos1: usize = get_pos1(*ans);
        let promote_to: Cell = get_promote(*ans).unwrap();
        let is_pawn = match self.board[pos0] {
            Cell::Occupied(_, Piece::Pawn) => true,
            _ => false,
        };
        self.capture_en_passant(is_pawn, pos0, pos1, ans);
        self.mark_en_passant(is_pawn, pos0, pos1);
        self.crown_pawn(is_pawn, pos0, pos1, promote_to, ans);
    }

    /// Moves the rook of a castle and ends both rights of the side that
    /// castles; the king moves afterwards like any piece.
    fn hop_castle_rook(&mut self, mreq: MoveRequest, ans: &mut MoveResult)
        requires
            mres_record(*old(ans)).source == mreq_source(mreq),
            mres_record(*old(ans)).target == mreq_target(mreq),
        ensures
            final(self)@ == (Position {
                cells: old(self)@.rook_hopped(mreq),
                white_king_side: old(self)@.white_king_side && !(old(self)@.castles(mreq)
                    && old(self)@.side == Player::White),
                white_queen_side: old(self)@.white_queen_side && !(old(self)@.castles(mreq)
                    && old(self)@.side == Player::White),
                black_king_side: old(self)@.black_king_side && !(old(self)@.castles(mreq)
                    && old(self)@.side == Player::Black),
                black_queen_side: old(self)@.black_queen_side && !(old(self)@.castles(mreq)
                    && old(self)@.side == Player::Black),
                ..old(self)@
            }),
            mres_record(*final(ans)) == (MoveRecord {
                castle: old(self)@.castles(mreq) || mres_record(*old(ans)).castle,
                ..mres_record(*old(ans))
            }),
    {
        let pos0: usize = get_pos0(*ans);
        let pos1: usize = get_pos1(*ans);
        match self.player {
            Player::White => {
                if self.castle_rights[WHITE_KING_SIDE] && pos0 == WHITE_KING_SIDE_POS - 2 && pos1
                    == WHITE_KING_SIDE_POS {
                    self.castle_rights[WHITE_KING_SIDE] = false;
                    self.castle_rights[WHITE_QUEEN_SIDE] = false;
                    mres_set_castle(ans);
                    self.board[WHITE_KING_SIDE_POS - 1] = self.board[7];
                    self.board[7] = Cell::Empty;
                } else if self.castle_rights[WHITE_QUEEN_SIDE] && pos0 == WHITE_QUEEN_SIDE_POS + 2
                    && pos1 == WHITE_QUEEN_SIDE_POS {
                    self.castle_rights[WHITE_KING_SIDE] = false;
                    self.castle_rights[WHITE_QUEEN_SIDE] = false;
                    mres_set_castle(ans);
                    self.board[WHITE_QUEEN_SIDE_POS + 1] = self.board[0];
                    self.board[0] = Cell::Empty;
                }
            },
            Player::Black => {
                if self.castle_rights[BLACK_KING_SIDE] && pos0 == BLACK_KING_SIDE_POS - 2 && pos1
                    == BLACK_KING_SIDE_POS {
                    self.castle_rights[BLACK_KING_SIDE] = false;
                    self.castle_rights[BLACK_QUEEN_SIDE] = false;
                    mres_set_castle(ans);
                    self.board[BLACK_KING_SIDE_POS - 1] = self.board[63];
                    self.board[63] = Cell::Empty;
                } else if self.castle_rights[BLACK_QUEEN_SIDE] && pos0 == BLACK_QUEEN_SIDE_POS + 2
                    && pos1 == BLACK_QUEEN_SIDE_POS {
                    self.castle_rights[BLACK_KING_SIDE] = false;
                    self.castle_rights[BLACK_QUEEN_SIDE] = false;
                    mres_set_castle(ans);
                    self.board[BLACK_QUEEN_SIDE_POS + 1] = self.board[56];
                    self.board[56] = Cell::Empty;
                }
            },
        }
        assert(self@.cells =~= old(self)@.rook_hopped(mreq));
    }

    /// Ends each castling right whose king's or rook's first square is the
    /// source or the target of a move.
    fn drop_touched_rights(&mut self, pos0: usize, pos1: usize)
        ensures
            final(self)@ == (Position {
                white_king_side: old(self)@.white_king_side && !(pos0 == 4 || pos0 == 7 || pos1
                    == 4 || pos1 == 7),
                white_queen_side: old(self)@.white_queen_side && !(pos0 == 0 || pos0 == 4 || pos1
                    == 0 || pos1 == 4),
                black_king_side: old(self)@.black_king_side && !(pos0 == 60 || pos0 == 63 || pos1
                    == 60 || pos1 == 63),
                black_queen_side: old(self)@.black_queen_side && !(pos0 == 56 || pos0 == 60
                    || pos1 == 56 || pos1 == 60),
                ..old(self)@
            }),
    {
        if pos0 == 4 || pos0 == 7 || pos1 == 4 || pos1 == 7 {
            self.castle_rights[WHITE_KING_SIDE] = false;
        }
        if pos0 == 0 || pos0 == 4 || pos1 == 0 || pos1 == 4 {
            self.castle_rights[WHITE_QUEEN_SIDE] = false;
        }
        if pos0 == 60 || pos0 == 63 || pos1 == 60 || pos1 == 63 {
            self.castle_rights[BLACK_KING_SIDE] = false;
        }
        if pos0 == 56 || pos0 == 60 || pos1 == 56 || pos1 == 60 {
            self.castle_rights[BLACK_QUEEN_SIDE] = false;
        }
    }

    /// Carries out a move on the cells, the side to move, the castling
    /// rights and the en-passant target, and leaves the two counters alone.
    ///
    /// The move is not checked for legality: it is meant to come from the
    /// move generator on this same position.
    pub fn relocate(&mut self, mreq: MoveRequest) -> (res: MoveResult)
        requires
            old(self)@.accepts(mreq),
        ensures
            final(self)@ == old(self)@.moved(mreq),
            mres_record(res) == old(self)@.move_record(mreq),
            old(self)@.wf() && old(self)@.pseudo_legal(mreq) ==> final(self)@.wf(),
    {
        proof {
            if old(self)@.wf() && old(self)@.pseudo_legal(mreq) {
                lemma_move_keeps_consistency(old(self)@, mreq);
            }
        }
        let mut ans: MoveResult = mres_new(mreq);
        let pos0: usize = get_pos0(ans);
        let pos1: usize = get_pos1(ans);
        mres_set_prev_castle_rights(
            &mut ans,
            self.castle_rights[WHITE_KING_SIDE],
            self.castle_rights[WHITE_QUEEN_SIDE],
            self.castle_rights[BLACK_KING_SIDE],
            self.castle_rights[BLACK_QUEEN_SIDE],
        );
        let mover = self.player;
        self.apply_pawn_rules(mreq, &mut ans);
        self.hop_castle_rook(mreq, &mut ans);
        self.drop_touched_rights(pos0, pos1);
        assert(self@.cells == old(self)@.cells_prepared(mreq));
        if self.board[pos1] != Cell::Empty {
            mres_set_capture(&mut ans, &self.board[pos1]);
        }
        self.board[pos1] = self.board[pos0];
        self.board[pos0] = Cell::Empty;
        self.player = mover.opponent();
        assert(self@.cells =~= old(self)@.cells_after(mreq));
        ans
    }

    /// Carries out a move and returns what is needed to take it back.
    ///
    /// The move is not checked for legality: it is meant to come from the
    /// move generator on this same position, and such a move keeps a
    /// consistent position consistent.  A move whose source is empty or holds
    /// a piece of the side that is not to move is outside the contract.
    pub fn do_move(&mut self, mreq: MoveRequest) -> (res: MoveResult)
        requires
            old(self)@.accepts(mreq),
            old(self).half_move < usize::MAX,
            old(self).full_move < usize::MAX,
        ensures
            final(self)@ == old(self)@.after_move(mreq),
            mres_record(res) == old(self)@.move_record(mreq),
            old(self)@.wf() && old(self)@.pseudo_legal(mreq) ==> final(self)@.wf(),
    {
        proof {
            if old(self)@.wf() && old(self)@.pseudo_legal(mreq) {
                lemma_move_keeps_consistency(old(self)@, mreq);
            }
        }
        let mover = self.player;
        let is_pawn = match self.board[get_pos0(mres_new(mreq))] {
            Cell::Occupied(_, Piece::Pawn) => true,
            _ => false,
        };
        let res = self.relocate(mreq);
        let quiet = match mres_get_capture(res) {
            Some(Cell::Empty) => !is_pawn,
            _ => false,
        };
        if quiet {
            self.half_move += 1;
        } else {
            self.half_move = 0;
        }
        if mover == Player::Black {
            self.full_move += 1;
        }
        res
    }

    /// Takes back the move that `mres` records.
    ///
    /// `mres` is meant to be the result of the move that led to this
    /// position.  The two counters are left as they are.
    pub fn undo_move(&mut self, mres: MoveResult)
        requires
            old(self)@.can_undo(mres_record(mres)),
        ensures
            final(self)@ == old(self)@.undone(mres_record(mres)),
    {
        let pos0: usize = get_pos0(mres);
        let pos1: usize = get_pos1(mres);
        let promote: Cell = get_promote(mres).unwrap();
        let capture: Cell = mres_get_capture(mres).unwrap();
        let is_castle = mres_get_castle(mres);
        let is_en_passant = mres_get_en_passant(mres);

        self.player = self.player.opponent();
        if promote != Cell::Empty {
            self.board[pos0] = Cell::Occupied(self.player, Piece::Pawn);
        } else {
            self.board[pos0] = self.board[pos1];
        }
        self.en_passant = None;
        if is_en_passant {
            let captured_pos: usize = pos0 / 8 * 8 + pos1 % 8;
            self.board[captured_pos] = capture;
            self.en_passant = Some(pos1);
            self.board[pos1] = Cell::Empty;
        } else {
            self.board[pos1] = capture;
        }
        self.castle_rights[WHITE_KING_SIDE] = mres_get_prev_castle_right_wk(mres);
        self.castle_rights[WHITE_QUEEN_SIDE] = mres_get_prev_castle_right_wq(mres);
        self.castle_rights[BLACK_KING_SIDE] = mres_get_prev_castle_right_bk(mres);
        self.castle_rights[BLACK_QUEEN_SIDE] = mres_get_prev_castle_right_bq(mres);
        if is_castle {
            if pos1 == WHITE_KING_SIDE_POS || pos1 == BLACK_KING_SIDE_POS {
                self.board[pos1 + 1] = self.board[pos1 - 1];
                self.board[pos1 - 1] = Cell::Empty;
            } else {
                self.board[pos1 - 2] = self.board[pos1 + 1];
                self.board[pos1 + 1] = Cell::Empty;
            }
        }
        assert(self@.cells =~= old(self)@.undone(mres_record(mres)).cells);
    }
}

} // verus!
