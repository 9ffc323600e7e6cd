//! What holds of every position: a move keeps a consistent position
//! consistent, and taking a move back restores what the move changed.

use vstd::prelude::*;
use crate::attack::forward;
use crate::board::Position;
use crate::moves::{
    lemma_request_is_its_fields, mreq_promote_code, mreq_source, mreq_target, MoveRequest,
};
use crate::pieces::{cell_of_code, Cell, Piece, Player};
use crate::rules::{lemma_legal_moves_are_legal, reaches, slides, slides_in};
use crate::transition::en_passant_victim;

verus! {

/// What holds of every move that the rules of movement allow in a
/// consistent position: it can be carried out; its source and target differ;
/// it names a promotion exactly when a pawn reaches the farthest rank, and
/// then a piece other than a pawn; a capture en passant lands on an empty
/// square, one rank beyond the pawn it passes; a castle hop is a castle whose
/// way is clear and unattacked; and the target holds no piece of the mover.
pub proof fn lemma_pseudo_legal_shape(p: Position, m: MoveRequest)
    requires
        p.wf(),
        p.pseudo_legal(m),
    ensures
        p.accepts(m),
        mreq_source(m) != mreq_target(m),
        0 <= mreq_source(m) < 64,
        0 <= mreq_target(m) < 64,
        p.promotes(m) <==> mreq_promote_code(m) != 0,
        p.promotes(m) ==> cell_of_code(mreq_promote_code(m)) != Cell::Empty && cell_of_code(
            mreq_promote_code(m),
        ) != Cell::Occupied(p.side, Piece::Pawn),
        p.takes_en_passant(m) ==> p.cells[mreq_target(m)] == Cell::Empty && en_passant_victim(
            mreq_source(m),
            mreq_target(m),
        ) == mreq_target(m) - 8 * forward(p.side) && mreq_source(m) != mreq_target(m) - 8
            * forward(p.side),
        p.castles_king_side(m) ==> p.may_castle_king_side(),
        p.castles_queen_side(m) ==> p.may_castle_queen_side(),
        !p.cells[mreq_target(m)].owned_by(p.side),
{
    lemma_request_is_its_fields(m);
    let src = mreq_source(m);
    let dst = mreq_target(m);
    match p.cells[src] {
        Cell::Empty => {},
        Cell::Occupied(owner, kind) => {
            if kind != Piece::Pawn && reaches(p.cells, owner, kind, src, dst) {
                lemma_reach_leaves(p.cells, owner, kind, src, dst);
            }
        },
    }
}

/// A piece other than a pawn that reaches a square reaches a square other
/// than its own that holds no piece of its side.
pub proof fn lemma_reach_leaves(cells: Seq<Cell>, side: Player, kind: Piece, src: int, dst: int)
    requires
        0 <= src < 64,
        0 <= dst < 64,
        kind != Piece::Pawn,
        reaches(cells, side, kind, src, dst),
    ensures
        src != dst,
        !cells[dst].owned_by(side),
{
    lemma_slide_leaves(cells, side, src, dst, -1, 0);
    lemma_slide_leaves(cells, side, src, dst, 1, 0);
    lemma_slide_leaves(cells, side, src, dst, 0, 1);
    lemma_slide_leaves(cells, side, src, dst, 0, -1);
    lemma_slide_leaves(cells, side, src, dst, -1, -1);
    lemma_slide_leaves(cells, side, src, dst, -1, 1);
    lemma_slide_leaves(cells, side, src, dst, 1, 1);
    lemma_slide_leaves(cells, side, src, dst, 1, -1);
}

/// A slide ends on a square other than its source that holds no piece of
/// the slider's side.
pub proof fn lemma_slide_leaves(cells: Seq<Cell>, side: Player, src: int, dst: int, df: int, dr: int)
    requires
        0 <= src < 64,
        -1 <= df <= 1,
        -1 <= dr <= 1,
        df != 0 || dr != 0,
    ensures
        slides(cells, side, src, dst, df, dr) ==> src != dst && !cells[dst].owned_by(side),
{
    if slides(cells, side, src, dst, df, dr) {
        let k = choose|k: int| #[trigger] slides_in(cells, side, src, dst, df, dr, 1, k);
    }
}

/// A move that the rules allow leads from a consistent position to a
/// consistent position.
pub proof fn lemma_move_keeps_consistency(p: Position, m: MoveRequest)
    requires
        p.wf(),
        p.pseudo_legal(m),
    ensures
        p.moved(m).wf(),
        p.after_move(m).wf(),
{
    lemma_pseudo_legal_shape(p, m);
}

/// Taking back a move that the rules allow restores the cells, the side to
/// move and the four castling rights, and restores the en-passant target
/// where the move captured en passant; after any other move no target is
/// left.  The position that comes back is consistent.
pub proof fn lemma_undo_restores(p: Position, m: MoveRequest)
    requires
        p.wf(),
        p.pseudo_legal(m),
    ensures
        p.after_move(m).can_undo(p.move_record(m)),
        p.after_move(m).undone(p.move_record(m)).wf(),
        p.after_move(m).undone(p.move_record(m)) == (Position {
            en_passant: if p.takes_en_passant(m) {
                p.en_passant
            } else {
                None
            },
            half_move: p.after_move(m).half_move,
            full_move: p.after_move(m).full_move,
            ..p
        }),
{
    lemma_pseudo_legal_shape(p, m);
    let q = p.after_move(m).undone(p.move_record(m));
    assert(q.cells =~= p.cells);
}

/// Carrying out a legal move and taking it back reproduces the cells, the
/// side to move, the castling rights and the en-passant target, in every
/// consistent position that has no en-passant target or whose target the
/// move captures onto.
pub proof fn lemma_round_trip(p: Position, m: MoveRequest)
    requires
        p.wf(),
        p.legal_moves().contains(m),
        p.en_passant is None || p.takes_en_passant(m),
    ensures
        p.after_move(m).undone(p.move_record(m)).cells == p.cells,
        p.after_move(m).undone(p.move_record(m)).side == p.side,
        p.after_move(m).undone(p.move_record(m)).white_king_side == p.white_king_side,
        p.after_move(m).undone(p.move_record(m)).white_queen_side == p.white_queen_side,
        p.after_move(m).undone(p.move_record(m)).black_king_side == p.black_king_side,
        p.after_move(m).undone(p.move_record(m)).black_queen_side == p.black_queen_side,
        p.after_move(m).undone(p.move_record(m)).en_passant == p.en_passant,
{
    lemma_legal_moves_are_legal(p, m);
    lemma_undo_restores(p, m);
}

/// Carrying out a legal move and taking it back reproduces the cells, the
/// side to move and the castling rights, in every consistent position.
pub proof fn lemma_round_trip_of_pieces(p: Position, m: MoveRequest)
    requires
        p.wf(),
        p.legal_moves().contains(m),
    ensures
        p.after_move(m).undone(p.move_record(m)).cells == p.cells,
        p.after_move(m).undone(p.move_record(m)).side == p.side,
        p.after_move(m).undone(p.move_record(m)).white_king_side == p.white_king_side,
        p.after_move(m).undone(p.move_record(m)).white_queen_side == p.white_queen_side,
        p.after_move(m).undone(p.move_record(m)).black_king_side == p.black_king_side,
        p.after_move(m).undone(p.move_record(m)).black_queen_side == p.black_queen_side,
{
    lemma_legal_moves_are_legal(p, m);
    lemma_undo_restores(p, m);
}

/// No legal move leaves the mover's own king on a square that the opponent
/// attacks.
pub proof fn lemma_legal_moves_keep_king_safe(p: Position, m: MoveRequest)
    requires
        p.cells.len() == 64,
        p.legal_moves().contains(m),
    ensures
        !p.exposes_king(m),
{
    lemma_legal_moves_are_legal(p, m);
}

} // verus!
