//! The moves of a position: every move that the pieces of the side to move
//! could make, and among them those that leave its own king out of check.

use vstd::prelude::*;
use crate::attack::{
    attacks, forward, has_bit, king_attacked, lemma_concat_assoc, piece_attacks, squares_from,
};
use crate::board::{
    ChessBoard, Position, BLACK_KING_SIDE, BLACK_QUEEN_SIDE, WHITE_KING_SIDE, WHITE_QUEEN_SIDE,
};
use crate::moves::{
    lemma_request_is_its_fields, mreq_new, mreq_new_with_promote, mres_record, packed_request,
    MoveRequest, MoveResult,
};
use crate::pieces::{cell_code, Cell, Piece, Player};
use crate::rules::{lemma_legal_moves_are_legal, lemma_pseudo_moves_are_pseudo_legal};

verus! {

/// The moves of the side to move, and whether that side is in check.
///
/// No move and check is checkmate; no move and no check is stalemate.
pub struct MoveList {
    pub in_check: bool,
    pub moves: Vec<MoveRequest>,
}

/// The refusal of a move that is not legal in the position it was asked
/// for.
#[derive(Debug, Clone, Copy, PartialEq, Eq, Structural)]
pub struct IllegalMove {
    /// The move that was refused.
    pub request: MoveRequest,
}

/// The plain moves from `src` to each of the targets, in their order.
pub open spec fn plain_moves(src: int, targets: Seq<usize>) -> Seq<MoveRequest> {
    Seq::new(targets.len(), |i: int| packed_request(src, targets[i] as int, 0) as MoveRequest)
}

/// The rank on which the pawns of a side promote.
pub open spec fn far_rank(side: Player) -> int {
    match side {
        Player::White => 7,
        Player::Black => 0,
    }
}

/// The rank from which the pawns of a side may advance two squares.
pub open spec fn home_rank(side: Player) -> int {
    match side {
        Player::White => 1,
        Player::Black => 6,
    }
}

/// The request from `src` to `dst` that lands as a piece of `side` of the
/// given kind.
pub open spec fn promotion(side: Player, src: int, dst: int, kind: Piece) -> MoveRequest {
    packed_request(src, dst, cell_code(Cell::Occupied(side, kind))) as MoveRequest
}

/// The moves by which a pawn of `side` goes from `src` to `dst`: one plain
/// move, or, on the farthest rank, the four promotions to queen, rook,
/// bishop and knight.
pub open spec fn pawn_arrivals(side: Player, src: int, dst: int) -> Seq<MoveRequest> {
    if dst / 8 == far_rank(side) {
        seq![
            promotion(side, src, dst, Piece::Queen),
            promotion(side, src, dst, Piece::Rook),
            promotion(side, src, dst, Piece::Bishop),
            promotion(side, src, dst, Piece::Knight),
        ]
    } else {
        seq![packed_request(src, dst, 0) as MoveRequest]
    }
}

impl Position {
    /// Whether a pawn of the side to move may capture onto `target`: an
    /// enemy stands there, or it is the en-passant target.
    pub open spec fn pawn_takes(self, target: int) -> bool {
        self.cells[target].owned_by(self.side.other()) || self.en_passant == Some(target)
    }

    /// The moves of a pawn of the side to move on `src`: the single advance,
    /// the double advance from the home rank over two empty squares, the
    /// capture towards the h-file and the capture towards the a-file.
    pub open spec fn pawn_moves(self, src: int) -> Seq<MoveRequest> {
        let one = src + 8 * forward(self.side);
        let two = src + 16 * forward(self.side);
        let file = src % 8;
        let ahead = 0 <= one < 64;
        let advance = if ahead && self.cells[one] == Cell::Empty {
            pawn_arrivals(self.side, src, one)
        } else {
            Seq::empty()
        };
        let double = if src / 8 == home_rank(self.side) && self.cells[one] == Cell::Empty
            && self.cells[two] == Cell::Empty {
            pawn_arrivals(self.side, src, two)
        } else {
            Seq::empty()
        };
        let right = if ahead && file < 7 && self.pawn_takes(one + 1) {
            pawn_arrivals(self.side, src, one + 1)
        } else {
            Seq::empty()
        };
        let left = if ahead && file >= 1 && self.pawn_takes(one - 1) {
            pawn_arrivals(self.side, src, one - 1)
        } else {
            Seq::empty()
        };
        advance + double + right + left
    }

    /// Whether the side to move may castle king-side: the right stands, the
    /// two squares between king and rook are empty, and the opponent attacks
    /// none of the three squares that the king starts on, passes and lands
    /// on.
    pub open spec fn may_castle_king_side(self) -> bool {
        let rank = match self.side {
            Player::White => 0int,
            Player::Black => 56int,
        };
        let right = match self.side {
            Player::White => self.white_king_side,
            Player::Black => self.black_king_side,
        };
        &&& right
        &&& self.cells[rank + 5] == Cell::Empty
        &&& self.cells[rank + 6] == Cell::Empty
        &&& !attacks(self.cells, self.side.other(), rank + 4)
        &&& !attacks(self.cells, self.side.other(), rank + 5)
        &&& !attacks(self.cells, self.side.other(), rank + 6)
    }

    /// Whether the side to move may castle queen-side: the right stands,
    /// the three squares between king and rook are empty, and the opponent
    /// attacks none of the three squares that the king starts on, passes and
    /// lands on.
    pub open spec fn may_castle_queen_side(self) -> bool {
        let rank = match self.side {
            Player::White => 0int,
            Player::Black => 56int,
        };
        let right = match self.side {
            Player::White => self.white_queen_side,
            Player::Black => self.black_queen_side,
        };
        &&& right
        &&& self.cells[rank + 1] == Cell::Empty
        &&& self.cells[rank + 2] == Cell::Empty
        &&& self.cells[rank + 3] == Cell::Empty
        &&& !attacks(self.cells, self.side.other(), rank + 4)
        &&& !attacks(self.cells, self.side.other(), rank + 3)
        &&& !attacks(self.cells, self.side.other(), rank + 2)
    }

    /// The castles of a king of the side to move on `src`, king-side first.
    pub open spec fn castle_moves(self, src: int) -> Seq<MoveRequest> {
        let rank = match self.side {
            Player::White => 0int,
            Player::Black => 56int,
        };
        let king_side = if self.may_castle_king_side() {
            seq![packed_request(src, rank + 6, 0) as MoveRequest]
        } else {
            Seq::empty()
        };
        let queen_side = if self.may_castle_queen_side() {
            seq![packed_request(src, rank + 2, 0) as MoveRequest]
        } else {
            Seq::empty()
        };
        king_side + queen_side
    }

    /// The moves of the piece on `src`, none where the square is empty or
    /// holds a piece of the side that is not to move.
    pub open spec fn moves_from(self, src: int) -> Seq<MoveRequest> {
        match self.cells[src] {
            Cell::Empty => Seq::empty(),
            Cell::Occupied(owner, kind) => if owner != self.side {
                Seq::empty()
            } else {
                match kind {
                    Piece::Pawn => self.pawn_moves(src),
                    Piece::King => plain_moves(src, piece_attacks(self.cells, owner, kind, src))
                        + self.castle_moves(src),
                    _ => plain_moves(src, piece_attacks(self.cells, owner, kind, src)),
                }
            },
        }
    }

    /// The moves of the pieces on the first `n` squares, square by square.
    pub open spec fn moves_below(self, n: int) -> Seq<MoveRequest>
        decreases n,
    {
        if n <= 0 {
            Seq::empty()
        } else {
            self.moves_below(n - 1) + self.moves_from(n - 1)
        }
    }

    /// Every move that the pieces of the side to move could make, whether
    /// or not it leaves their own king attacked.
    pub open spec fn pseudo_moves(self) -> Seq<MoveRequest> {
        self.moves_below(64)
    }

    /// Whether the side to move is in check.
    pub open spec fn in_check(self) -> bool {
        king_attacked(self.cells, self.side.other())
    }

    /// Whether the move leaves the mover's own king attacked.
    pub open spec fn exposes_king(self, m: MoveRequest) -> bool {
        king_attacked(self.moved(m).cells, self.side.other())
    }

    /// Those of the given moves that do not leave the mover's king
    /// attacked, in their order.
    pub open spec fn safe_among(self, moves: Seq<MoveRequest>) -> Seq<MoveRequest>
        decreases moves.len(),
    {
        if moves.len() == 0 {
            Seq::empty()
        } else if self.exposes_king(moves.last()) {
            self.safe_among(moves.drop_last())
        } else {
            self.safe_among(moves.drop_last()).push(moves.last())
        }
    }

    /// The legal moves of the position, in the order of generation.
    pub open spec fn legal_moves(self) -> Seq<MoveRequest> {
        self.safe_among(self.pseudo_moves())
    }
}

/// Appends the plain move from `pos` to each of the targets.
fn push_plain(pos: usize, targets: &Vec<usize>, ans: &mut Vec<MoveRequest>)
    requires
        pos < 64,
        squares_from(targets@, 0),
    ensures
        final(ans)@ == old(ans)@ + plain_moves(pos as int, targets@),
{
    let ghost start = ans@;
    assert(ans@ =~= start + plain_moves(pos as int, targets@.take(0)));
    for i in 0..targets.len()
        invariant
            pos < 64,
            squares_from(targets@, 0),
            ans@ == start + plain_moves(pos as int, targets@.take(i as int)),
    {
        let m = mreq_new(pos, targets[i]);
        ans.push(m);
        assert(ans@ =~= start + plain_moves(pos as int, targets@.take(i as int + 1)));
    }
    assert(targets@.take(targets.len() as int) =~= targets@);
}

/// Appends the moves by which a pawn of `player` goes from `pos` to
/// `new_pos`.
fn push_arrivals(player: Player, pos: usize, new_pos: usize, ans: &mut Vec<MoveRequest>)
    requires
        pos < 64,
        new_pos < 64,
    ensures
        final(ans)@ == old(ans)@ + pawn_arrivals(player, pos as int, new_pos as int),
{
    let far: usize = match player {
        Player::White => 7,
        Player::Black => 0,
    };
    if new_pos / 8 == far {
        ans.push(mreq_new_with_promote(pos, new_pos, &Cell::Occupied(player, Piece::Queen)));
        ans.push(mreq_new_with_promote(pos, new_pos, &Cell::Occupied(player, Piece::Rook)));
        ans.push(mreq_new_with_promote(pos, new_pos, &Cell::Occupied(player, Piece::Bishop)));
        ans.push(mreq_new_with_promote(pos, new_pos, &Cell::Occupied(player, Piece::Knight)));
    } else {
        ans.push(mreq_new(pos, new_pos));
    }
    assert(ans@ =~= old(ans)@ + pawn_arrivals(player, pos as int, new_pos as int));
}

impl ChessBoard {
    /// Whether a pawn of the side to move may capture onto `target`.
    fn pawn_takes(&self, target: usize) -> (takes: bool)
        requires
            target < 64,
        ensures
            takes == self@.pawn_takes(target as int),
    {
        let enemy = match self.board[target] {
            Cell::Empty => false,
            Cell::Occupied(owner, _) => owner != self.player,
        };
        let passing = match self.en_passant {
            Some(t) => t == target,
            None => false,
        };
        enemy || passing
    }

    /// Appends the moves of a pawn of the side to move on `pos`.
    fn pawn_move(&self, pos: usize, ans: &mut Vec<MoveRequest>)
        requires
            pos < 64,
        ensures
            final(ans)@ == old(ans)@ + self@.pawn_moves(pos as int),
    {
        let ghost start = ans@;
        let ghost none = Seq::<MoveRequest>::empty();
        let player = self.player;
        let rank: usize = pos / 8;
        let file: usize = pos % 8;
        let (ahead, home): (bool, bool) = match player {
            Player::White => (rank < 7, rank == 1),
            Player::Black => (rank > 0, rank == 6),
        };
        if !ahead {
            assert(ans@ =~= start + self@.pawn_moves(pos as int));
            return ;
        }
        let one: usize = match player {
            Player::White => pos + 8,
            Player::Black => pos - 8,
        };
        let ghost one_step = if self.board@[one as int] == Cell::Empty {
            pawn_arrivals(player, pos as int, one as int)
        } else {
            none
        };
        if self.board[one] == Cell::Empty {
            push_arrivals(player, pos, one, ans);
        }
        assert(ans@ =~= start + one_step);
        let ghost mut two_steps = one_step;
        if home && self.board[one] == Cell::Empty {
            let two: usize = match player {
                Player::White => pos + 16,
                Player::Black => pos - 16,
            };
            if self.board[two] == Cell::Empty {
                push_arrivals(player, pos, two, ans);
                proof {
                    two_steps = one_step + pawn_arrivals(player, pos as int, two as int);
                    lemma_concat_assoc(
                        start,
                        one_step,
                        pawn_arrivals(player, pos as int, two as int),
                    );
                }
            }
        }
        assert(ans@ == start + two_steps);
        let ghost mut with_right = two_steps;
        if file < 7 && self.pawn_takes(one + 1) {
            push_arrivals(player, pos, one + 1, ans);
            proof {
                with_right = two_steps + pawn_arrivals(player, pos as int, one as int + 1);
                lemma_concat_assoc(
                    start,
                    two_steps,
                    pawn_arrivals(player, pos as int, one as int + 1),
                );
            }
        }
        assert(ans@ == start + with_right);
        let ghost mut with_left = with_right;
        if file >= 1 && self.pawn_takes(one - 1) {
            push_arrivals(player, pos, one - 1, ans);
            proof {
                with_left = with_right + pawn_arrivals(player, pos as int, one as int - 1);
                lemma_concat_assoc(
                    start,
                    with_right,
                    pawn_arrivals(player, pos as int, one as int - 1),
                );
            }
        }
        assert(with_left =~= self@.pawn_moves(pos as int));
    }

    /// Appends the castles of a king of the side to move on `pos`, given the
    /// squares that the opponent attacks.
    fn castle_move(&self, pos: usize, enemy_range: u64, ans: &mut Vec<MoveRequest>)
        requires
            pos < 64,
            forall|sq: int|
                0 <= sq < 64 ==> (has_bit(enemy_range, sq) <==> attacks(
                    self.board@,
                    self.player.other(),
                    sq,
                )),
        ensures
            final(ans)@ == old(ans)@ + self@.castle_moves(pos as int),
    {
        let (rank, king_right, queen_right): (usize, bool, bool) = match self.player {
            Player::White => (
                0,
                self.castle_rights[WHITE_KING_SIDE],
                self.castle_rights[WHITE_QUEEN_SIDE],
            ),
            Player::Black => (
                56,
                self.castle_rights[BLACK_KING_SIDE],
                self.castle_rights[BLACK_QUEEN_SIDE],
            ),
        };
        assert(has_bit(enemy_range, rank as int + 2) <==> (enemy_range >> ((rank + 2) as u64)) & 1
            == 1);
        assert(has_bit(enemy_range, rank as int + 3) <==> (enemy_range >> ((rank + 3) as u64)) & 1
            == 1);
        assert(has_bit(enemy_range, rank as int + 4) <==> (enemy_range >> ((rank + 4) as u64)) & 1
            == 1);
        assert(has_bit(enemy_range, rank as int + 5) <==> (enemy_range >> ((rank + 5) as u64)) & 1
            == 1);
        assert(has_bit(enemy_range, rank as int + 6) <==> (enemy_range >> ((rank + 6) as u64)) & 1
            == 1);
        if king_right && self.board[rank + 5] == Cell::Empty && self.board[rank + 6] == Cell::Empty
            && (enemy_range >> ((rank + 4) as u64)) & 1 != 1 && (enemy_range >> ((rank + 5) as u64))
            & 1 != 1 && (enemy_range >> ((rank + 6) as u64)) & 1 != 1 {
            ans.push(mreq_new(pos, rank + 6));
        }
        if queen_right && self.board[rank + 1] == Cell::Empty && self.board[rank + 2] == Cell::Empty
            && self.board[rank + 3] == Cell::Empty && (enemy_range >> ((rank + 4) as u64)) & 1 != 1
            && (enemy_range >> ((rank + 3) as u64)) & 1 != 1 && (enemy_range >> ((rank + 2) as u64))
            & 1 != 1 {
            ans.push(mreq_new(pos, rank + 2));
        }
        assert(ans@ =~= old(ans)@ + self@.castle_moves(pos as int));
    }

    /// Appends the moves of the piece on `pos`.
    fn piece_moves(&self, pos: usize, enemy_range: u64, ans: &mut Vec<MoveRequest>)
        requires
            pos < 64,
            forall|sq: int|
                0 <= sq < 64 ==> (has_bit(enemy_range, sq) <==> attacks(
                    self.board@,
                    self.player.other(),
                    sq,
                )),
        ensures
            final(ans)@ == old(ans)@ + self@.moves_from(pos as int),
    {
        let ghost start = ans@;
        match self.board[pos] {
            Cell::Empty => {},
            Cell::Occupied(player, piece) => {
                if player == self.player {
                    match piece {
                        Piece::Pawn => {
                            self.pawn_move(pos, ans);
                            return ;
                        },
                        Piece::King => {
                            let new_poses = self.piece_reach(pos, player, piece);
                            push_plain(pos, &new_poses, ans);
                            self.castle_move(pos, enemy_range, ans);
                            proof {
                                lemma_concat_assoc(
                                    start,
                                    plain_moves(pos as int, new_poses@),
                                    self@.castle_moves(pos as int),
                                );
                            }
                            return ;
                        },
                        _ => {
                            let new_poses = self.piece_reach(pos, player, piece);
                            push_plain(pos, &new_poses, ans);
                            return ;
                        },
                    }
                }
            },
        }
        assert(ans@ =~= start + self@.moves_from(pos as int));
    }

    /// Whether the move leaves the mover's own king attacked, found by
    /// carrying it out on a copy of the position.
    pub fn exposes_king(&self, m: MoveRequest) -> (exposed: bool)
        requires
            self@.accepts(m),
        ensures
            exposed == self@.exposes_king(m),
    {
        let mut new_board = *self;
        new_board.relocate(m);
        let (_, still_checked) = new_board.get_attacking_range(self.player.opponent());
        still_checked
    }

    /// The legal moves of the side to move, and whether it is in check.
    ///
    /// Every move that the pieces could make is tried on a copy of the
    /// position and kept only if it does not leave the mover's king attacked.
    pub fn possible_moves(&self) -> (list: MoveList)
        ensures
            list.in_check == self@.in_check(),
            list.moves@ == self@.legal_moves(),
            forall|m: MoveRequest| list.moves@.contains(m) <==> self@.legal(m),
            forall|i: int|
                0 <= i < list.moves@.len() ==> self@.accepts(#[trigger] list.moves@[i])
                    && !self@.exposes_king(list.moves@[i]),
    {
        let opponent = self.player.opponent();
        let (enemy_range, checked) = self.get_attacking_range(opponent);
        let mut ans: Vec<MoveRequest> = Vec::new();
        assert(ans@ =~= self@.moves_below(0));
        for pos in 0..64usize
            invariant
                opponent == self.player.other(),
                forall|sq: int|
                    0 <= sq < 64 ==> (has_bit(enemy_range, sq) <==> attacks(
                        self.board@,
                        opponent,
                        sq,
                    )),
                ans@ == self@.moves_below(pos as int),
        {
            self.piece_moves(pos, enemy_range, &mut ans);
        }
        // keep the moves that do not leave the king attacked
        let mut filtered: Vec<MoveRequest> = Vec::new();
        assert(ans@.take(0) =~= Seq::empty());
        for i in 0..ans.len()
            invariant
                ans@ == self@.pseudo_moves(),
                filtered@ == self@.safe_among(ans@.take(i as int)),
                forall|j: int|
                    0 <= j < filtered@.len() ==> self@.accepts(#[trigger] filtered@[j])
                        && !self@.exposes_king(filtered@[j]),
        {
            let possible_move = ans[i];
            proof {
                assert(ans@.contains(possible_move));
                lemma_pseudo_moves_are_pseudo_legal(self@, possible_move);
                lemma_request_is_its_fields(possible_move);
                assert(ans@.take(i as int + 1).drop_last() =~= ans@.take(i as int));
            }
            if !self.exposes_king(possible_move) {
                filtered.push(possible_move);
            }
        }
        proof {
            assert(ans@.take(ans.len() as int) =~= ans@);
            assert forall|m: MoveRequest| filtered@.contains(m) <==> self@.legal(m) by {
                lemma_legal_moves_are_legal(self@, m);
            }
        }
        MoveList { in_check: checked, moves: filtered }
    }

    /// Carries out a move if it is legal, and refuses it otherwise, leaving
    /// the position as it was.
    pub fn try_move(&mut self, mreq: MoveRequest) -> (res: Result<MoveResult, IllegalMove>)
        requires
            old(self).half_move < usize::MAX,
            old(self).full_move < usize::MAX,
        ensures
            res is Ok <==> old(self)@.legal(mreq),
            match res {
                Ok(done) => final(self)@ == old(self)@.after_move(mreq) && mres_record(done)
                    == old(self)@.move_record(mreq),
                Err(refusal) => *final(self) == *old(self) && refusal.request == mreq,
            },
            old(self)@.wf() ==> final(self)@.wf(),
    {
        let list = self.possible_moves();
        let mut found = false;
        for i in 0..list.moves.len()
            invariant
                found <==> list.moves@.take(i as int).contains(mreq),
        {
            if list.moves[i] == mreq {
                found = true;
            }
            proof {
                let seen = list.moves@.take(i as int);
                let next = list.moves@.take(i as int + 1);
                assert(next =~= seen.push(list.moves@[i as int]));
                if seen.contains(mreq) {
                    let j = choose|j: int| 0 <= j < seen.len() && seen[j] == mreq;
                    assert(next[j] == mreq);
                }
                if list.moves@[i as int] == mreq {
                    assert(next[i as int] == mreq);
                }
                if next.contains(mreq) {
                    let j = choose|j: int| 0 <= j < next.len() && next[j] == mreq;
                    if j < i {
                        assert(seen[j] == mreq);
                    }
                }
            }
        }
        assert(list.moves@.take(list.moves@.len() as int) =~= list.moves@);
        if found {
            proof {
                let j = choose|j: int| 0 <= j < list.moves@.len() && list.moves@[j] == mreq;
                assert(self@.accepts(list.moves@[j]));
                assert(self@.legal(mreq));
                assert(self@.pseudo_legal(mreq));
            }
            Ok(self.do_move(mreq))
        } else {
            Err(IllegalMove { request: mreq })
        }
    }
}

} // verus!
