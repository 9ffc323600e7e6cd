//! Depth-bounded minimax with alpha-beta pruning.
//!
//! White maximises the score and Black minimises it.  A position without
//! legal moves scores as a lost game for the side in check and as zero for a
//! side that is not; a score beyond [`FORCE_CHECKMATE_LIMIT`] comes one step
//! nearer to zero at each level that hands it up, so that the shorter of two
//! forced mates scores higher.

use vstd::prelude::*;
use crate::board::{ChessBoard, Position};
use crate::eval::{evaluate, static_score, PIECE_VALUES};
use crate::minimax::{brackets, lemma_search_brackets_minimax, mate_free, minimax};
use crate::moves::{get_pos0, get_pos1, mreq_source, mreq_target, mres_new, MoveRequest};
use crate::pieces::{Cell, Player};
use crate::ranking::{lemma_ranked_came_from, ranked, sort_by_score, ScoredMove};

verus! {

/// Scores beyond this limit, on either side of zero, tell of a forced mate.
pub const FORCE_CHECKMATE_LIMIT: i32 = 0x4000_0000;

/// The score of a position in which Black is checkmated; its negative is
/// the score of one in which White is.
pub const CHECKMATE_SCORE: i32 = 0x7fff_ffff;

/// The material worth of what a cell holds.
pub open spec fn cell_value(cell: Cell) -> int {
    match cell {
        Cell::Empty => 0,
        Cell::Occupied(_, kind) => PIECE_VALUES@[kind.index()] as int,
    }
}

/// What a capture promises: twice the worth of the piece on the target
/// less the worth of the piece that moves, and nothing for a move onto an
/// empty square.
pub open spec fn capture_gain(cells: Seq<Cell>, m: MoveRequest) -> int {
    if cells[mreq_target(m)] == Cell::Empty {
        0
    } else {
        2 * cell_value(cells[mreq_target(m)]) - cell_value(cells[mreq_source(m)])
    }
}

/// Each move with what its capture promises.
pub open spec fn with_gains(cells: Seq<Cell>, moves: Seq<MoveRequest>) -> Seq<ScoredMove> {
    Seq::new(moves.len(), |i: int| (moves[i], capture_gain(cells, moves[i]) as i32))
}

/// The legal moves in the order in which the search tries them: the most
/// promising capture first, moves onto empty squares in the order of
/// generation.
pub open spec fn ordered_moves(p: Position) -> Seq<ScoredMove> {
    ranked(with_gains(p.cells, p.legal_moves()))
}

/// A score handed up one level: a score that tells of a forced mate comes
/// one step nearer to zero.
pub open spec fn nearer_zero(v: int) -> int {
    if v > FORCE_CHECKMATE_LIMIT {
        v - 1
    } else if v < -FORCE_CHECKMATE_LIMIT {
        v + 1
    } else {
        v
    }
}

/// The score of a position without legal moves: lost for the side to move
/// where it is in check, and zero where it is not.
pub open spec fn terminal_score(p: Position) -> int {
    if !p.in_check() {
        0
    } else if p.side == Player::White {
        -CHECKMATE_SCORE
    } else {
        CHECKMATE_SCORE as int
    }
}

/// The score from which a side starts before it has tried a move: the
/// worst that can befall it.
pub open spec fn worst_score(maximize: bool) -> int {
    if maximize {
        -CHECKMATE_SCORE
    } else {
        CHECKMATE_SCORE as int
    }
}

/// What the search returns for a position: no move and the static score at
/// depth 0; no move and the terminal score where there is no legal move; and
/// otherwise the move and score that trying the ordered moves in turn ends
/// with.
pub open spec fn search_result(
    p: Position,
    depth: nat,
    alpha: int,
    beta: int,
    maximize: bool,
) -> (Option<MoveRequest>, int)
    decreases depth, 1nat, 0nat,
{
    if depth == 0 {
        (None, static_score(p.cells))
    } else if p.legal_moves().len() == 0 {
        (None, terminal_score(p))
    } else {
        let ordered = ordered_moves(p);
        let chosen = scan(
            p,
            ordered,
            0,
            depth,
            alpha,
            beta,
            maximize,
            ordered[0].0,
            worst_score(maximize),
        );
        (Some(chosen.0), chosen.1)
    }
}

/// The move and score that the search ends with when it has tried the
/// ordered moves before `i` and holds `best_move` and `best`, within the
/// window from `alpha` to `beta`.
///
/// The move at `i` is searched one level less deep with the sides' roles
/// exchanged.  A strictly better score replaces the best one.  The maximiser
/// then raises `alpha` to its best score and stops as soon as that score is at
/// least `beta`; the minimiser lowers `beta` and stops as soon as its best
/// score is at most `alpha`.
pub open spec fn scan(
    p: Position,
    ordered: Seq<ScoredMove>,
    i: int,
    depth: nat,
    alpha: int,
    beta: int,
    maximize: bool,
    best_move: MoveRequest,
    best: int,
) -> (MoveRequest, int)
    decreases depth, 0nat, ordered.len() - i,
{
    if depth == 0 || i < 0 || i >= ordered.len() {
        (best_move, best)
    } else {
        let m = ordered[i].0;
        let v = nearer_zero(
            search_result(p.moved(m), (depth - 1) as nat, alpha, beta, !maximize).1,
        );
        let better = if maximize {
            v > best
        } else {
            v < best
        };
        let now_move = if better {
            m
        } else {
            best_move
        };
        let now = if better {
            v
        } else {
            best
        };
        if maximize {
            if now >= beta {
                (now_move, now)
            } else {
                scan(
                    p,
                    ordered,
                    i + 1,
                    depth,
                    if now > alpha {
                        now
                    } else {
                        alpha
                    },
                    beta,
                    maximize,
                    now_move,
                    now,
                )
            }
        } else {
            if now <= alpha {
                (now_move, now)
            } else {
                scan(
                    p,
                    ordered,
                    i + 1,
                    depth,
                    alpha,
                    if now < beta {
                        now
                    } else {
                        beta
                    },
                    maximize,
                    now_move,
                    now,
                )
            }
        }
    }
}

/// The material worth of what a cell holds, computed.
fn value_of(cell: Cell) -> (value: i32)
    ensures
        value == cell_value(cell),
        0 <= value <= 900,
{
    match cell {
        Cell::Empty => 0,
        Cell::Occupied(_, kind) => PIECE_VALUES[kind.ordinal() as usize],
    }
}

/// What the capture of a move promises, computed.
fn gain_of(board: &ChessBoard, m: MoveRequest) -> (gain: i32)
    ensures
        gain == capture_gain(board@.cells, m),
{
    let r = mres_new(m);
    let pos0 = get_pos0(r);
    let pos1 = get_pos1(r);
    if board.board[pos1] == Cell::Empty {
        0
    } else {
        2 * value_of(board.board[pos1]) - value_of(board.board[pos0])
    }
}

/// Puts the moves in the order in which the search tries them.
pub fn order_moves(board: &ChessBoard, moves: &Vec<MoveRequest>) -> (ordered: Vec<ScoredMove>)
    ensures
        ordered@ == ranked(with_gains(board@.cells, moves@)),
        ordered@.len() == moves@.len(),
        forall|i: int| 0 <= i < ordered@.len() ==> moves@.contains((#[trigger] ordered@[i]).0),
{
    let mut scored: Vec<ScoredMove> = Vec::new();
    for i in 0..moves.len()
        invariant
            scored@ =~= with_gains(board@.cells, moves@.take(i as int)),
    {
        scored.push((moves[i], gain_of(board, moves[i])));
    }
    assert(moves@.take(moves.len() as int) =~= moves@);
    let ordered = sort_by_score(&scored);
    proof {
        assert forall|i: int| 0 <= i < ordered@.len() implies moves@.contains(
            (#[trigger] ordered@[i]).0,
        ) by {
            lemma_ranked_came_from(scored@, i);
            let j = choose|j: int| 0 <= j < scored@.len() && scored@[j] == ordered@[i];
            assert(moves@[j] == ordered@[i].0);
        }
    }
    ordered
}

/// A score handed up one level, computed.
fn hand_up(value: i32) -> (handed: i32)
    requires
        -CHECKMATE_SCORE <= value <= CHECKMATE_SCORE,
    ensures
        handed == nearer_zero(value as int),
        -CHECKMATE_SCORE <= handed <= CHECKMATE_SCORE,
{
    if value > FORCE_CHECKMATE_LIMIT {
        value - 1
    } else if value < -FORCE_CHECKMATE_LIMIT {
        value + 1
    } else {
        value
    }
}

/// Searches the position `depth` plies deep within the window from `alpha`
/// to `beta`, and returns the move found, if any, and its score.
///
/// Where no checkmate lies within the depth, a score found inside the window
/// is the minimax score of the position, a score at or below the window is no
/// lower than it, and a score at or above the window no higher.
pub fn search(board: &ChessBoard, depth: usize, alpha: i32, beta: i32, maximize: bool) -> (found: (
    Option<MoveRequest>,
    i32,
))
    ensures
        (found.0, found.1 as int) == search_result(
            board@,
            depth as nat,
            alpha as int,
            beta as int,
            maximize,
        ),
        -CHECKMATE_SCORE <= found.1 <= CHECKMATE_SCORE,
        mate_free(board@, depth as nat) && -CHECKMATE_SCORE <= alpha < beta <= CHECKMATE_SCORE
            ==> brackets(
            found.1 as int,
            minimax(board@, depth as nat, maximize),
            alpha as int,
            beta as int,
        ),
    decreases depth,
{
    proof {
        if mate_free(board@, depth as nat) && -CHECKMATE_SCORE <= alpha < beta <= CHECKMATE_SCORE {
            lemma_search_brackets_minimax(
                board@,
                depth as nat,
                alpha as int,
                beta as int,
                maximize,
            );
        }
    }
    if depth == 0 {
        return (None, evaluate(board));
    }
    let list = board.possible_moves();
    if list.moves.len() == 0 {
        let score = if !list.in_check {
            0
        } else if board.player == Player::White {
            -CHECKMATE_SCORE
        } else {
            CHECKMATE_SCORE
        };
        return (None, score);
    }
    let ordered = order_moves(board, &list.moves);
    let ghost p = board@;
    let ghost goal = scan(
        p,
        ordered@,
        0,
        depth as nat,
        alpha as int,
        beta as int,
        maximize,
        ordered@[0].0,
        worst_score(maximize),
    );
    let mut alpha = alpha;
    let mut beta = beta;
    let mut best_move = ordered[0].0;
    let mut best: i32 = if maximize {
        -CHECKMATE_SCORE
    } else {
        CHECKMATE_SCORE
    };
    let mut cut = false;
    let mut i: usize = 0;
    while i < ordered.len() && !cut
        invariant
            depth > 0,
            p == board@,
            i <= ordered@.len(),
            forall|k: int| 0 <= k < ordered@.len() ==> p.accepts((#[trigger] ordered@[k]).0),
            !cut ==> scan(
                p,
                ordered@,
                i as int,
                depth as nat,
                alpha as int,
                beta as int,
                maximize,
                best_move,
                best as int,
            ) == goal,
            cut ==> (best_move, best as int) == goal,
            -CHECKMATE_SCORE <= best <= CHECKMATE_SCORE,
        decreases ordered@.len() - i + (if cut { 0int } else { 1int }),
    {
        let m = ordered[i].0;
        let mut t = *board;
        t.relocate(m);
        let (_, value) = search(&t, depth - 1, alpha, beta, !maximize);
        let value = hand_up(value);
        if maximize {
            if value > best {
                best = value;
                best_move = m;
            }
            if best > alpha {
                alpha = best;
            }
            if best >= beta {
                cut = true;
            }
        } else {
            if value < best {
                best = value;
                best_move = m;
            }
            if best < beta {
                beta = best;
            }
            if best <= alpha {
                cut = true;
            }
        }
        if !cut {
            i += 1;
        }
    }
    (Some(best_move), best)
}

} // verus!
