//! The move chooser: iterative deepening over the alpha-beta search.

use vstd::prelude::*;
use crate::board::{ChessBoard, Position};
use crate::eval::{evaluate, static_score};
use crate::minimax::{
    lemma_decision_scores_minimax, lemma_deepened_are_legal, lemma_ranked_same_moves, mate_free,
    minimax, moves_of,
};
use crate::moves::MoveRequest;
use crate::pieces::Player;
use crate::ranking::{lemma_ranked_came_from, ranked, sort_by_score, ScoredMove};
use crate::search::{search, search_result, terminal_score, worst_score, CHECKMATE_SCORE};

verus! {

/// The depth to which [`naive_bot`] looks ahead, in plies.
pub const NAIVE_BOT_DEPTH: usize = 5;

/// A score as the side that chooses sees it: White's view is the score,
/// Black's its negative.
pub open spec fn own_view(score: int, maximize: bool) -> int {
    if maximize {
        score
    } else {
        -score
    }
}

/// The legal moves, each with the static score of the position it leads
/// to, in the mover's view.
pub open spec fn first_scores(p: Position, maximize: bool) -> Seq<ScoredMove> {
    Seq::new(
        p.legal_moves().len(),
        |i: int|
            (
                p.legal_moves()[i],
                own_view(static_score(p.moved(p.legal_moves()[i]).cells), maximize) as i32,
            ),
    )
}

/// The best score among the first `n` root moves of a round, which bounds
/// the window for the next: the highest for the maximiser, the lowest for the
/// minimiser.
pub open spec fn root_bound(
    p: Position,
    sorted: Seq<ScoredMove>,
    n: int,
    depth: nat,
    maximize: bool,
) -> int
    decreases n, 0nat,
{
    if n <= 0 {
        worst_score(maximize)
    } else {
        let before = root_bound(p, sorted, n - 1, depth, maximize);
        let value = root_value(p, sorted, n - 1, depth, maximize);
        if maximize == (value > before) && value != before {
            value
        } else {
            before
        }
    }
}

/// The score that a round finds for its `i`-th root move: that of the
/// position after the move, searched `depth` plies deep within the window
/// that the moves before it have left.
pub open spec fn root_value(
    p: Position,
    sorted: Seq<ScoredMove>,
    i: int,
    depth: nat,
    maximize: bool,
) -> int
    decreases i, 1nat,
{
    if i < 0 {
        0
    } else {
        let bound = root_bound(p, sorted, i, depth, maximize);
        search_result(
            p.moved(sorted[i].0),
            depth,
            if maximize {
                bound
            } else {
                -CHECKMATE_SCORE
            },
            if maximize {
                CHECKMATE_SCORE as int
            } else {
                bound
            },
            !maximize,
        ).1
    }
}

/// The root moves with the scores that one round finds for them, in the
/// mover's view.
pub open spec fn root_pass(p: Position, sorted: Seq<ScoredMove>, depth: nat, maximize: bool) -> Seq<
    ScoredMove,
> {
    Seq::new(
        sorted.len(),
        |i: int| (sorted[i].0, own_view(root_value(p, sorted, i, depth, maximize), maximize) as i32),
    )
}

/// The scored root moves after the given number of rounds: the static
/// scores before the first, and after round `r` the scores of a search `r`
/// plies deep behind each root move, tried in the order of the scores of the
/// round before.
pub open spec fn deepened(p: Position, rounds: nat, maximize: bool) -> Seq<ScoredMove>
    decreases rounds,
{
    if rounds == 0 {
        first_scores(p, maximize)
    } else {
        root_pass(p, ranked(deepened(p, (rounds - 1) as nat, maximize)), rounds, maximize)
    }
}

/// The move chosen for a position and its score: after `max_depth - 1`
/// rounds, the first of the root moves ranked by their scores.  Where the
/// side to move has no legal move, the move is 0, which is no move, and the
/// score is that of the lost or drawn game.
pub open spec fn decision(p: Position, max_depth: nat) -> (MoveRequest, int) {
    let maximize = p.side == Player::White;
    let rounds = if max_depth == 0 {
        0nat
    } else {
        (max_depth - 1) as nat
    };
    if p.legal_moves().len() == 0 {
        (0, terminal_score(p))
    } else {
        let top = ranked(deepened(p, rounds, maximize))[0];
        (top.0, own_view(top.1 as int, maximize))
    }
}

/// A move and a score as one number: the move in the low thirty-two bits,
/// the signed score above them.
pub open spec fn packed_decision(choice: (MoveRequest, int)) -> int {
    choice.1 * 0x1_0000_0000 + choice.0
}

/// Whether every score of the list is one that a search can return.
pub open spec fn within_scores(scored: Seq<ScoredMove>) -> bool {
    forall|i: int|
        0 <= i < scored.len() ==> -CHECKMATE_SCORE <= (#[trigger] scored[i]).1 <= CHECKMATE_SCORE
}

/// Packs a move and a score into one number.
pub fn pack_decision(m: MoveRequest, score: i32) -> (packed: i64)
    ensures
        packed == packed_decision((m, score as int)),
{
    let high: i64 = score as i64;
    let low: i64 = m as i64;
    let packed: i64 = (high << 32) | low;
    assert(packed == high * 0x1_0000_0000 + low) by (bit_vector)
        requires
            -0x8000_0000 <= high < 0x8000_0000,
            0 <= low < 0x1_0000,
            packed == (high << 32) | low,
    ;
    packed
}

/// Scores each legal move by the static score of the position it leads to.
fn score_first(board: &ChessBoard, moves: &Vec<MoveRequest>, maximize: bool) -> (scored: Vec<
    ScoredMove,
>)
    requires
        moves@ == board@.legal_moves(),
        forall|i: int| 0 <= i < moves@.len() ==> board@.accepts(#[trigger] moves@[i]),
    ensures
        scored@ == first_scores(board@, maximize),
        within_scores(scored@),
{
    let mut scored: Vec<ScoredMove> = Vec::new();
    for i in 0..moves.len()
        invariant
            moves@ == board@.legal_moves(),
            forall|i: int| 0 <= i < moves@.len() ==> board@.accepts(#[trigger] moves@[i]),
            scored@ =~= first_scores(board@, maximize).take(i as int),
            within_scores(scored@),
    {
        let mov = moves[i];
        let mut new_board = *board;
        new_board.relocate(mov);
        let value = evaluate(&new_board);
        scored.push(
            (
                mov,
                if maximize {
                    value
                } else {
                    -value
                },
            ),
        );
    }
    assert(scored@ =~= first_scores(board@, maximize));
    scored
}

/// Searches behind every root move once, `depth` plies deep, each within
/// the window that the moves before it have left.
fn deepen(board: &ChessBoard, sorted: &Vec<ScoredMove>, depth: usize, maximize: bool) -> (fresh: Vec<
    ScoredMove,
>)
    requires
        forall|i: int| 0 <= i < sorted@.len() ==> board@.accepts((#[trigger] sorted@[i]).0),
    ensures
        fresh@ == root_pass(board@, sorted@, depth as nat, maximize),
        within_scores(fresh@),
{
    let ghost p = board@;
    let mut alpha: i32 = -CHECKMATE_SCORE;
    let mut beta: i32 = CHECKMATE_SCORE;
    let mut fresh: Vec<ScoredMove> = Vec::new();
    for i in 0..sorted.len()
        invariant
            p == board@,
            forall|i: int| 0 <= i < sorted@.len() ==> p.accepts((#[trigger] sorted@[i]).0),
            -CHECKMATE_SCORE <= alpha <= CHECKMATE_SCORE,
            -CHECKMATE_SCORE <= beta <= CHECKMATE_SCORE,
            maximize ==> beta == CHECKMATE_SCORE && alpha == root_bound(
                p,
                sorted@,
                i as int,
                depth as nat,
                maximize,
            ),
            !maximize ==> alpha == -CHECKMATE_SCORE && beta == root_bound(
                p,
                sorted@,
                i as int,
                depth as nat,
                maximize,
            ),
            fresh@ =~= root_pass(p, sorted@, depth as nat, maximize).take(i as int),
            within_scores(fresh@),
    {
        let mov = sorted[i].0;
        let mut new_board = *board;
        new_board.relocate(mov);
        let (_, value) = search(&new_board, depth, alpha, beta, !maximize);
        assert(value == root_value(p, sorted@, i as int, depth as nat, maximize));
        if maximize {
            if value > alpha {
                alpha = value;
            }
            fresh.push((mov, value));
        } else {
            if value < beta {
                beta = value;
            }
            fresh.push((mov, -value));
        }
    }
    assert(fresh@ =~= root_pass(p, sorted@, depth as nat, maximize));
    fresh
}

/// Chooses a move for the side to move by searching `max_depth` plies
/// ahead, and returns it with its score as one number: the move in the low
/// thirty-two bits, the signed score, positive where White is better off,
/// above them.
///
/// The same position and depth always give the same answer.  Where the side
/// to move has no legal move the answer holds no move, and the score of the
/// lost or drawn game.  Where no checkmate lies within the depth, the score
/// is the minimax score of the position.
pub fn deepening_search(board: &ChessBoard, max_depth: usize) -> (packed: i64)
    ensures
        packed == packed_decision(decision(board@, max_depth as nat)),
        board@.legal_moves().len() > 0 ==> board@.legal_moves().contains(
            decision(board@, max_depth as nat).0,
        ),
        max_depth >= 1 && mate_free(board@, max_depth as nat) ==> decision(
            board@,
            max_depth as nat,
        ).1 == minimax(board@, max_depth as nat, board@.side == Player::White),
{
    let ghost p = board@;
    proof {
        if max_depth >= 1 && mate_free(p, max_depth as nat) {
            lemma_decision_scores_minimax(p, max_depth as nat);
        }
        if p.legal_moves().len() > 0 {
            let rounds = if max_depth == 0 {
                0nat
            } else {
                (max_depth - 1) as nat
            };
            let items = deepened(p, rounds, p.side == Player::White);
            let top = ranked(items)[0];
            lemma_deepened_are_legal(p, rounds, p.side == Player::White, top.0);
            lemma_ranked_same_moves(items, top.0);
            assert(moves_of(ranked(items))[0] == top.0);
        }
    }
    let maximize = board.player == Player::White;
    let list = board.possible_moves();
    if list.moves.len() == 0 {
        let score = if !list.in_check {
            0
        } else if board.player == Player::White {
            -CHECKMATE_SCORE
        } else {
            CHECKMATE_SCORE
        };
        return pack_decision(0, score);
    }
    let mut evaluated = score_first(board, &list.moves, maximize);
    let mut depth: usize = 1;
    while depth < max_depth
        invariant
            p == board@,
            1 <= depth,
            depth <= max_depth || (max_depth == 0 && depth == 1),
            list.moves@ == p.legal_moves(),
            list.moves@.len() > 0,
            forall|i: int| 0 <= i < list.moves@.len() ==> p.accepts(#[trigger] list.moves@[i]),
            evaluated@ == deepened(p, (depth - 1) as nat, maximize),
            evaluated@.len() == list.moves@.len(),
            forall|i: int|
                0 <= i < evaluated@.len() ==> list.moves@.contains((#[trigger] evaluated@[i]).0),
            within_scores(evaluated@),
        decreases max_depth - depth,
    {
        let sorted = sort_by_score(&evaluated);
        proof {
            assert forall|i: int| 0 <= i < sorted@.len() implies list.moves@.contains(
                (#[trigger] sorted@[i]).0,
            ) && p.accepts(sorted@[i].0) by {
                lemma_ranked_came_from(evaluated@, i);
            }
        }
        evaluated = deepen(board, &sorted, depth, maximize);
        depth += 1;
    }
    let sorted = sort_by_score(&evaluated);
    let (mov, score) = sorted[0];
    proof {
        lemma_ranked_came_from(evaluated@, 0);
        let j = choose|j: int| 0 <= j < evaluated@.len() && evaluated@[j] == sorted@[0];
        assert(-CHECKMATE_SCORE <= evaluated@[j].1 <= CHECKMATE_SCORE);
        let rounds = if max_depth == 0 {
            0nat
        } else {
            (max_depth - 1) as nat
        };
        assert(rounds == (depth - 1) as nat);
    }
    pack_decision(
        mov,
        if maximize {
            score
        } else {
            -score
        },
    )
}

/// Chooses a move by searching [`NAIVE_BOT_DEPTH`] plies ahead.
pub fn naive_bot(board: &ChessBoard) -> (packed: i64)
    ensures
        packed == packed_decision(decision(board@, NAIVE_BOT_DEPTH as nat)),
{
    deepening_search(board, NAIVE_BOT_DEPTH)
}

} // verus!
