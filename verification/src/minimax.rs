//! Full minimax, and the proof that the pruned search scores as it does
//! wherever no checkmate lies within the depth searched.

use vstd::prelude::*;
use crate::board::Position;
use crate::engine::{decision, deepened, own_view, root_bound, root_value};
use crate::eval::{lemma_static_score_within, static_score, SCORE_LIMIT};
use crate::moves::MoveRequest;
use crate::pieces::Player;
use crate::ranking::{lead, lemma_lead, lemma_ranked, lemma_ranked_front, ranked, ScoredMove};
use crate::search::{
    nearer_zero, ordered_moves, scan, search_result, terminal_score, with_gains, worst_score,
    CHECKMATE_SCORE,
};

verus! {

/// The better of two scores for the side that chooses.
pub open spec fn better_of(a: int, b: int, maximize: bool) -> int {
    if maximize == (a >= b) {
        a
    } else {
        b
    }
}

/// The score of a position by full minimax to the given depth: the static
/// score at depth 0, the score of the lost or drawn game where there is no
/// legal move, and otherwise the best, for the side that chooses, of the
/// scores behind the legal moves, each handed up one level.
pub open spec fn minimax(p: Position, depth: nat, maximize: bool) -> int
    decreases depth, 1nat, 0nat,
{
    if depth == 0 {
        static_score(p.cells)
    } else if p.legal_moves().len() == 0 {
        terminal_score(p)
    } else {
        best_reply(p, p.legal_moves(), p.legal_moves().len() as int, depth, maximize)
    }
}

/// The score behind one move, handed up one level.
pub open spec fn reply_score(p: Position, m: MoveRequest, depth: nat, maximize: bool) -> int
    decreases depth, 0nat, 0nat,
{
    if depth == 0 {
        0
    } else {
        nearer_zero(minimax(p.moved(m), (depth - 1) as nat, !maximize))
    }
}

/// The best, for the side that chooses, of the scores behind the first `n`
/// of the given moves; the worst that can befall that side where `n` is 0.
pub open spec fn best_reply(
    p: Position,
    moves: Seq<MoveRequest>,
    n: int,
    depth: nat,
    maximize: bool,
) -> int
    decreases depth, 0nat, n,
{
    if depth == 0 || n <= 0 {
        worst_score(maximize)
    } else {
        better_of(
            best_reply(p, moves, n - 1, depth, maximize),
            reply_score(p, moves[n - 1], depth, maximize),
            maximize,
        )
    }
}

/// Whether no line of legal moves from the position reaches a checkmate
/// within the given number of plies.
pub open spec fn mate_free(p: Position, depth: nat) -> bool
    decreases depth,
{
    depth == 0 || (!(p.legal_moves().len() == 0 && p.in_check()) && forall|i: int|
        0 <= i < p.legal_moves().len() ==> mate_free(
            p.moved(#[trigger] p.legal_moves()[i]),
            (depth - 1) as nat,
        ))
}

/// Whether a score is one that a position without mate in sight can have.
pub open spec fn calm(v: int) -> bool {
    -SCORE_LIMIT <= v <= SCORE_LIMIT
}

/// Whether every one of the moves leads to a position without mate within
/// `depth` plies.
pub open spec fn replies_mate_free(p: Position, moves: Seq<MoveRequest>, depth: nat) -> bool {
    forall|i: int| 0 <= i < moves.len() ==> mate_free(p.moved(#[trigger] moves[i]), depth)
}

/// Where no mate lies within the depth, the minimax score is a calm one.
pub proof fn lemma_minimax_calm(p: Position, depth: nat, maximize: bool)
    requires
        mate_free(p, depth),
    ensures
        calm(minimax(p, depth, maximize)),
    decreases depth, 1nat, 0nat,
{
    lemma_static_score_within(p.cells);
    if depth > 0 && p.legal_moves().len() > 0 {
        lemma_best_reply_calm(p, p.legal_moves(), p.legal_moves().len() as int, depth, maximize);
    }
}

/// Where no mate lies within the depth behind any of the moves, the best
/// of their scores is a calm one, is at least as good as each of them, and is
/// one of them.
pub proof fn lemma_best_reply_calm(
    p: Position,
    moves: Seq<MoveRequest>,
    n: int,
    depth: nat,
    maximize: bool,
)
    requires
        depth > 0,
        0 < n <= moves.len(),
        replies_mate_free(p, moves, (depth - 1) as nat),
    ensures
        calm(best_reply(p, moves, n, depth, maximize)),
        forall|k: int|
            0 <= k < n ==> calm(#[trigger] reply_score(p, moves[k], depth, maximize)) && better_of(
                best_reply(p, moves, n, depth, maximize),
                reply_score(p, moves[k], depth, maximize),
                maximize,
            ) == best_reply(p, moves, n, depth, maximize),
        exists|k: int|
            0 <= k < n && best_reply(p, moves, n, depth, maximize) == #[trigger] reply_score(
                p,
                moves[k],
                depth,
                maximize,
            ),
    decreases depth, 0nat, n,
{
    let last = moves[n - 1];
    assert(mate_free(p.moved(last), (depth - 1) as nat));
    lemma_minimax_calm(p.moved(last), (depth - 1) as nat, !maximize);
    let v = reply_score(p, last, depth, maximize);
    let here = best_reply(p, moves, n, depth, maximize);
    if n > 1 {
        lemma_best_reply_calm(p, moves, n - 1, depth, maximize);
        let before = best_reply(p, moves, n - 1, depth, maximize);
        if here == v {
            assert(here == reply_score(p, moves[n - 1], depth, maximize));
        } else {
            let k = choose|k: int|
                0 <= k < n - 1 && before == #[trigger] reply_score(p, moves[k], depth, maximize);
            assert(here == reply_score(p, moves[k], depth, maximize));
        }
    } else {
        assert(best_reply(p, moves, 0, depth, maximize) == worst_score(maximize));
        assert(here == reply_score(p, moves[n - 1], depth, maximize));
    }
}

/// The best of the scores behind a list of moves depends only on which
/// moves the list holds, not on their order.
pub proof fn lemma_best_reply_of_same_moves(
    p: Position,
    a: Seq<MoveRequest>,
    b: Seq<MoveRequest>,
    depth: nat,
    maximize: bool,
)
    requires
        depth > 0,
        a.len() > 0,
        b.len() > 0,
        replies_mate_free(p, a, (depth - 1) as nat),
        forall|m: MoveRequest| a.contains(m) <==> b.contains(m),
    ensures
        best_reply(p, a, a.len() as int, depth, maximize) == best_reply(
            p,
            b,
            b.len() as int,
            depth,
            maximize,
        ),
{
    lemma_replies_mate_free(p, b, a, (depth - 1) as nat);
    lemma_best_reply_calm(p, a, a.len() as int, depth, maximize);
    lemma_best_reply_calm(p, b, b.len() as int, depth, maximize);
    let best_a = best_reply(p, a, a.len() as int, depth, maximize);
    let best_b = best_reply(p, b, b.len() as int, depth, maximize);
    let ka = choose|k: int|
        0 <= k < a.len() && best_a == #[trigger] reply_score(p, a[k], depth, maximize);
    let kb = choose|k: int|
        0 <= k < b.len() && best_b == #[trigger] reply_score(p, b[k], depth, maximize);
    assert(b.contains(a[ka]));
    let ja = choose|j: int| 0 <= j < b.len() && b[j] == a[ka];
    assert(better_of(best_b, reply_score(p, b[ja], depth, maximize), maximize) == best_b);
    assert(a.contains(b[kb]));
    let jb = choose|j: int| 0 <= j < a.len() && a[j] == b[kb];
    assert(better_of(best_a, reply_score(p, a[jb], depth, maximize), maximize) == best_a);
}

/// The moves of a scored list, in its order.
pub open spec fn moves_of(ordered: Seq<ScoredMove>) -> Seq<MoveRequest> {
    Seq::new(ordered.len(), |k: int| ordered[k].0)
}

/// What a search within a window tells of the true score: inside the
/// window the score found is the true one; at or below the window the true
/// score is no higher than the score found; at or above it, no lower.
pub open spec fn brackets(found: int, truth: int, alpha: int, beta: int) -> bool {
    &&& alpha < found < beta ==> found == truth
    &&& found <= alpha ==> truth <= found
    &&& found >= beta ==> truth >= found
}

/// The lower end of the window that a scan has reached with the given
/// best score.
pub open spec fn alpha_at(alpha: int, best: int, maximize: bool) -> int {
    if maximize && best > alpha {
        best
    } else {
        alpha
    }
}

/// The upper end of the window that a scan has reached with the given
/// best score.
pub open spec fn beta_at(beta: int, best: int, maximize: bool) -> int {
    if !maximize && best < beta {
        best
    } else {
        beta
    }
}

/// What holds of the best score of a scan that has tried the first `i`
/// moves without stopping: it has not reached the far end of the window, and
/// it brackets the true best of those moves from the near end.
pub open spec fn on_track(best: int, truth: int, alpha: int, beta: int, maximize: bool) -> bool {
    if maximize {
        &&& best < beta
        &&& best > alpha ==> best == truth
        &&& best <= alpha ==> truth <= best
    } else {
        &&& best > alpha
        &&& best < beta ==> best == truth
        &&& best >= beta ==> truth >= best
    }
}

/// Ranking keeps the moves of a list.
pub proof fn lemma_ranked_same_moves(items: Seq<ScoredMove>, m: MoveRequest)
    ensures
        ranked(items).len() == items.len(),
        moves_of(ranked(items)).contains(m) <==> moves_of(items).contains(m),
{
    broadcast use vstd::seq_lib::group_to_multiset_ensures;

    let sorted = ranked(items);
    lemma_ranked(items);
    if moves_of(sorted).contains(m) {
        let k = choose|k: int| 0 <= k < sorted.len() && moves_of(sorted)[k] == m;
        assert(sorted.to_multiset().count(sorted[k]) > 0);
        assert(items.to_multiset().count(sorted[k]) > 0);
        let j = choose|j: int| 0 <= j < items.len() && items[j] == sorted[k];
        assert(moves_of(items)[j] == m);
    }
    if moves_of(items).contains(m) {
        let j = choose|j: int| 0 <= j < items.len() && moves_of(items)[j] == m;
        assert(items.to_multiset().count(items[j]) > 0);
        assert(sorted.to_multiset().count(items[j]) > 0);
        let k = choose|k: int| 0 <= k < sorted.len() && sorted[k] == items[j];
        assert(moves_of(sorted)[k] == m);
    }
}

/// Where every move of one list is a move of another, and every position
/// behind a move of the other is without mate within the depth, so is every
/// position behind a move of the first.
pub proof fn lemma_replies_mate_free(
    p: Position,
    moves: Seq<MoveRequest>,
    among: Seq<MoveRequest>,
    depth: nat,
)
    requires
        replies_mate_free(p, among, depth),
        forall|m: MoveRequest| moves.contains(m) ==> among.contains(m),
    ensures
        replies_mate_free(p, moves, depth),
{
    assert forall|i: int| 0 <= i < moves.len() implies mate_free(
        p.moved(#[trigger] moves[i]),
        depth,
    ) by {
        assert(moves.contains(moves[i]));
        let j = choose|j: int| 0 <= j < among.len() && among[j] == moves[i];
        assert(mate_free(p.moved(among[j]), depth));
    }
}

/// The moves that the search tries are the legal moves, in another order.
pub proof fn lemma_ordered_are_legal(p: Position, m: MoveRequest)
    ensures
        ordered_moves(p).len() == p.legal_moves().len(),
        moves_of(ordered_moves(p)).contains(m) <==> p.legal_moves().contains(m),
{
    let legal = p.legal_moves();
    let scored = with_gains(p.cells, legal);
    lemma_ranked_same_moves(scored, m);
    if moves_of(scored).contains(m) {
        let j = choose|j: int| 0 <= j < scored.len() && moves_of(scored)[j] == m;
        assert(legal[j] == m);
    }
    if legal.contains(m) {
        let j = choose|j: int| 0 <= j < legal.len() && legal[j] == m;
        assert(moves_of(scored)[j] == m);
    }
}

/// Where no checkmate lies within the depth searched, the score that the
/// pruned search finds within a window brackets the minimax score: it is the
/// minimax score wherever it falls inside the window.
pub proof fn lemma_search_brackets_minimax(
    p: Position,
    depth: nat,
    alpha: int,
    beta: int,
    maximize: bool,
)
    requires
        mate_free(p, depth),
        -CHECKMATE_SCORE <= alpha < beta <= CHECKMATE_SCORE,
    ensures
        calm(search_result(p, depth, alpha, beta, maximize).1),
        calm(minimax(p, depth, maximize)),
        brackets(
            search_result(p, depth, alpha, beta, maximize).1,
            minimax(p, depth, maximize),
            alpha,
            beta,
        ),
    decreases depth, 1nat, 0nat,
{
    lemma_static_score_within(p.cells);
    lemma_minimax_calm(p, depth, maximize);
    if depth > 0 && p.legal_moves().len() > 0 {
        let legal = p.legal_moves();
        let ordered = ordered_moves(p);
        let moves = moves_of(ordered);
        assert forall|m: MoveRequest| moves.contains(m) <==> legal.contains(m) by {
            lemma_ordered_are_legal(p, m);
        }
        lemma_ordered_are_legal(p, 0);
        lemma_replies_mate_free(p, moves, legal, (depth - 1) as nat);
        assert(best_reply(p, moves, 0, depth, maximize) == worst_score(maximize));
        lemma_scan_brackets(
            p,
            ordered,
            0,
            depth,
            alpha,
            beta,
            maximize,
            ordered[0].0,
            worst_score(maximize),
        );
        lemma_best_reply_of_same_moves(p, moves, legal, depth, maximize);
    }
}

/// A scan that is on track ends with a score that brackets the true best
/// of all the moves.
pub proof fn lemma_scan_brackets(
    p: Position,
    ordered: Seq<ScoredMove>,
    i: int,
    depth: nat,
    alpha: int,
    beta: int,
    maximize: bool,
    best_move: MoveRequest,
    best: int,
)
    requires
        depth > 0,
        ordered.len() > 0,
        0 <= i <= ordered.len(),
        replies_mate_free(p, moves_of(ordered), (depth - 1) as nat),
        -CHECKMATE_SCORE <= alpha < beta <= CHECKMATE_SCORE,
        i == 0 ==> best == worst_score(maximize),
        i > 0 ==> calm(best),
        on_track(best, best_reply(p, moves_of(ordered), i, depth, maximize), alpha, beta, maximize),
    ensures
        calm(
            scan(
                p,
                ordered,
                i,
                depth,
                alpha_at(alpha, best, maximize),
                beta_at(beta, best, maximize),
                maximize,
                best_move,
                best,
            ).1,
        ),
        brackets(
            scan(
                p,
                ordered,
                i,
                depth,
                alpha_at(alpha, best, maximize),
                beta_at(beta, best, maximize),
                maximize,
                best_move,
                best,
            ).1,
            best_reply(p, moves_of(ordered), ordered.len() as int, depth, maximize),
            alpha,
            beta,
        ),
    decreases depth, 0nat, ordered.len() - i,
{
    let moves = moves_of(ordered);
    let n = ordered.len() as int;
    let truth = best_reply(p, moves, n, depth, maximize);
    lemma_best_reply_calm(p, moves, n, depth, maximize);
    if i < n {
        let m = ordered[i].0;
        assert(moves[i] == m);
        let child = p.moved(m);
        let window_low = alpha_at(alpha, best, maximize);
        let window_high = beta_at(beta, best, maximize);
        assert(mate_free(child, (depth - 1) as nat));
        lemma_search_brackets_minimax(child, (depth - 1) as nat, window_low, window_high, !maximize);
        let found = search_result(child, (depth - 1) as nat, window_low, window_high, !maximize).1;
        let v = nearer_zero(found);
        let reply = reply_score(p, m, depth, maximize);
        assert(v == found);
        assert(reply == minimax(child, (depth - 1) as nat, !maximize));
        assert(brackets(v, reply, window_low, window_high));
        let so_far = best_reply(p, moves, i, depth, maximize);
        let then = best_reply(p, moves, i + 1, depth, maximize);
        assert(then == better_of(so_far, reply, maximize));
        assert(better_of(truth, reply_score(p, moves[i], depth, maximize), maximize) == truth);
        let better = if maximize {
            v > best
        } else {
            v < best
        };
        let now_move = if better {
            m
        } else {
            best_move
        };
        let now = if better {
            v
        } else {
            best
        };
        let stop = if maximize {
            now >= window_high
        } else {
            now <= window_low
        };
        if !stop {
            assert(on_track(now, then, alpha, beta, maximize));
            lemma_scan_brackets(p, ordered, i + 1, depth, alpha, beta, maximize, now_move, now);
        }
    }
}

/// Where no checkmate lies within the depth searched, the pruned search
/// over the whole range of scores finds the minimax score.
pub proof fn lemma_pruning_keeps_the_score(p: Position, depth: nat, maximize: bool)
    requires
        mate_free(p, depth),
    ensures
        search_result(p, depth, -CHECKMATE_SCORE, CHECKMATE_SCORE as int, maximize).1 == minimax(
            p,
            depth,
            maximize,
        ),
{
    lemma_search_brackets_minimax(p, depth, -CHECKMATE_SCORE, CHECKMATE_SCORE as int, maximize);
}

/// Whether the first score is strictly better than the second for the
/// side that chooses.
pub open spec fn beats(a: int, b: int, maximize: bool) -> bool {
    if maximize {
        a > b
    } else {
        a < b
    }
}

/// In a round over the root moves, the bound that the first `k` moves
/// leave is the true best of their scores, and is at least as good as each of
/// the scores that the round found for them; and the score found for a move
/// that beats the bound left before it is that move's true score.
pub proof fn lemma_root_bound(p: Position, sorted: Seq<ScoredMove>, k: int, depth: nat, maximize: bool)
    requires
        0 <= k <= sorted.len(),
        replies_mate_free(p, moves_of(sorted), depth),
    ensures
        root_bound(p, sorted, k, depth, maximize) == best_reply(
            p,
            moves_of(sorted),
            k,
            depth + 1,
            maximize,
        ),
        k > 0 ==> calm(root_bound(p, sorted, k, depth, maximize)),
        forall|j: int|
            0 <= j < k ==> calm(#[trigger] root_value(p, sorted, j, depth, maximize)) && better_of(
                root_bound(p, sorted, k, depth, maximize),
                root_value(p, sorted, j, depth, maximize),
                maximize,
            ) == root_bound(p, sorted, k, depth, maximize),
        k > 0 ==> exists|j: int|
            0 <= j < k && root_bound(p, sorted, k, depth, maximize) == #[trigger] root_value(
                p,
                sorted,
                j,
                depth,
                maximize,
            ),
        k > 0 && beats(
            root_value(p, sorted, k - 1, depth, maximize),
            root_bound(p, sorted, k - 1, depth, maximize),
            maximize,
        ) ==> root_value(p, sorted, k - 1, depth, maximize) == reply_score(
            p,
            sorted[k - 1].0,
            (depth + 1) as nat,
            maximize,
        ),
    decreases k,
{
    let moves = moves_of(sorted);
    if k > 0 {
        lemma_root_bound(p, sorted, k - 1, depth, maximize);
        let before = root_bound(p, sorted, k - 1, depth, maximize);
        let m = sorted[k - 1].0;
        assert(moves[k - 1] == m);
        let child = p.moved(m);
        assert(mate_free(child, depth));
        let low = if maximize {
            before
        } else {
            -CHECKMATE_SCORE
        };
        let high = if maximize {
            CHECKMATE_SCORE as int
        } else {
            before
        };
        assert(best_reply(p, moves, 0, depth + 1, maximize) == worst_score(maximize));
        lemma_search_brackets_minimax(child, depth, low, high, !maximize);
        let value = root_value(p, sorted, k - 1, depth, maximize);
        assert(value == search_result(child, depth, low, high, !maximize).1);
        let reply = reply_score(p, m, (depth + 1) as nat, maximize);
        assert(reply == minimax(child, depth, !maximize));
        let here = root_bound(p, sorted, k, depth, maximize);
        assert(best_reply(p, moves, k, depth + 1, maximize) == better_of(
            best_reply(p, moves, k - 1, depth + 1, maximize),
            reply,
            maximize,
        ));
        if here == value {
            assert(here == root_value(p, sorted, k - 1, depth, maximize));
        } else {
            let j = choose|j: int|
                0 <= j < k - 1 && before == #[trigger] root_value(p, sorted, j, depth, maximize);
            assert(here == root_value(p, sorted, j, depth, maximize));
        }
    }
}

/// After any number of rounds the scored root moves are the legal moves.
pub proof fn lemma_deepened_are_legal(p: Position, rounds: nat, maximize: bool, m: MoveRequest)
    ensures
        deepened(p, rounds, maximize).len() == p.legal_moves().len(),
        moves_of(deepened(p, rounds, maximize)).contains(m) <==> p.legal_moves().contains(m),
    decreases rounds,
{
    let legal = p.legal_moves();
    let items = deepened(p, rounds, maximize);
    if rounds == 0 {
        assert(moves_of(items) =~= legal);
    } else {
        let before = deepened(p, (rounds - 1) as nat, maximize);
        lemma_deepened_are_legal(p, (rounds - 1) as nat, maximize, m);
        lemma_ranked_same_moves(before, m);
        assert(moves_of(items) =~= moves_of(ranked(before)));
    }
}

/// Where no checkmate lies within the depth searched, the score of the move
/// chosen is the minimax score of the position.
pub proof fn lemma_decision_scores_minimax(p: Position, max_depth: nat)
    requires
        max_depth >= 1,
        mate_free(p, max_depth),
    ensures
        decision(p, max_depth).1 == minimax(p, max_depth, p.side == Player::White),
{
    broadcast use vstd::seq_lib::group_to_multiset_ensures;

    let maximize = p.side == Player::White;
    let legal = p.legal_moves();
    if legal.len() > 0 {
        let rounds = (max_depth - 1) as nat;
        let items = deepened(p, rounds, maximize);
        let top = ranked(items)[0];
        lemma_ranked(items);
        lemma_deepened_are_legal(p, rounds, maximize, 0);
        assert(ranked(items).to_multiset().count(top) > 0);
        assert(items.to_multiset().count(top) > 0);
        let at = choose|at: int| 0 <= at < items.len() && items[at] == top;
        assert forall|k: int| 0 <= k < items.len() implies top.1 >= (#[trigger] items[k]).1 by {
            assert(items.to_multiset().count(items[k]) > 0);
            assert(ranked(items).to_multiset().count(items[k]) > 0);
            let j = choose|j: int| 0 <= j < ranked(items).len() && ranked(items)[j] == items[k];
            assert(ranked(items)[0].1 >= ranked(items)[j].1);
        }
        let n = legal.len() as int;
        if rounds == 0 {
            lemma_best_reply_calm(p, legal, n, 1, maximize);
            let best = best_reply(p, legal, n, 1, maximize);
            let k = choose|k: int|
                0 <= k < n && best == #[trigger] reply_score(p, legal[k], 1, maximize);
            assert forall|j: int| 0 <= j < n implies (#[trigger] items[j]).1 == own_view(
                reply_score(p, legal[j], 1, maximize),
                maximize,
            ) by {
                lemma_static_score_within(p.moved(legal[j]).cells);
            }
            assert(top.1 >= items[k].1);
            assert(better_of(best, reply_score(p, legal[at], 1, maximize), maximize) == best);
        } else {
            let before = deepened(p, (rounds - 1) as nat, maximize);
            let sorted = ranked(before);
            let moves = moves_of(sorted);
            lemma_ranked_same_moves(before, 0);
            lemma_deepened_are_legal(p, (rounds - 1) as nat, maximize, 0);
            assert forall|m: MoveRequest| moves.contains(m) <==> legal.contains(m) by {
                lemma_deepened_are_legal(p, (rounds - 1) as nat, maximize, m);
                lemma_ranked_same_moves(before, m);
            }
            lemma_replies_mate_free(p, moves, legal, rounds);
            lemma_root_bound(p, sorted, n, rounds, maximize);
            lemma_best_reply_of_same_moves(p, moves, legal, max_depth, maximize);
            let bound = root_bound(p, sorted, n, rounds, maximize);
            let k = choose|k: int|
                0 <= k < n && bound == #[trigger] root_value(p, sorted, k, rounds, maximize);
            assert(calm(root_value(p, sorted, at, rounds, maximize)));
            assert(better_of(bound, root_value(p, sorted, at, rounds, maximize), maximize)
                == bound);
            assert(top.1 >= items[k].1);
        }
    }
}

/// Where no checkmate lies within the depth searched, the move chosen is a
/// legal move that is best by minimax: the score behind it is the minimax
/// score of the position.
pub proof fn lemma_decision_plays_minimax(p: Position, max_depth: nat)
    requires
        max_depth >= 1,
        mate_free(p, max_depth),
        p.legal_moves().len() > 0,
    ensures
        p.legal_moves().contains(decision(p, max_depth).0),
        reply_score(p, decision(p, max_depth).0, max_depth, p.side == Player::White) == minimax(
            p,
            max_depth,
            p.side == Player::White,
        ),
{
    let maximize = p.side == Player::White;
    let legal = p.legal_moves();
    let n = legal.len() as int;
    let rounds = (max_depth - 1) as nat;
    let items = deepened(p, rounds, maximize);
    lemma_decision_scores_minimax(p, max_depth);
    lemma_deepened_are_legal(p, rounds, maximize, 0);
    lemma_ranked_front(items);
    lemma_lead(items, n);
    let at = lead(items, n);
    let top = items[at];
    assert(moves_of(items)[at] == top.0);
    lemma_deepened_are_legal(p, rounds, maximize, top.0);
    if rounds == 0 {
        lemma_static_score_within(p.moved(legal[at]).cells);
    } else {
        let before = deepened(p, (rounds - 1) as nat, maximize);
        let sorted = ranked(before);
        let moves = moves_of(sorted);
        lemma_ranked_same_moves(before, 0);
        lemma_deepened_are_legal(p, (rounds - 1) as nat, maximize, 0);
        assert forall|m: MoveRequest| moves.contains(m) implies legal.contains(m) by {
            lemma_deepened_are_legal(p, (rounds - 1) as nat, maximize, m);
            lemma_ranked_same_moves(before, m);
        }
        lemma_replies_mate_free(p, moves, legal, rounds);
        lemma_root_bound(p, sorted, at + 1, rounds, maximize);
        lemma_root_bound(p, sorted, at, rounds, maximize);
        let value = root_value(p, sorted, at, rounds, maximize);
        let bound = root_bound(p, sorted, at, rounds, maximize);
        if at > 0 {
            let j = choose|j: int|
                0 <= j < at && bound == #[trigger] root_value(p, sorted, j, rounds, maximize);
            assert(items[j].1 < items[at].1);
            assert(calm(root_value(p, sorted, j, rounds, maximize)));
        }
        assert(beats(value, bound, maximize));
    }
}

} // verus!
