use chess_core::{
    deepening_search, evaluate, mreq_new, naive_bot, pack_decision, pick_move, random_bot, search,
    sort_by_score, Cell, ChessBoard, ChessBot, MoveRequest, Piece, Player, SyncChessMover,
    CHECKMATE_SCORE, FORCE_CHECKMATE_LIMIT, NAIVE_BOT, NAIVE_BOT_DEPTH, RANDOM_BOT,
};

fn cell(side: Player, kind: Piece) -> Cell {
    Cell::Occupied(side, kind)
}

fn bare(player: Player) -> ChessBoard {
    ChessBoard {
        board: [Cell::Empty; 64],
        player,
        castle_rights: [false, false, false, false],
        en_passant: None,
        half_move: 0,
        full_move: 1,
    }
}

fn square(name: &str) -> usize {
    let bytes = name.as_bytes();
    (bytes[1] - b'1') as usize * 8 + (bytes[0] - b'a') as usize
}

fn place(player: Player, pieces: &[(&str, Player, Piece)]) -> ChessBoard {
    let mut b = bare(player);
    for (name, side, kind) in pieces {
        b.board[square(name)] = cell(*side, *kind);
    }
    b
}

fn move_of(packed: i64) -> MoveRequest {
    (packed & 0xffff_ffff) as MoveRequest
}

fn score_of(packed: i64) -> i32 {
    (packed >> 32) as i32
}

fn hand_up(value: i32) -> i32 {
    if value > FORCE_CHECKMATE_LIMIT {
        value - 1
    } else if value < -FORCE_CHECKMATE_LIMIT {
        value + 1
    } else {
        value
    }
}

/// Minimax without pruning.
fn full_minimax(board: &ChessBoard, depth: usize, maximize: bool) -> i32 {
    if depth == 0 {
        return evaluate(board);
    }
    let list = board.possible_moves();
    if list.moves.is_empty() {
        return if !list.in_check {
            0
        } else if board.player == Player::White {
            -CHECKMATE_SCORE
        } else {
            CHECKMATE_SCORE
        };
    }
    let mut best = if maximize { -CHECKMATE_SCORE } else { CHECKMATE_SCORE };
    for m in list.moves {
        let mut next = *board;
        next.do_move(m);
        let value = hand_up(full_minimax(&next, depth - 1, !maximize));
        if maximize {
            best = best.max(value);
        } else {
            best = best.min(value);
        }
    }
    best
}

fn fools_mate() -> ChessBoard {
    let mut b = ChessBoard::new();
    b.do_move(mreq_new(square("f2"), square("f3")));
    b.do_move(mreq_new(square("e7"), square("e5")));
    b.do_move(mreq_new(square("g2"), square("g4")));
    b.do_move(mreq_new(square("d8"), square("h4")));
    b
}

fn stalemate() -> ChessBoard {
    place(
        Player::White,
        &[
            ("a1", Player::White, Piece::King),
            ("a3", Player::Black, Piece::King),
            ("b3", Player::Black, Piece::Queen),
        ],
    )
}

fn mate_in_one() -> ChessBoard {
    place(
        Player::White,
        &[
            ("g6", Player::White, Piece::King),
            ("a1", Player::White, Piece::Queen),
            ("h8", Player::Black, Piece::King),
        ],
    )
}

#[test]
fn limits_have_their_values() {
    assert_eq!(CHECKMATE_SCORE, i32::MAX);
    assert_eq!(FORCE_CHECKMATE_LIMIT, 1 << 30);
    assert_eq!(NAIVE_BOT_DEPTH, 5);
}

#[test]
fn start_position_scores_zero() {
    assert_eq!(evaluate(&ChessBoard::new()), 0);
}

#[test]
fn empty_board_scores_zero() {
    assert_eq!(evaluate(&bare(Player::White)), 0);
}

#[test]
fn lone_pieces_score_by_material_and_square() {
    let b = place(
        Player::White,
        &[
            ("e1", Player::White, Piece::King),
            ("e4", Player::White, Piece::Pawn),
            ("e8", Player::Black, Piece::King),
        ],
    );
    assert_eq!(evaluate(&b), 1950);
}

#[test]
fn black_squares_are_read_with_the_rank_reflected() {
    let b = place(
        Player::White,
        &[
            ("e1", Player::White, Piece::King),
            ("e8", Player::Black, Piece::King),
            ("c7", Player::Black, Piece::Queen),
        ],
    );
    assert_eq!(evaluate(&b), -450 + 420 - (16 * 900 + 2 * 5 + 14 * 5));
    assert_eq!(evaluate(&b), -14510);
    let w = place(
        Player::White,
        &[
            ("e1", Player::White, Piece::King),
            ("e8", Player::Black, Piece::King),
            ("c2", Player::White, Piece::Queen),
        ],
    );
    assert_eq!(evaluate(&w), 14510);
}

#[test]
fn score_does_not_depend_on_the_side_to_move() {
    let mut b = ChessBoard::new();
    b.do_move(mreq_new(square("e2"), square("e4")));
    let white_view = evaluate(&b);
    b.player = Player::White;
    assert_eq!(evaluate(&b), white_view);
    assert_eq!(white_view, 16 * (20 - (-20)));
}

#[test]
fn mirrored_position_scores_the_negative() {
    let a = place(
        Player::White,
        &[
            ("e1", Player::White, Piece::King),
            ("d4", Player::White, Piece::Queen),
            ("c7", Player::Black, Piece::Rook),
            ("g8", Player::Black, Piece::King),
        ],
    );
    let mut b = bare(Player::White);
    for sq in 0..64 {
        b.board[sq ^ 56] = match a.board[sq] {
            Cell::Empty => Cell::Empty,
            Cell::Occupied(side, kind) => Cell::Occupied(side.opponent(), kind),
        };
    }
    assert_eq!(evaluate(&b), -evaluate(&a));
}

#[test]
fn search_at_depth_zero_is_the_static_score() {
    let b = place(
        Player::Black,
        &[
            ("e1", Player::White, Piece::King),
            ("e4", Player::White, Piece::Pawn),
            ("e8", Player::Black, Piece::King),
        ],
    );
    assert_eq!(search(&b, 0, -CHECKMATE_SCORE, CHECKMATE_SCORE, false), (None, 1950));
}

#[test]
fn stalemate_scores_zero() {
    let b = stalemate();
    assert_eq!(search(&b, 1, -CHECKMATE_SCORE, CHECKMATE_SCORE, true), (None, 0));
    assert_eq!(search(&b, 3, -CHECKMATE_SCORE, CHECKMATE_SCORE, true), (None, 0));
    assert_eq!(deepening_search(&b, 3), 0);
    assert_eq!(naive_bot(&b), 0);
}

#[test]
fn checkmate_scores_the_extreme() {
    let b = fools_mate();
    assert_eq!(search(&b, 2, -CHECKMATE_SCORE, CHECKMATE_SCORE, true), (None, -CHECKMATE_SCORE));
    let packed = deepening_search(&b, 2);
    assert_eq!(move_of(packed), 0);
    assert_eq!(score_of(packed), -CHECKMATE_SCORE);
    let mut black_mated = place(
        Player::Black,
        &[
            ("g6", Player::White, Piece::King),
            ("g7", Player::White, Piece::Queen),
            ("h8", Player::Black, Piece::King),
        ],
    );
    assert_eq!(
        search(&black_mated, 1, -CHECKMATE_SCORE, CHECKMATE_SCORE, false),
        (None, CHECKMATE_SCORE)
    );
    black_mated.player = Player::White;
    assert!(search(&black_mated, 1, -CHECKMATE_SCORE, CHECKMATE_SCORE, true).0.is_some());
}

#[test]
fn shorter_mates_score_higher() {
    let b = mate_in_one();
    let (m, value) = search(&b, 2, -CHECKMATE_SCORE, CHECKMATE_SCORE, true);
    assert_eq!(value, CHECKMATE_SCORE - 1);
    let mating =
        [mreq_new(square("a1"), square("a8")), mreq_new(square("a1"), square("g7"))];
    assert!(mating.contains(&m.unwrap()));
    let (_, deeper) = search(&b, 4, -CHECKMATE_SCORE, CHECKMATE_SCORE, true);
    assert_eq!(deeper, CHECKMATE_SCORE - 1);
}

#[test]
fn chooser_finds_the_mate() {
    let b = mate_in_one();
    let packed = deepening_search(&b, 2);
    assert_eq!(score_of(packed), CHECKMATE_SCORE);
    let mating =
        [mreq_new(square("a1"), square("a8")), mreq_new(square("a1"), square("g7"))];
    assert!(mating.contains(&move_of(packed)));
}

#[test]
fn chooser_takes_a_hanging_queen() {
    let b = place(
        Player::White,
        &[
            ("e1", Player::White, Piece::King),
            ("d1", Player::White, Piece::Rook),
            ("d8", Player::Black, Piece::Queen),
            ("h7", Player::Black, Piece::King),
        ],
    );
    for depth in 1..4 {
        let packed = deepening_search(&b, depth);
        assert_eq!(move_of(packed), mreq_new(square("d1"), square("d8")));
    }
}

#[test]
fn black_chooser_minimises() {
    let b = place(
        Player::Black,
        &[
            ("e8", Player::Black, Piece::King),
            ("d8", Player::Black, Piece::Rook),
            ("d1", Player::White, Piece::Queen),
            ("h2", Player::White, Piece::King),
        ],
    );
    let packed = deepening_search(&b, 2);
    assert_eq!(move_of(packed), mreq_new(square("d8"), square("d1")));
    assert!(score_of(packed) < 0);
}

#[test]
fn depth_one_ranks_by_static_score() {
    let b = ChessBoard::new();
    let packed = deepening_search(&b, 1);
    let list = b.possible_moves();
    let mut best: Option<(MoveRequest, i32)> = None;
    for m in list.moves {
        let mut next = b;
        next.do_move(m);
        let value = evaluate(&next);
        if best.map_or(true, |(_, v)| value > v) {
            best = Some((m, value));
        }
    }
    let (m, value) = best.unwrap();
    assert_eq!(move_of(packed), m);
    assert_eq!(score_of(packed), value);
    assert_eq!(deepening_search(&b, 0), packed);
}

#[test]
fn the_same_position_gives_the_same_answer() {
    let b = ChessBoard::new();
    assert_eq!(deepening_search(&b, 3), deepening_search(&b, 3));
    let c = mate_in_one();
    assert_eq!(naive_bot(&c), naive_bot(&c));
    assert_eq!(
        search(&b, 3, -CHECKMATE_SCORE, CHECKMATE_SCORE, true),
        search(&b, 3, -CHECKMATE_SCORE, CHECKMATE_SCORE, true)
    );
}

#[test]
fn answer_does_not_depend_on_the_counters() {
    let b = ChessBoard::new();
    let mut c = b;
    c.half_move = 40;
    c.full_move = 77;
    assert_eq!(deepening_search(&b, 2), deepening_search(&c, 2));
}

#[test]
fn pruned_search_scores_as_full_minimax() {
    let start = ChessBoard::new();
    for depth in 1..4 {
        assert_eq!(
            search(&start, depth, -CHECKMATE_SCORE, CHECKMATE_SCORE, true).1,
            full_minimax(&start, depth, true)
        );
    }
    let mut after_e4 = start;
    after_e4.do_move(mreq_new(square("e2"), square("e4")));
    for depth in 1..4 {
        assert_eq!(
            search(&after_e4, depth, -CHECKMATE_SCORE, CHECKMATE_SCORE, false).1,
            full_minimax(&after_e4, depth, false)
        );
    }
    let ending = place(
        Player::White,
        &[
            ("e1", Player::White, Piece::King),
            ("a2", Player::White, Piece::Pawn),
            ("h2", Player::White, Piece::Rook),
            ("e8", Player::Black, Piece::King),
            ("b4", Player::Black, Piece::Pawn),
            ("c6", Player::Black, Piece::Knight),
        ],
    );
    for depth in 1..5 {
        assert_eq!(
            search(&ending, depth, -CHECKMATE_SCORE, CHECKMATE_SCORE, true).1,
            full_minimax(&ending, depth, true)
        );
    }
}

#[test]
fn chooser_score_is_the_minimax_score() {
    let start = ChessBoard::new();
    for depth in 1..4 {
        assert_eq!(score_of(deepening_search(&start, depth)), full_minimax(&start, depth, true));
    }
}

#[test]
fn naive_bot_looks_five_plies_ahead() {
    let b = place(
        Player::White,
        &[
            ("e1", Player::White, Piece::King),
            ("e2", Player::White, Piece::Pawn),
            ("e8", Player::Black, Piece::King),
        ],
    );
    let packed = naive_bot(&b);
    assert_eq!(packed, deepening_search(&b, 5));
    assert!(b.possible_moves().moves.contains(&move_of(packed)));
    assert_eq!(score_of(packed), full_minimax(&b, 5, true));
}

#[test]
fn decision_packs_score_above_move() {
    assert_eq!(pack_decision(0x1234, 1), (1i64 << 32) | 0x1234);
    assert_eq!(pack_decision(0xffff, -1), -(1i64 << 32) + 0xffff);
    assert_eq!(pack_decision(0, i32::MAX), (i32::MAX as i64) << 32);
    assert_eq!(pack_decision(7, -i32::MAX), ((-i32::MAX as i64) << 32) | 7);
    assert_eq!(pack_decision(0, 0), 0);
    let packed = pack_decision(1804, -250);
    assert_eq!(move_of(packed), 1804);
    assert_eq!(score_of(packed), -250);
}

#[test]
fn ranking_is_by_falling_score_and_stable() {
    let items = vec![(1, 5), (2, 9), (3, 5), (4, -3), (5, 9), (6, 0)];
    assert_eq!(sort_by_score(&items), vec![(2, 9), (5, 9), (1, 5), (3, 5), (6, 0), (4, -3)]);
    assert_eq!(sort_by_score(&Vec::new()), Vec::new());
    assert_eq!(sort_by_score(&vec![(9, 1)]), vec![(9, 1)]);
    let flat = vec![(3, 0), (1, 0), (2, 0)];
    assert_eq!(sort_by_score(&flat), flat);
}

#[test]
fn search_tries_the_best_capture_first() {
    let b = place(
        Player::White,
        &[
            ("a1", Player::White, Piece::King),
            ("d4", Player::White, Piece::Pawn),
            ("d1", Player::White, Piece::Queen),
            ("e5", Player::Black, Piece::Queen),
            ("d8", Player::Black, Piece::Rook),
            ("h8", Player::Black, Piece::King),
        ],
    );
    let (m, _) = search(&b, 1, -CHECKMATE_SCORE, CHECKMATE_SCORE, true);
    assert_eq!(m, Some(mreq_new(square("d4"), square("e5"))));
}

#[test]
fn pick_move_counts_round_the_list() {
    let moves: Vec<MoveRequest> = vec![10, 20, 30];
    assert_eq!(pick_move(&moves, 0), 10);
    assert_eq!(pick_move(&moves, 1), 20);
    assert_eq!(pick_move(&moves, 2), 30);
    assert_eq!(pick_move(&moves, 3), 10);
    assert_eq!(pick_move(&moves, 1000), 20);
    assert_eq!(pick_move(&moves, usize::MAX), moves[usize::MAX % 3] as i64);
}

#[test]
fn random_bot_plays_a_legal_move() {
    let b = ChessBoard::new();
    let legal = b.possible_moves().moves;
    for _ in 0..50 {
        let packed = random_bot(&b);
        assert_eq!(score_of(packed), 0);
        assert!(legal.contains(&move_of(packed)));
    }
}

#[test]
fn random_bot_has_no_move_in_a_finished_game() {
    assert_eq!(random_bot(&stalemate()), 0);
    assert_eq!(random_bot(&fools_mate()), 0);
}

#[test]
fn mover_runs_its_selector() {
    let b = mate_in_one();
    let naive = SyncChessMover::new(NAIVE_BOT);
    assert_eq!(naive.make_move, ChessBot::Naive);
    assert_eq!(naive.sync_make_move(&b), naive_bot(&b));
    let random = SyncChessMover::new(RANDOM_BOT);
    assert_eq!(random.make_move, ChessBot::Random);
    let legal = b.possible_moves().moves;
    assert!(legal.contains(&move_of(random.sync_make_move(&b))));
}
