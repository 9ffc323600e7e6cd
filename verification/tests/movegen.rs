use chess_core::{
    get_pos0, get_pos1, get_promote, mreq_new, mreq_new_with_promote, mres_new, Cell, ChessBoard,
    IllegalMove, MoveRequest, Piece, Player,
};

fn cell(side: Player, kind: Piece) -> Cell {
    Cell::Occupied(side, kind)
}

fn bare(player: Player) -> ChessBoard {
    ChessBoard {
        board: [Cell::Empty; 64],
        player,
        castle_rights: [false, false, false, false],
        en_passant: None,
        half_move: 0,
        full_move: 1,
    }
}

fn square(name: &str) -> usize {
    let bytes = name.as_bytes();
    (bytes[1] - b'1') as usize * 8 + (bytes[0] - b'a') as usize
}

fn from_fen(fen: &str) -> ChessBoard {
    let parts: Vec<&str> = fen.split(' ').collect();
    let mut b = bare(if parts[1] == "w" { Player::White } else { Player::Black });
    let mut rank = 7usize;
    let mut file = 0usize;
    for ch in parts[0].chars() {
        if ch == '/' {
            rank -= 1;
            file = 0;
        } else if ch.is_ascii_digit() {
            file += ch as usize - '0' as usize;
        } else {
            let side = if ch.is_ascii_uppercase() { Player::White } else { Player::Black };
            let kind = match ch.to_ascii_lowercase() {
                'p' => Piece::Pawn,
                'r' => Piece::Rook,
                'n' => Piece::Knight,
                'b' => Piece::Bishop,
                'q' => Piece::Queen,
                _ => Piece::King,
            };
            b.board[rank * 8 + file] = cell(side, kind);
            file += 1;
        }
    }
    b.castle_rights = [
        parts[2].contains('K'),
        parts[2].contains('Q'),
        parts[2].contains('k'),
        parts[2].contains('q'),
    ];
    if parts[3] != "-" {
        b.en_passant = Some(square(parts[3]));
    }
    b
}

fn perft(board: &ChessBoard, depth: usize) -> u64 {
    let list = board.possible_moves();
    if depth == 1 {
        return list.moves.len() as u64;
    }
    let mut nodes = 0;
    for m in list.moves {
        let mut next = *board;
        next.do_move(m);
        nodes += perft(&next, depth - 1);
    }
    nodes
}

fn play(board: &mut ChessBoard, from: &str, to: &str) {
    let m = mreq_new(square(from), square(to));
    assert!(board.possible_moves().moves.contains(&m), "{}{} is not legal", from, to);
    board.do_move(m);
}

fn same_position(a: &ChessBoard, b: &ChessBoard) -> bool {
    a.board == b.board
        && a.player == b.player
        && a.castle_rights == b.castle_rights
        && a.en_passant == b.en_passant
}

fn king_square(board: &ChessBoard, side: Player) -> Option<usize> {
    (0..64).find(|sq| board.board[*sq] == cell(side, Piece::King))
}

/// Walks every line of play to the given depth and checks, for each legal
/// move, that the mover's king is safe afterwards and that undoing the move
/// restores the position.
fn walk(board: &ChessBoard, depth: usize) {
    let list = board.possible_moves();
    let mover = board.player;
    let in_check = board.get_attacking_range(mover.opponent()).1;
    assert_eq!(list.in_check, in_check);
    for m in list.moves {
        let mut next = *board;
        let r = next.do_move(m);
        let (range, hit) = next.get_attacking_range(mover.opponent());
        assert!(!hit);
        if let Some(k) = king_square(&next, mover) {
            assert_eq!((range >> k) & 1, 0);
        }
        let mut back = next;
        back.undo_move(r);
        assert_eq!(back.board, board.board);
        assert_eq!(back.player, board.player);
        assert_eq!(back.castle_rights, board.castle_rights);
        let r0 = mres_new(m);
        let pawn = board.board[get_pos0(r0)] == cell(mover, Piece::Pawn);
        if pawn && board.en_passant == Some(get_pos1(r0)) {
            assert_eq!(back.en_passant, board.en_passant);
        } else {
            assert_eq!(back.en_passant, None);
        }
        if depth > 1 {
            walk(&next, depth - 1);
        }
    }
}

const KIWIPETE: &str = "r3k2r/p1ppqpb1/bn2pnp1/3PN3/1p2P3/2N2Q1p/PPPBBPPP/R3K2R w KQkq - 0 1";
const ROOK_ENDING: &str = "8/2p5/3p4/KP5r/1R3p1k/8/4P1P1/8 w - - 0 1";
const MIRRORED_A: &str = "r3k2r/Pppp1ppp/1b3nbN/nP6/BBP1P3/q4N2/Pp1P2PP/R2Q1RK1 w kq - 0 1";
const MIRRORED_B: &str = "r2q1rk1/pP1p2pp/Q4n2/bbp1p3/Np6/1B3NBn/pPPP1PPP/R3K2R b KQ - 0 1";
const TRICKY: &str = "rnbq1k1r/pp1Pbppp/2p5/8/2B5/8/PPP1NnPP/RNBQK2R w KQ - 1 8";
const SYMMETRIC: &str = "r4rk1/1pp1qppp/p1np1n2/2b1p1B1/2B1P1b1/P1NP1N2/1PP1QPPP/R4RK1 w - - 0 10";

#[test]
fn start_has_twenty_moves_and_no_check() {
    let list = ChessBoard::new().possible_moves();
    assert_eq!(list.moves.len(), 20);
    assert!(!list.in_check);
}

#[test]
fn start_moves_come_in_the_order_of_generation() {
    let list = ChessBoard::new().possible_moves();
    let expected: Vec<MoveRequest> = vec![
        mreq_new(1, 18),
        mreq_new(1, 16),
        mreq_new(6, 23),
        mreq_new(6, 21),
        mreq_new(8, 16),
        mreq_new(8, 24),
        mreq_new(9, 17),
        mreq_new(9, 25),
        mreq_new(10, 18),
        mreq_new(10, 26),
        mreq_new(11, 19),
        mreq_new(11, 27),
        mreq_new(12, 20),
        mreq_new(12, 28),
        mreq_new(13, 21),
        mreq_new(13, 29),
        mreq_new(14, 22),
        mreq_new(14, 30),
        mreq_new(15, 23),
        mreq_new(15, 31),
    ];
    assert_eq!(list.moves, expected);
}

#[test]
fn perft_from_the_start() {
    let b = ChessBoard::new();
    assert_eq!(perft(&b, 1), 20);
    assert_eq!(perft(&b, 2), 400);
    assert_eq!(perft(&b, 3), 8902);
}

#[test]
fn perft_with_castles_and_pins() {
    let b = from_fen(KIWIPETE);
    assert_eq!(perft(&b, 1), 48);
    assert_eq!(perft(&b, 2), 2039);
}

#[test]
fn perft_with_en_passant_pins() {
    let b = from_fen(ROOK_ENDING);
    assert_eq!(perft(&b, 1), 14);
    assert_eq!(perft(&b, 2), 191);
    assert_eq!(perft(&b, 3), 2812);
}

#[test]
fn perft_with_promotions() {
    let b = from_fen(MIRRORED_A);
    assert_eq!(perft(&b, 1), 6);
    assert_eq!(perft(&b, 2), 264);
    assert_eq!(perft(&b, 3), 9467);
    let c = from_fen(MIRRORED_B);
    assert_eq!(perft(&c, 1), 6);
    assert_eq!(perft(&c, 2), 264);
    assert_eq!(perft(&c, 3), 9467);
}

#[test]
fn perft_of_further_positions() {
    let b = from_fen(TRICKY);
    assert_eq!(perft(&b, 1), 44);
    assert_eq!(perft(&b, 2), 1486);
    let c = from_fen(SYMMETRIC);
    assert_eq!(perft(&c, 1), 46);
    assert_eq!(perft(&c, 2), 2079);
}

#[test]
fn fools_mate_is_checkmate() {
    let mut b = ChessBoard::new();
    play(&mut b, "f2", "f3");
    play(&mut b, "e7", "e5");
    play(&mut b, "g2", "g4");
    play(&mut b, "d8", "h4");
    assert_eq!(b.player, Player::White);
    let list = b.possible_moves();
    assert_eq!(list.moves.len(), 0);
    assert!(list.in_check);
}

#[test]
fn cornered_king_is_stalemated() {
    let mut b = bare(Player::White);
    b.board[square("a1")] = cell(Player::White, Piece::King);
    b.board[square("a3")] = cell(Player::Black, Piece::King);
    b.board[square("b3")] = cell(Player::Black, Piece::Queen);
    let list = b.possible_moves();
    assert_eq!(list.moves.len(), 0);
    assert!(!list.in_check);
}

#[test]
fn legal_moves_keep_the_king_safe_and_undo_restores() {
    walk(&ChessBoard::new(), 2);
    walk(&from_fen(KIWIPETE), 2);
    walk(&from_fen(ROOK_ENDING), 3);
    walk(&from_fen(MIRRORED_A), 2);
    walk(&from_fen(MIRRORED_B), 2);
    walk(&from_fen(TRICKY), 2);
}

#[test]
fn attacking_range_of_the_start() {
    let b = ChessBoard::new();
    let (white, white_checks) = b.get_attacking_range(Player::White);
    assert_eq!(white, 0x0000_0000_00ff_0000);
    assert!(!white_checks);
    let (black, black_checks) = b.get_attacking_range(Player::Black);
    assert_eq!(black, 0x0000_ff00_0000_0000);
    assert!(!black_checks);
}

#[test]
fn rook_rays_stop_at_the_edges() {
    let mut b = bare(Player::White);
    b.board[square("a1")] = cell(Player::White, Piece::Rook);
    let (range, _) = b.get_attacking_range(Player::White);
    assert_eq!(range, 0x0101_0101_0101_01fe);
    let mut c = bare(Player::White);
    c.board[square("h8")] = cell(Player::White, Piece::Rook);
    let (range, _) = c.get_attacking_range(Player::White);
    assert_eq!(range, 0x7f80_8080_8080_8080);
    let mut d = bare(Player::White);
    d.board[square("h4")] = cell(Player::White, Piece::Rook);
    let (range, _) = d.get_attacking_range(Player::White);
    assert_eq!(range, 0x8080_8080_7f80_8080);
}

#[test]
fn rays_stop_before_friends_and_on_enemies() {
    let mut b = bare(Player::White);
    b.board[square("a1")] = cell(Player::White, Piece::Rook);
    b.board[square("a3")] = cell(Player::White, Piece::Knight);
    b.board[square("c1")] = cell(Player::Black, Piece::Knight);
    let mut reach = Vec::new();
    b.rook_move(0, Player::White, &mut reach);
    assert_eq!(reach, vec![1, 2, 8]);
}

#[test]
fn rook_squares_come_left_right_up_down() {
    let mut b = bare(Player::White);
    b.board[27] = cell(Player::White, Piece::Rook);
    let mut reach = Vec::new();
    b.rook_move(27, Player::White, &mut reach);
    assert_eq!(reach, vec![26, 25, 24, 28, 29, 30, 31, 35, 43, 51, 59, 19, 11, 3]);
}

#[test]
fn bishop_squares_come_diagonal_by_diagonal() {
    let b = bare(Player::White);
    let mut reach = Vec::new();
    b.bishop_move(9, Player::White, &mut reach);
    assert_eq!(reach, vec![0, 16, 18, 27, 36, 45, 54, 63, 2]);
    let mut corner = Vec::new();
    b.bishop_move(7, Player::White, &mut corner);
    assert_eq!(corner, vec![14, 21, 28, 35, 42, 49, 56]);
}

#[test]
fn knight_squares_stay_on_the_board() {
    let b = bare(Player::White);
    let mut reach = Vec::new();
    b.knight_move(0, Player::White, &mut reach);
    assert_eq!(reach, vec![17, 10]);
    let mut middle = Vec::new();
    b.knight_move(27, Player::White, &mut middle);
    assert_eq!(middle, vec![10, 17, 21, 12, 44, 37, 33, 42]);
    let mut edge = Vec::new();
    b.knight_move(39, Player::Black, &mut edge);
    assert_eq!(edge, vec![22, 29, 45, 54]);
}

#[test]
fn king_squares_stay_on_the_board() {
    let mut b = bare(Player::White);
    b.board[9] = cell(Player::White, Piece::Pawn);
    b.board[1] = cell(Player::Black, Piece::Pawn);
    let mut reach = Vec::new();
    b.king_ordinary_move(0, Player::White, &mut reach);
    assert_eq!(reach, vec![1, 8]);
    let mut middle = Vec::new();
    b.king_ordinary_move(27, Player::White, &mut middle);
    assert_eq!(middle, vec![18, 19, 20, 26, 28, 34, 35, 36]);
    let mut edge = Vec::new();
    b.king_ordinary_move(63, Player::White, &mut edge);
    assert_eq!(edge, vec![54, 55, 62]);
}

#[test]
fn pawns_attack_diagonally_only() {
    let mut b = bare(Player::White);
    b.board[square("e4")] = cell(Player::White, Piece::Pawn);
    b.board[square("a2")] = cell(Player::White, Piece::Pawn);
    b.board[square("h7")] = cell(Player::Black, Piece::Pawn);
    let (white, _) = b.get_attacking_range(Player::White);
    assert_eq!(white, (1 << square("d5")) | (1 << square("f5")) | (1 << square("b3")));
    let (black, _) = b.get_attacking_range(Player::Black);
    assert_eq!(black, 1 << square("g6"));
}

#[test]
fn attacking_range_flags_a_checked_king() {
    let mut b = bare(Player::Black);
    b.board[square("e1")] = cell(Player::White, Piece::Rook);
    b.board[square("e8")] = cell(Player::Black, Piece::King);
    assert!(b.get_attacking_range(Player::White).1);
    assert!(b.possible_moves().in_check);
    b.board[square("e5")] = cell(Player::Black, Piece::Pawn);
    assert!(!b.get_attacking_range(Player::White).1);
    assert!(!b.possible_moves().in_check);
}

#[test]
fn promotion_gives_four_moves_in_order() {
    let mut b = bare(Player::White);
    b.board[square("a7")] = cell(Player::White, Piece::Pawn);
    b.board[square("e1")] = cell(Player::White, Piece::King);
    b.board[square("e8")] = cell(Player::Black, Piece::King);
    let list = b.possible_moves();
    let from = square("a7");
    let to = square("a8");
    let promotions: Vec<MoveRequest> = list
        .moves
        .iter()
        .copied()
        .filter(|m| get_pos0(mres_new(*m)) == from)
        .collect();
    assert_eq!(
        promotions,
        vec![
            mreq_new_with_promote(from, to, &cell(Player::White, Piece::Queen)),
            mreq_new_with_promote(from, to, &cell(Player::White, Piece::Rook)),
            mreq_new_with_promote(from, to, &cell(Player::White, Piece::Bishop)),
            mreq_new_with_promote(from, to, &cell(Player::White, Piece::Knight)),
        ]
    );
}

#[test]
fn black_promotion_names_black_pieces() {
    let mut b = bare(Player::Black);
    b.board[square("h2")] = cell(Player::Black, Piece::Pawn);
    b.board[square("g1")] = cell(Player::White, Piece::Knight);
    b.board[square("a1")] = cell(Player::White, Piece::King);
    b.board[square("a8")] = cell(Player::Black, Piece::King);
    let list = b.possible_moves();
    let pawn: Vec<MoveRequest> = list
        .moves
        .iter()
        .copied()
        .filter(|m| get_pos0(mres_new(*m)) == square("h2"))
        .collect();
    assert_eq!(pawn.len(), 8);
    for m in pawn {
        match get_promote(mres_new(m)) {
            Some(Cell::Occupied(Player::Black, kind)) => assert!(kind != Piece::Pawn && kind != Piece::King),
            other => panic!("unexpected promotion {:?}", other),
        }
    }
}

#[test]
fn double_step_needs_both_squares_empty() {
    let mut b = ChessBoard::new();
    b.board[square("e3")] = cell(Player::Black, Piece::Knight);
    let list = b.possible_moves();
    assert!(!list.moves.contains(&mreq_new(square("e2"), square("e3"))));
    assert!(!list.moves.contains(&mreq_new(square("e2"), square("e4"))));
    let mut c = ChessBoard::new();
    c.board[square("e4")] = cell(Player::Black, Piece::Knight);
    let list = c.possible_moves();
    assert!(list.moves.contains(&mreq_new(square("e2"), square("e3"))));
    assert!(!list.moves.contains(&mreq_new(square("e2"), square("e4"))));
}

#[test]
fn en_passant_is_offered_once() {
    let mut b = ChessBoard::new();
    play(&mut b, "e2", "e4");
    play(&mut b, "a7", "a6");
    play(&mut b, "e4", "e5");
    play(&mut b, "d7", "d5");
    let capture = mreq_new(square("e5"), square("d6"));
    assert!(b.possible_moves().moves.contains(&capture));
    play(&mut b, "a2", "a3");
    play(&mut b, "a6", "a5");
    assert!(!b.possible_moves().moves.contains(&capture));
}

#[test]
fn pawn_does_not_capture_across_the_edge() {
    let mut b = bare(Player::White);
    b.board[square("h4")] = cell(Player::White, Piece::Pawn);
    b.board[square("a6")] = cell(Player::Black, Piece::Rook);
    b.board[square("a5")] = cell(Player::Black, Piece::Rook);
    b.board[square("e1")] = cell(Player::White, Piece::King);
    b.board[square("e8")] = cell(Player::Black, Piece::King);
    let list = b.possible_moves();
    let pawn: Vec<MoveRequest> = list
        .moves
        .iter()
        .copied()
        .filter(|m| get_pos0(mres_new(*m)) == square("h4"))
        .collect();
    assert_eq!(pawn, vec![mreq_new(square("h4"), square("h5"))]);
}

fn castle_ready(player: Player) -> ChessBoard {
    let mut b = bare(player);
    b.castle_rights = [true, true, true, true];
    b.board[4] = cell(Player::White, Piece::King);
    b.board[0] = cell(Player::White, Piece::Rook);
    b.board[7] = cell(Player::White, Piece::Rook);
    b.board[60] = cell(Player::Black, Piece::King);
    b.board[56] = cell(Player::Black, Piece::Rook);
    b.board[63] = cell(Player::Black, Piece::Rook);
    b
}

#[test]
fn castles_are_offered_when_the_way_is_clear() {
    let w = castle_ready(Player::White).possible_moves();
    assert!(w.moves.contains(&mreq_new(4, 6)));
    assert!(w.moves.contains(&mreq_new(4, 2)));
    let b = castle_ready(Player::Black).possible_moves();
    assert!(b.moves.contains(&mreq_new(60, 62)));
    assert!(b.moves.contains(&mreq_new(60, 58)));
}

#[test]
fn castle_needs_the_right() {
    let mut b = castle_ready(Player::White);
    b.castle_rights = [false, true, true, true];
    let list = b.possible_moves();
    assert!(!list.moves.contains(&mreq_new(4, 6)));
    assert!(list.moves.contains(&mreq_new(4, 2)));
}

#[test]
fn castle_needs_empty_squares_between() {
    let mut b = castle_ready(Player::White);
    b.board[1] = cell(Player::White, Piece::Knight);
    b.board[5] = cell(Player::White, Piece::Bishop);
    let list = b.possible_moves();
    assert!(!list.moves.contains(&mreq_new(4, 6)));
    assert!(!list.moves.contains(&mreq_new(4, 2)));
}

#[test]
fn castle_is_refused_through_an_attacked_square() {
    let mut b = castle_ready(Player::White);
    b.board[square("f8")] = cell(Player::Black, Piece::Queen);
    let list = b.possible_moves();
    assert!(!list.moves.contains(&mreq_new(4, 6)));
    assert!(list.moves.contains(&mreq_new(4, 2)));
    let mut c = castle_ready(Player::White);
    c.board[square("e5")] = cell(Player::Black, Piece::Queen);
    let list = c.possible_moves();
    assert!(list.in_check);
    assert!(!list.moves.contains(&mreq_new(4, 6)));
    assert!(!list.moves.contains(&mreq_new(4, 2)));
}

#[test]
fn queen_side_castle_may_pass_an_attacked_knight_square() {
    let mut b = castle_ready(Player::White);
    b.board[square("b5")] = cell(Player::Black, Piece::Rook);
    b.board[56] = Cell::Empty;
    b.castle_rights = [true, true, true, false];
    let list = b.possible_moves();
    assert!(list.moves.contains(&mreq_new(4, 2)));
}

#[test]
fn pinned_piece_may_not_leave_its_line() {
    let mut b = bare(Player::White);
    b.board[square("e1")] = cell(Player::White, Piece::King);
    b.board[square("e2")] = cell(Player::White, Piece::Knight);
    b.board[square("e8")] = cell(Player::Black, Piece::Rook);
    b.board[square("a8")] = cell(Player::Black, Piece::King);
    let list = b.possible_moves();
    assert!(list.moves.iter().all(|m| get_pos0(mres_new(*m)) != square("e2")));
    assert_eq!(list.moves.len(), 4);
}

#[test]
fn exposes_king_tells_of_a_pin() {
    let mut b = bare(Player::White);
    b.board[square("e1")] = cell(Player::White, Piece::King);
    b.board[square("e2")] = cell(Player::White, Piece::Rook);
    b.board[square("e8")] = cell(Player::Black, Piece::Rook);
    b.board[square("a8")] = cell(Player::Black, Piece::King);
    assert!(b.exposes_king(mreq_new(square("e2"), square("a2"))));
    assert!(!b.exposes_king(mreq_new(square("e2"), square("e5"))));
    assert!(!b.exposes_king(mreq_new(square("e2"), square("e8"))));
}

#[test]
fn check_must_be_answered() {
    let mut b = bare(Player::White);
    b.board[square("e1")] = cell(Player::White, Piece::King);
    b.board[square("a2")] = cell(Player::White, Piece::Rook);
    b.board[square("e8")] = cell(Player::Black, Piece::Rook);
    b.board[square("h8")] = cell(Player::Black, Piece::King);
    let list = b.possible_moves();
    assert!(list.in_check);
    let mut expected = vec![
        mreq_new(square("e1"), square("d1")),
        mreq_new(square("e1"), square("f1")),
        mreq_new(square("e1"), square("d2")),
        mreq_new(square("e1"), square("f2")),
        mreq_new(square("a2"), square("e2")),
    ];
    let mut got = list.moves.clone();
    expected.sort();
    got.sort();
    assert_eq!(got, expected);
}

#[test]
fn piece_reach_joins_rook_and_bishop_for_the_queen() {
    let mut b = bare(Player::White);
    b.board[0] = cell(Player::White, Piece::Queen);
    let reach = b.piece_reach(0, Player::White, Piece::Queen);
    assert_eq!(
        reach,
        vec![1, 2, 3, 4, 5, 6, 7, 8, 16, 24, 32, 40, 48, 56, 9, 18, 27, 36, 45, 54, 63]
    );
    assert_eq!(b.piece_reach(12, Player::White, Piece::Pawn), vec![19, 21]);
    assert_eq!(b.piece_reach(48, Player::Black, Piece::Pawn), vec![41]);
    assert_eq!(b.piece_reach(60, Player::White, Piece::Pawn), Vec::<usize>::new());
    assert_eq!(b.piece_reach(3, Player::Black, Piece::Pawn), Vec::<usize>::new());
}

#[test]
fn try_move_refuses_what_is_not_legal() {
    let mut b = ChessBoard::new();
    let before = b;
    let too_far = mreq_new(square("e2"), square("e5"));
    assert_eq!(b.try_move(too_far), Err(IllegalMove { request: too_far }));
    let not_to_move = mreq_new(square("e7"), square("e5"));
    assert_eq!(b.try_move(not_to_move), Err(IllegalMove { request: not_to_move }));
    let from_nothing = mreq_new(square("e3"), square("e4"));
    assert_eq!(b.try_move(from_nothing), Err(IllegalMove { request: from_nothing }));
    let stray_promotion = mreq_new_with_promote(
        square("e2"),
        square("e4"),
        &cell(Player::White, Piece::Queen),
    );
    assert_eq!(b.try_move(stray_promotion), Err(IllegalMove { request: stray_promotion }));
    assert_eq!(b.try_move(0), Err(IllegalMove { request: 0 }));
    assert_eq!(b.try_move(1), Err(IllegalMove { request: 1 }));
    assert!(same_position(&b, &before));
    assert_eq!((b.half_move, b.full_move), (0, 1));
}

#[test]
fn try_move_carries_out_what_is_legal() {
    let mut b = ChessBoard::new();
    let mut c = b;
    let m = mreq_new(square("g1"), square("f3"));
    let done = b.try_move(m);
    assert_eq!(done, Ok(c.do_move(m)));
    assert!(same_position(&b, &c));
    assert_eq!((b.half_move, b.full_move), (1, 1));
}

#[test]
fn try_move_refuses_to_expose_the_king() {
    let mut b = bare(Player::White);
    b.board[square("e1")] = cell(Player::White, Piece::King);
    b.board[square("e2")] = cell(Player::White, Piece::Rook);
    b.board[square("e8")] = cell(Player::Black, Piece::Rook);
    b.board[square("a8")] = cell(Player::Black, Piece::King);
    let aside = mreq_new(square("e2"), square("a2"));
    assert_eq!(b.try_move(aside), Err(IllegalMove { request: aside }));
    assert!(b.try_move(mreq_new(square("e2"), square("e8"))).is_ok());
}
