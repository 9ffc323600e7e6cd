use chess_core::{
    get_pos0, get_pos1, mreq_new, mreq_new_with_promote, mres_get_capture, mres_get_castle,
    mres_get_en_passant, mres_get_prev_castle_right_bk, mres_get_prev_castle_right_bq,
    mres_get_prev_castle_right_wk, mres_get_prev_castle_right_wq, Cell, ChessBoard, Piece, Player,
};

fn cell(side: Player, kind: Piece) -> Cell {
    Cell::Occupied(side, kind)
}

fn bare(player: Player) -> ChessBoard {
    ChessBoard {
        board: [Cell::Empty; 64],
        player,
        castle_rights: [false, false, false, false],
        en_passant: None,
        half_move: 0,
        full_move: 1,
    }
}

fn same_position(a: &ChessBoard, b: &ChessBoard) -> bool {
    a.board == b.board
        && a.player == b.player
        && a.castle_rights == b.castle_rights
        && a.en_passant == b.en_passant
}

#[test]
fn new_board_is_the_standard_start() {
    let b = ChessBoard::new();
    let back = [
        Piece::Rook,
        Piece::Knight,
        Piece::Bishop,
        Piece::Queen,
        Piece::King,
        Piece::Bishop,
        Piece::Knight,
        Piece::Rook,
    ];
    for file in 0..8 {
        assert_eq!(b.board[file], cell(Player::White, back[file]));
        assert_eq!(b.board[8 + file], cell(Player::White, Piece::Pawn));
        assert_eq!(b.board[48 + file], cell(Player::Black, Piece::Pawn));
        assert_eq!(b.board[56 + file], cell(Player::Black, back[file]));
    }
    for sq in 16..48 {
        assert_eq!(b.board[sq], Cell::Empty);
    }
    assert_eq!(b.player, Player::White);
    assert_eq!(b.castle_rights, [true, true, true, true]);
    assert_eq!(b.en_passant, None);
    assert_eq!(b.half_move, 0);
    assert_eq!(b.full_move, 1);
}

#[test]
fn start_serializes_to_36_bytes() {
    let bytes = ChessBoard::new().serialize();
    let expected: [u8; 36] = [
        0x32, 0x54, 0x46, 0x23, 0x11, 0x11, 0x11, 0x11, 0, 0, 0, 0, 0, 0, 0, 0, 0, 0, 0, 0, 0, 0,
        0, 0, 0x99, 0x99, 0x99, 0x99, 0xba, 0xdc, 0xce, 0xab, 0x1e, 0x00, 0x01, 0x00,
    ];
    assert_eq!(bytes, expected);
}

#[test]
fn serialize_packs_turn_rights_and_en_passant() {
    let mut b = bare(Player::Black);
    b.castle_rights = [true, false, false, true];
    b.en_passant = Some(21);
    b.half_move = 5;
    b.full_move = 0x1234;
    let bytes = b.serialize();
    assert_eq!(bytes[32], 1 | (1 << 1) | (1 << 4) | (5 << 5));
    assert_eq!(bytes[33], 5 | 0x80);
    assert_eq!(bytes[34], 0x34);
    assert_eq!(bytes[35], 0x12);
    for i in 0..32 {
        assert_eq!(bytes[i], 0);
    }
}

#[test]
fn serialize_keeps_seven_bits_of_the_half_move_clock() {
    let mut b = bare(Player::White);
    b.half_move = 130;
    b.full_move = 0x1_0203;
    let bytes = b.serialize();
    assert_eq!(bytes[32], 0);
    assert_eq!(bytes[33], 2);
    assert_eq!(bytes[34], 0x03);
    assert_eq!(bytes[35], 0x02);
}

#[test]
fn serialize_puts_the_lower_square_in_the_low_nibble() {
    let mut b = bare(Player::White);
    b.board[10] = cell(Player::White, Piece::King);
    b.board[11] = cell(Player::Black, Piece::Pawn);
    let bytes = b.serialize();
    assert_eq!(bytes[5], 6 | (9 << 4));
}

#[test]
fn plain_move_relocates_and_flips_the_side() {
    let mut b = ChessBoard::new();
    let r = b.do_move(mreq_new(6, 21));
    assert_eq!(b.board[6], Cell::Empty);
    assert_eq!(b.board[21], cell(Player::White, Piece::Knight));
    assert_eq!(b.player, Player::Black);
    assert_eq!(b.en_passant, None);
    assert_eq!(b.half_move, 1);
    assert_eq!(b.full_move, 1);
    assert_eq!(b.castle_rights, [true, true, true, true]);
    assert_eq!(get_pos0(r), 6);
    assert_eq!(get_pos1(r), 21);
    assert_eq!(mres_get_capture(r), Some(Cell::Empty));
    assert!(!mres_get_castle(r));
    assert!(!mres_get_en_passant(r));
    assert!(mres_get_prev_castle_right_wk(r));
    assert!(mres_get_prev_castle_right_wq(r));
    assert!(mres_get_prev_castle_right_bk(r));
    assert!(mres_get_prev_castle_right_bq(r));
}

#[test]
fn counters_follow_the_moves() {
    let mut b = ChessBoard::new();
    b.do_move(mreq_new(6, 21));
    b.do_move(mreq_new(62, 45));
    assert_eq!(b.half_move, 2);
    assert_eq!(b.full_move, 2);
    b.do_move(mreq_new(12, 28));
    assert_eq!(b.half_move, 0);
    assert_eq!(b.full_move, 2);
    b.do_move(mreq_new(45, 28));
    assert_eq!(b.half_move, 0);
    assert_eq!(b.full_move, 3);
    b.do_move(mreq_new(21, 38));
    assert_eq!(b.half_move, 1);
}

#[test]
fn double_step_sets_the_en_passant_target() {
    let mut b = ChessBoard::new();
    b.do_move(mreq_new(12, 28));
    assert_eq!(b.en_passant, Some(20));
    b.do_move(mreq_new(51, 35));
    assert_eq!(b.en_passant, Some(43));
    b.do_move(mreq_new(28, 36));
    assert_eq!(b.en_passant, None);
    b.do_move(mreq_new(48, 40));
    assert_eq!(b.en_passant, None);
}

#[test]
fn en_passant_capture_removes_the_passed_pawn() {
    let mut b = ChessBoard::new();
    b.do_move(mreq_new(12, 28));
    b.do_move(mreq_new(48, 40));
    b.do_move(mreq_new(28, 36));
    b.do_move(mreq_new(51, 35));
    assert_eq!(b.en_passant, Some(43));
    let before = b;
    let r = b.do_move(mreq_new(36, 43));
    assert!(mres_get_en_passant(r));
    assert_eq!(mres_get_capture(r), Some(cell(Player::Black, Piece::Pawn)));
    assert_eq!(b.board[35], Cell::Empty);
    assert_eq!(b.board[36], Cell::Empty);
    assert_eq!(b.board[43], cell(Player::White, Piece::Pawn));
    assert_eq!(b.half_move, 0);
    b.undo_move(r);
    assert!(same_position(&b, &before));
    assert_eq!(b.en_passant, Some(43));
}

#[test]
fn capture_is_recorded_and_undone() {
    let mut b = ChessBoard::new();
    b.do_move(mreq_new(12, 28));
    b.do_move(mreq_new(51, 35));
    let mut before = b;
    let r = b.do_move(mreq_new(28, 35));
    assert_eq!(mres_get_capture(r), Some(cell(Player::Black, Piece::Pawn)));
    assert!(!mres_get_en_passant(r));
    assert_eq!(b.board[35], cell(Player::White, Piece::Pawn));
    assert_eq!(b.half_move, 0);
    b.undo_move(r);
    before.en_passant = None;
    assert!(same_position(&b, &before));
}

#[test]
fn promotion_lands_as_the_named_piece_and_undoes_to_a_pawn() {
    let mut b = bare(Player::White);
    b.board[4] = cell(Player::White, Piece::King);
    b.board[60] = cell(Player::Black, Piece::King);
    b.board[48] = cell(Player::White, Piece::Pawn);
    b.board[57] = cell(Player::Black, Piece::Knight);
    let before = b;
    let rook = cell(Player::White, Piece::Rook);
    let r = b.do_move(mreq_new_with_promote(48, 57, &rook));
    assert_eq!(b.board[57], rook);
    assert_eq!(b.board[48], Cell::Empty);
    assert_eq!(mres_get_capture(r), Some(cell(Player::Black, Piece::Knight)));
    b.undo_move(r);
    assert!(same_position(&b, &before));
}

#[test]
fn black_promotes_on_the_first_rank() {
    let mut b = bare(Player::Black);
    b.board[4] = cell(Player::White, Piece::King);
    b.board[60] = cell(Player::Black, Piece::King);
    b.board[9] = cell(Player::Black, Piece::Pawn);
    let before = b;
    let queen = cell(Player::Black, Piece::Queen);
    let r = b.do_move(mreq_new_with_promote(9, 1, &queen));
    assert_eq!(b.board[1], queen);
    assert_eq!(b.full_move, 2);
    b.undo_move(r);
    assert!(same_position(&b, &before));
}

fn castle_ready() -> ChessBoard {
    let mut b = bare(Player::White);
    b.castle_rights = [true, true, true, true];
    b.board[4] = cell(Player::White, Piece::King);
    b.board[0] = cell(Player::White, Piece::Rook);
    b.board[7] = cell(Player::White, Piece::Rook);
    b.board[60] = cell(Player::Black, Piece::King);
    b.board[56] = cell(Player::Black, Piece::Rook);
    b.board[63] = cell(Player::Black, Piece::Rook);
    b
}

#[test]
fn white_king_side_castle_moves_the_rook() {
    let mut b = castle_ready();
    let before = b;
    let r = b.do_move(mreq_new(4, 6));
    assert!(mres_get_castle(r));
    assert_eq!(b.board[6], cell(Player::White, Piece::King));
    assert_eq!(b.board[5], cell(Player::White, Piece::Rook));
    assert_eq!(b.board[7], Cell::Empty);
    assert_eq!(b.board[4], Cell::Empty);
    assert_eq!(b.castle_rights, [false, false, true, true]);
    b.undo_move(r);
    assert!(same_position(&b, &before));
}

#[test]
fn white_queen_side_castle_moves_the_rook() {
    let mut b = castle_ready();
    let before = b;
    let r = b.do_move(mreq_new(4, 2));
    assert!(mres_get_castle(r));
    assert_eq!(b.board[2], cell(Player::White, Piece::King));
    assert_eq!(b.board[3], cell(Player::White, Piece::Rook));
    assert_eq!(b.board[0], Cell::Empty);
    assert_eq!(b.castle_rights, [false, false, true, true]);
    b.undo_move(r);
    assert!(same_position(&b, &before));
}

#[test]
fn black_king_side_castle_moves_the_rook() {
    let mut b = castle_ready();
    b.player = Player::Black;
    let before = b;
    let r = b.do_move(mreq_new(60, 62));
    assert!(mres_get_castle(r));
    assert_eq!(b.board[62], cell(Player::Black, Piece::King));
    assert_eq!(b.board[61], cell(Player::Black, Piece::Rook));
    assert_eq!(b.board[63], Cell::Empty);
    assert_eq!(b.castle_rights, [true, true, false, false]);
    b.undo_move(r);
    assert!(same_position(&b, &before));
}

#[test]
fn black_queen_side_castle_clears_blacks_rights_only() {
    let mut b = castle_ready();
    b.player = Player::Black;
    let before = b;
    let r = b.do_move(mreq_new(60, 58));
    assert!(mres_get_castle(r));
    assert_eq!(b.board[58], cell(Player::Black, Piece::King));
    assert_eq!(b.board[59], cell(Player::Black, Piece::Rook));
    assert_eq!(b.board[56], Cell::Empty);
    assert_eq!(b.castle_rights, [true, true, false, false]);
    b.undo_move(r);
    assert!(same_position(&b, &before));
}

#[test]
fn rook_move_ends_one_right() {
    let mut b = castle_ready();
    b.do_move(mreq_new(7, 15));
    assert_eq!(b.castle_rights, [false, true, true, true]);
    b.do_move(mreq_new(56, 57));
    assert_eq!(b.castle_rights, [false, true, true, false]);
}

#[test]
fn capturing_a_rook_on_its_corner_ends_the_right() {
    let mut b = castle_ready();
    b.board[7] = Cell::Empty;
    b.castle_rights = [false, true, true, true];
    b.board[15] = cell(Player::White, Piece::Rook);
    b.board[55] = Cell::Empty;
    b.do_move(mreq_new(15, 63));
    assert_eq!(b.castle_rights, [false, true, false, true]);
}

#[test]
fn king_move_ends_both_rights() {
    let mut b = castle_ready();
    let r = b.do_move(mreq_new(4, 12));
    assert!(!mres_get_castle(r));
    assert_eq!(b.castle_rights, [false, false, true, true]);
}

#[test]
fn undo_restores_the_rights_from_the_result() {
    let mut b = castle_ready();
    let before = b;
    let r = b.do_move(mreq_new(4, 12));
    b.undo_move(r);
    assert!(same_position(&b, &before));
}

#[test]
fn undo_leaves_the_counters() {
    let mut b = ChessBoard::new();
    b.do_move(mreq_new(6, 21));
    let r = b.do_move(mreq_new(62, 45));
    assert_eq!((b.half_move, b.full_move), (2, 2));
    b.undo_move(r);
    assert_eq!((b.half_move, b.full_move), (2, 2));
    assert_eq!(b.player, Player::Black);
}

#[test]
fn relocate_leaves_the_counters() {
    let mut b = ChessBoard::new();
    let mut c = b;
    let r1 = b.relocate(mreq_new(12, 28));
    let r2 = c.do_move(mreq_new(12, 28));
    assert_eq!(r1, r2);
    assert_eq!((b.half_move, b.full_move), (0, 1));
    assert!(same_position(&b, &c));
    let mut d = b;
    d.relocate(mreq_new(57, 42));
    assert_eq!((d.half_move, d.full_move), (0, 1));
    assert_eq!(d.player, Player::White);
}
