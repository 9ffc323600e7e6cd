use chess_core::{
    cell_from_u8, cell_to_u8, get_pos0, get_pos1, get_promote, mreq_new, mreq_new_with_promote,
    mres_get_capture, mres_get_castle, mres_get_en_passant, mres_get_prev_castle_right_bk,
    mres_get_prev_castle_right_bq, mres_get_prev_castle_right_wk, mres_get_prev_castle_right_wq,
    mres_new, mres_set_capture, mres_set_castle, mres_set_en_passant, mres_set_prev_castle_rights,
    mres_set_promote, piece_from_u8, Cell, Piece, Player, MOVES_CHECKED_LEADER,
    MOVES_UNCHECKED_LEADER,
};

const KINDS: [Piece; 6] =
    [Piece::Pawn, Piece::Rook, Piece::Knight, Piece::Bishop, Piece::Queen, Piece::King];

#[test]
fn empty_cell_encodes_as_zero() {
    assert_eq!(cell_to_u8(&Cell::Empty), 0);
    assert_eq!(cell_from_u8(0), Some(Cell::Empty));
}

#[test]
fn white_cells_encode_as_one_to_six() {
    for (i, kind) in KINDS.iter().enumerate() {
        assert_eq!(cell_to_u8(&Cell::Occupied(Player::White, *kind)), 1 + i as u8);
    }
}

#[test]
fn black_cells_encode_as_nine_to_fourteen() {
    for (i, kind) in KINDS.iter().enumerate() {
        assert_eq!(cell_to_u8(&Cell::Occupied(Player::Black, *kind)), 9 + i as u8);
    }
}

#[test]
fn cell_code_round_trips() {
    let mut cells = vec![Cell::Empty];
    for kind in KINDS.iter() {
        cells.push(Cell::Occupied(Player::White, *kind));
        cells.push(Cell::Occupied(Player::Black, *kind));
    }
    for cell in cells {
        assert_eq!(cell_from_u8(cell_to_u8(&cell)), Some(cell));
    }
}

#[test]
fn valid_codes_round_trip() {
    let mut seen = 0;
    for code in 0u8..=255 {
        if let Some(cell) = cell_from_u8(code) {
            assert_eq!(cell_to_u8(&cell), code);
            seen += 1;
        }
    }
    assert_eq!(seen, 13);
}

#[test]
fn codes_that_name_no_cell_are_rejected() {
    assert_eq!(cell_from_u8(7), None);
    assert_eq!(cell_from_u8(8), None);
    assert_eq!(cell_from_u8(15), None);
    assert_eq!(cell_from_u8(16), None);
    assert_eq!(cell_from_u8(17), None);
    assert_eq!(cell_from_u8(255), None);
}

#[test]
fn piece_numbers_map_to_kinds() {
    for (i, kind) in KINDS.iter().enumerate() {
        assert_eq!(piece_from_u8(i as u8), Some(*kind));
    }
    assert_eq!(piece_from_u8(6), None);
    assert_eq!(piece_from_u8(7), None);
    assert_eq!(piece_from_u8(200), None);
}

#[test]
fn opponent_swaps_sides() {
    assert_eq!(Player::White.opponent(), Player::Black);
    assert_eq!(Player::Black.opponent(), Player::White);
}

#[test]
fn leaders_are_zero_and_one() {
    assert_eq!(MOVES_UNCHECKED_LEADER, 0);
    assert_eq!(MOVES_CHECKED_LEADER, 1);
}

#[test]
fn request_packs_source_and_target() {
    assert_eq!(mreq_new(12, 28), 12 + (28 << 6));
    assert_eq!(mreq_new(12, 28), 1804);
    assert_eq!(mreq_new(0, 0), 0);
    assert_eq!(mreq_new(63, 63), 0x0fff);
    assert_eq!(mreq_new(1, 0), 1);
    assert_eq!(mreq_new(0, 1), 64);
}

#[test]
fn request_packs_promotion_above_the_squares() {
    let queen = Cell::Occupied(Player::White, Piece::Queen);
    assert_eq!(mreq_new_with_promote(52, 60, &queen), 52 + (60 << 6) + (5 << 12));
    let knight = Cell::Occupied(Player::Black, Piece::Knight);
    assert_eq!(mreq_new_with_promote(9, 1, &knight), 9 + (1 << 6) + (11 << 12));
    assert_eq!(mreq_new_with_promote(9, 1, &Cell::Empty), mreq_new(9, 1));
    let king = Cell::Occupied(Player::Black, Piece::King);
    assert_eq!(mreq_new_with_promote(63, 63, &king), 0xefff);
}

#[test]
fn request_fields_read_back() {
    for pos0 in 0..64usize {
        for pos1 in 0..64usize {
            let bishop = Cell::Occupied(Player::Black, Piece::Bishop);
            let m = mreq_new_with_promote(pos0, pos1, &bishop);
            let r = mres_new(m);
            assert_eq!(get_pos0(r), pos0);
            assert_eq!(get_pos1(r), pos1);
            assert_eq!(get_promote(r), Some(bishop));
        }
    }
}

#[test]
fn result_starts_as_the_request() {
    let m = mreq_new(6, 21);
    let r = mres_new(m);
    assert_eq!(r, m as u32);
    assert_eq!(mres_get_capture(r), Some(Cell::Empty));
    assert!(!mres_get_en_passant(r));
    assert!(!mres_get_castle(r));
    assert!(!mres_get_prev_castle_right_wk(r));
    assert!(!mres_get_prev_castle_right_wq(r));
    assert!(!mres_get_prev_castle_right_bk(r));
    assert!(!mres_get_prev_castle_right_bq(r));
}

#[test]
fn result_fields_sit_at_their_bits() {
    let mut r = mres_new(mreq_new(1, 2));
    mres_set_capture(&mut r, &Cell::Occupied(Player::Black, Piece::Queen));
    assert_eq!(r, 1 + (2 << 6) + (13 << 16));
    mres_set_en_passant(&mut r);
    assert_eq!(r, 1 + (2 << 6) + (13 << 16) + 0x100000);
    mres_set_castle(&mut r);
    assert_eq!(r, 1 + (2 << 6) + (13 << 16) + 0x100000 + 0x200000);
    mres_set_promote(&mut r, &Cell::Occupied(Player::White, Piece::Rook));
    assert_eq!(r, 1 + (2 << 6) + (2 << 12) + (13 << 16) + 0x100000 + 0x200000);
    mres_set_prev_castle_rights(&mut r, true, false, true, false);
    assert_eq!(
        r,
        1 + (2 << 6) + (2 << 12) + (13 << 16) + 0x100000 + 0x200000 + 0x400000 + 0x1000000
    );
    mres_set_prev_castle_rights(&mut r, false, true, false, true);
    assert_eq!(
        r,
        1 + (2 << 6) + (2 << 12) + (13 << 16) + 0x100000 + 0x200000 + 0x800000 + 0x2000000
    );
}

#[test]
fn setting_a_field_twice_keeps_the_last() {
    let mut r = mres_new(mreq_new(10, 20));
    mres_set_capture(&mut r, &Cell::Occupied(Player::Black, Piece::King));
    mres_set_capture(&mut r, &Cell::Occupied(Player::White, Piece::Pawn));
    assert_eq!(mres_get_capture(r), Some(Cell::Occupied(Player::White, Piece::Pawn)));
    mres_set_promote(&mut r, &Cell::Occupied(Player::Black, Piece::Queen));
    mres_set_promote(&mut r, &Cell::Empty);
    assert_eq!(get_promote(r), Some(Cell::Empty));
    assert_eq!(get_pos0(r), 10);
    assert_eq!(get_pos1(r), 20);
    assert_eq!(mres_get_capture(r), Some(Cell::Occupied(Player::White, Piece::Pawn)));
}

#[test]
fn each_prior_right_has_its_own_bit() {
    for bits in 0..16u32 {
        let wk = bits & 1 != 0;
        let wq = bits & 2 != 0;
        let bk = bits & 4 != 0;
        let bq = bits & 8 != 0;
        let mut r = mres_new(mreq_new(60, 62));
        mres_set_prev_castle_rights(&mut r, wk, wq, bk, bq);
        assert_eq!(mres_get_prev_castle_right_wk(r), wk);
        assert_eq!(mres_get_prev_castle_right_wq(r), wq);
        assert_eq!(mres_get_prev_castle_right_bk(r), bk);
        assert_eq!(mres_get_prev_castle_right_bq(r), bq);
        assert_eq!(r >> 22, bits);
        assert_eq!(get_pos0(r), 60);
        assert_eq!(get_pos1(r), 62);
    }
}

#[test]
fn flags_read_back() {
    assert!(mres_get_en_passant(0x100000));
    assert!(!mres_get_en_passant(!0x100000u32));
    assert!(mres_get_castle(0x200000));
    assert!(!mres_get_castle(!0x200000u32));
    assert!(mres_get_prev_castle_right_wk(0x400000));
    assert!(mres_get_prev_castle_right_wq(0x800000));
    assert!(mres_get_prev_castle_right_bk(0x1000000));
    assert!(mres_get_prev_castle_right_bq(0x2000000));
    assert!(!mres_get_prev_castle_right_bq(0x1000000));
}

#[test]
fn capture_codes_that_name_no_cell_are_rejected() {
    assert_eq!(mres_get_capture(7 << 16), None);
    assert_eq!(mres_get_capture(8 << 16), None);
    assert_eq!(mres_get_capture(15 << 16), None);
    assert_eq!(get_promote(15 << 12), None);
    assert_eq!(mres_get_capture(14 << 16), Some(Cell::Occupied(Player::Black, Piece::King)));
}
