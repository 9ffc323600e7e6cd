//! Packing and unpacking of move requests and move results.
//!
//! A request is sixteen bits: source square (6), target square (6) and the
//! promotion cell (4).  A result extends it to thirty-two bits with the
//! captured cell (4), an en-passant flag, a castle flag and the four
//! castling rights as they stood before the move.

use vstd::prelude::*;
use crate::pieces::{cell_code, cell_from_u8, cell_of_code, cell_to_u8, code_is_valid, Cell};

verus! {

/// A move as asked for: source, target and promotion cell.
pub type MoveRequest = u16;

/// A move as carried out: the request and what is needed to take it back.
pub type MoveResult = u32;

/// Leads a move sequence whose mover is not in check; never a real request.
pub const MOVES_UNCHECKED_LEADER: MoveRequest = 0;

/// Leads a move sequence whose mover is in check; never a real request.
pub const MOVES_CHECKED_LEADER: MoveRequest = 1;

/// The bits of the source square.
pub const POS_0_FLAG: u32 = 0x3f;

/// The bits of the target square.
pub const POS_1_FLAG: u32 = 0xfc0;

/// The bits of the promotion cell.
pub const PROMOTE_FLAG: u32 = 0xf000;

/// The bits of the captured cell.
pub const CAPTURE_FLAG: u32 = 0xf0000;

/// The bit that marks an en-passant capture.
pub const EN_PASSANT_FLAG: u32 = 0x100000;

/// The bit that marks a castle.
pub const CASTLE_FLAG: u32 = 0x200000;

/// The bit of White's king-side right before the move.
pub const PREV_CASTLE_RIGHT_WK: u32 = 0x400000;

/// The bit of White's queen-side right before the move.
pub const PREV_CASTLE_RIGHT_WQ: u32 = 0x800000;

/// The bit of Black's king-side right before the move.
pub const PREV_CASTLE_RIGHT_BK: u32 = 0x1000000;

/// The bit of Black's queen-side right before the move.
pub const PREV_CASTLE_RIGHT_BQ: u32 = 0x2000000;

/// The fields of a move result, each as a plain value.
pub struct MoveRecord {
    pub source: int,
    pub target: int,
    pub promote: int,
    pub capture: int,
    pub en_passant: bool,
    pub castle: bool,
    pub prev_wk: bool,
    pub prev_wq: bool,
    pub prev_bk: bool,
    pub prev_bq: bool,
    /// The six bits above the last flag, which no field uses.
    pub spare: int,
}

/// The source square of a request.
#[verifier::opaque]
pub open spec fn mreq_source(m: MoveRequest) -> int {
    (m % 64) as int
}

/// The target square of a request.
#[verifier::opaque]
pub open spec fn mreq_target(m: MoveRequest) -> int {
    ((m / 64) % 64) as int
}

/// The code of the promotion cell of a request.
#[verifier::opaque]
pub open spec fn mreq_promote_code(m: MoveRequest) -> int {
    (m / 4096) as int
}

/// The number that packs a source, a target and a promotion code.
pub open spec fn packed_request(source: int, target: int, promote: int) -> int {
    source + 64 * target + 4096 * promote
}

/// A request is the packing of its own three fields, each within its bits.
pub proof fn lemma_request_is_its_fields(m: MoveRequest)
    ensures
        0 <= mreq_source(m) < 64,
        0 <= mreq_target(m) < 64,
        0 <= mreq_promote_code(m) < 16,
        packed_request(mreq_source(m), mreq_target(m), mreq_promote_code(m)) == m,
{
    reveal(mreq_source);
    reveal(mreq_target);
    reveal(mreq_promote_code);
    assert(m % 64 < 64 && (m / 64) % 64 < 64 && m / 4096 < 16 && m == (m % 64) + 64 * ((m / 64)
        % 64) + 4096 * (m / 4096)) by (bit_vector);
}

/// The fields of the request that a source, a target and a promotion code
/// pack into are those three values.
pub proof fn lemma_fields_of_packed_request(m: MoveRequest, source: int, target: int, promote: int)
    requires
        0 <= source < 64,
        0 <= target < 64,
        0 <= promote < 16,
        m == packed_request(source, target, promote),
    ensures
        mreq_source(m) == source,
        mreq_target(m) == target,
        mreq_promote_code(m) == promote,
{
    reveal(mreq_source);
    reveal(mreq_target);
    reveal(mreq_promote_code);
    let a = source as u16;
    let b = target as u16;
    let c = promote as u16;
    assert(m == a + 64 * b + 4096 * c ==> m % 64 == a && (m / 64) % 64 == b && m / 4096 == c)
        by (bit_vector)
        requires
            a < 64,
            b < 64,
            c < 16,
    ;
}

/// The fields that a move result holds.
#[verifier::opaque]
pub open spec fn mres_record(r: MoveResult) -> MoveRecord {
    MoveRecord {
        source: (r % 64) as int,
        target: ((r / 64) % 64) as int,
        promote: ((r / 0x1000) % 16) as int,
        capture: ((r / 0x1_0000) % 16) as int,
        en_passant: (r / 0x10_0000) % 2 == 1,
        castle: (r / 0x20_0000) % 2 == 1,
        prev_wk: (r / 0x40_0000) % 2 == 1,
        prev_wq: (r / 0x80_0000) % 2 == 1,
        prev_bk: (r / 0x100_0000) % 2 == 1,
        prev_bq: (r / 0x200_0000) % 2 == 1,
        spare: (r / 0x400_0000) as int,
    }
}

/// 1 for true, 0 for false.
pub open spec fn bit_of(b: bool) -> int {
    if b {
        1
    } else {
        0
    }
}

/// The number whose fields are those of the record.
pub open spec fn packed_result(rec: MoveRecord) -> int {
    rec.source + 64 * rec.target + 0x1000 * rec.promote + 0x1_0000 * rec.capture + 0x10_0000
        * bit_of(rec.en_passant) + 0x20_0000 * bit_of(rec.castle) + 0x40_0000 * bit_of(rec.prev_wk)
        + 0x80_0000 * bit_of(rec.prev_wq) + 0x100_0000 * bit_of(rec.prev_bk) + 0x200_0000 * bit_of(
        rec.prev_bq,
    ) + 0x400_0000 * rec.spare
}

/// A result is the packing of its own fields, so two results with the same
/// fields are the same number.
pub proof fn lemma_result_is_its_fields(r: MoveResult)
    ensures
        packed_result(mres_record(r)) == r,
{
    reveal(mres_record);
    assert(r == (r % 64) + 64 * ((r / 64) % 64) + 0x1000 * ((r / 0x1000) % 16) + 0x1_0000 * ((r
        / 0x1_0000) % 16) + 0x10_0000 * ((r / 0x10_0000) % 2) + 0x20_0000 * ((r / 0x20_0000) % 2)
        + 0x40_0000 * ((r / 0x40_0000) % 2) + 0x80_0000 * ((r / 0x80_0000) % 2) + 0x100_0000 * ((r
        / 0x100_0000) % 2) + 0x200_0000 * ((r / 0x200_0000) % 2) + 0x400_0000 * (r / 0x400_0000))
        by (bit_vector);
}

/// Packs a plain move from `pos0` to `pos1`.
pub fn mreq_new(pos0: usize, pos1: usize) -> (m: MoveRequest)
    requires
        pos0 < 64,
        pos1 < 64,
    ensures
        m == packed_request(pos0 as int, pos1 as int, 0),
        mreq_source(m) == pos0,
        mreq_target(m) == pos1,
        mreq_promote_code(m) == 0,
{
    proof {
        reveal(mreq_source);
        reveal(mreq_target);
        reveal(mreq_promote_code);
    }
    let a: u16 = pos0 as u16;
    let b: u16 = pos1 as u16;
    let m: u16 = a | (b << 6);
    assert(m == a + 64 * b && m % 64 == a && (m / 64) % 64 == b && m / 4096 == 0) by (bit_vector)
        requires
            a < 64,
            b < 64,
            m == a | (b << 6),
    ;
    m
}

/// Packs a move from `pos0` to `pos1` that lands as `promote`.
pub fn mreq_new_with_promote(pos0: usize, pos1: usize, promote: &Cell) -> (m: MoveRequest)
    requires
        pos0 < 64,
        pos1 < 64,
    ensures
        m == packed_request(pos0 as int, pos1 as int, cell_code(*promote)),
        mreq_source(m) == pos0,
        mreq_target(m) == pos1,
        mreq_promote_code(m) == cell_code(*promote),
{
    proof {
        reveal(mreq_source);
        reveal(mreq_target);
        reveal(mreq_promote_code);
    }
    let a: u16 = pos0 as u16;
    let b: u16 = pos1 as u16;
    let c: u16 = cell_to_u8(promote) as u16;
    let m: u16 = a | (b << 6) | (c << 12);
    assert(m == a + 64 * b + 4096 * c && m % 64 == a && (m / 64) % 64 == b && m / 4096 == c)
        by (bit_vector)
        requires
            a < 64,
            b < 64,
            c < 16,
            m == a | (b << 6) | (c << 12),
    ;
    m
}

/// The source square held in the low six bits.
pub fn get_pos0(x: MoveResult) -> (pos: usize)
    ensures
        pos == mres_record(x).source,
        pos < 64,
{
    proof {
        reveal(mres_record);
    }
    let p: u32 = x & POS_0_FLAG;
    assert(p == x % 64 && p < 64) by (bit_vector)
        requires
            p == x & 0x3f,
    ;
    p as usize
}

/// The target square held in the next six bits.
pub fn get_pos1(x: MoveResult) -> (pos: usize)
    ensures
        pos == mres_record(x).target,
        pos < 64,
{
    proof {
        reveal(mres_record);
    }
    let p: u32 = (x & POS_1_FLAG) >> 6;
    assert(p == (x / 64) % 64 && p < 64) by (bit_vector)
        requires
            p == (x & 0xfc0) >> 6,
    ;
    p as usize
}

/// The promotion cell, or `None` where the four bits encode no cell.
pub fn get_promote(x: MoveResult) -> (cell: Option<Cell>)
    ensures
        cell is Some <==> code_is_valid(mres_record(x).promote),
        cell is Some ==> cell == Some(cell_of_code(mres_record(x).promote)),
{
    proof {
        reveal(mres_record);
    }
    let p: u32 = (x & PROMOTE_FLAG) >> 12;
    assert(p == (x / 0x1000) % 16 && p < 16) by (bit_vector)
        requires
            p == (x & 0xf000) >> 12,
    ;
    cell_from_u8(p as u8)
}

/// Widens a request to a result with no capture and no flag.
pub fn mres_new(mreq: MoveRequest) -> (res: MoveResult)
    ensures
        res == mreq,
        mres_record(res) == (MoveRecord {
            source: mreq_source(mreq),
            target: mreq_target(mreq),
            promote: mreq_promote_code(mreq),
            capture: 0,
            en_passant: false,
            castle: false,
            prev_wk: false,
            prev_wq: false,
            prev_bk: false,
            prev_bq: false,
            spare: 0,
        }),
{
    proof {
        reveal(mreq_source);
        reveal(mreq_target);
        reveal(mreq_promote_code);
    }
    proof {
        reveal(mres_record);
    }
    let res: u32 = mreq as u32;
    assert(res % 64 == (mreq % 64) as u32 && (res / 64) % 64 == ((mreq / 64) % 64) as u32 && (res
        / 0x1000) % 16 == (mreq / 4096) as u32 && (res / 0x1_0000) % 16 == 0 && (res / 0x10_0000)
        % 2 == 0 && (res / 0x20_0000) % 2 == 0 && (res / 0x40_0000) % 2 == 0 && (res / 0x80_0000)
        % 2 == 0 && (res / 0x100_0000) % 2 == 0 && (res / 0x200_0000) % 2 == 0 && res
        / 0x400_0000 == 0) by (bit_vector)
        requires
            res == mreq as u32,
    ;
    res
}

/// Replaces the promotion cell of a result.
pub fn mres_set_promote(res: &mut MoveResult, promote: &Cell)
    ensures
        mres_record(*final(res)) == (MoveRecord {
            promote: cell_code(*promote),
            ..mres_record(*old(res))
        }),
{
    proof {
        reveal(mres_record);
    }
    let r: u32 = *res;
    let c: u32 = cell_to_u8(promote) as u32;
    let out: u32 = (r & !PROMOTE_FLAG) | (c << 12);
    assert(out % 64 == r % 64 && (out / 64) % 64 == (r / 64) % 64 && (out / 0x1000) % 16 == c && (
    out / 0x1_0000) % 16 == (r / 0x1_0000) % 16 && (out / 0x10_0000) % 2 == (r / 0x10_0000) % 2
        && (out / 0x20_0000) % 2 == (r / 0x20_0000) % 2 && (out / 0x40_0000) % 2 == (r
        / 0x40_0000) % 2 && (out / 0x80_0000) % 2 == (r / 0x80_0000) % 2 && (out / 0x100_0000) % 2
        == (r / 0x100_0000) % 2 && (out / 0x200_0000) % 2 == (r / 0x200_0000) % 2 && out
        / 0x400_0000 == r / 0x400_0000) by (bit_vector)
        requires
            c < 16,
            out == (r & !0xf000u32) | (c << 12),
    ;
    *res = out;
}

/// Replaces the captured cell of a result.
pub fn mres_set_capture(res: &mut MoveResult, capture: &Cell)
    ensures
        mres_record(*final(res)) == (MoveRecord {
            capture: cell_code(*capture),
            ..mres_record(*old(res))
        }),
{
    proof {
        reveal(mres_record);
    }
    let r: u32 = *res;
    let c: u32 = cell_to_u8(capture) as u32;
    let out: u32 = (r & !CAPTURE_FLAG) | (c << 16);
    assert(out % 64 == r % 64 && (out / 64) % 64 == (r / 64) % 64 && (out / 0x1000) % 16 == (r
        / 0x1000) % 16 && (out / 0x1_0000) % 16 == c && (out / 0x10_0000) % 2 == (r / 0x10_0000)
        % 2 && (out / 0x20_0000) % 2 == (r / 0x20_0000) % 2 && (out / 0x40_0000) % 2 == (r
        / 0x40_0000) % 2 && (out / 0x80_0000) % 2 == (r / 0x80_0000) % 2 && (out / 0x100_0000) % 2
        == (r / 0x100_0000) % 2 && (out / 0x200_0000) % 2 == (r / 0x200_0000) % 2 && out
        / 0x400_0000 == r / 0x400_0000) by (bit_vector)
        requires
            c < 16,
            out == (r & !0xf0000u32) | (c << 16),
    ;
    *res = out;
}

/// Marks a result as an en-passant capture.
pub fn mres_set_en_passant(res: &mut MoveResult)
    ensures
        mres_record(*final(res)) == (MoveRecord { en_passant: true, ..mres_record(*old(res)) }),
{
    proof {
        reveal(mres_record);
    }
    let r: u32 = *res;
    let out: u32 = r | EN_PASSANT_FLAG;
    assert(out % 64 == r % 64 && (out / 64) % 64 == (r / 64) % 64 && (out / 0x1000) % 16 == (r
        / 0x1000) % 16 && (out / 0x1_0000) % 16 == (r / 0x1_0000) % 16 && (out / 0x10_0000) % 2
        == 1 && (out / 0x20_0000) % 2 == (r / 0x20_0000) % 2 && (out / 0x40_0000) % 2 == (r
        / 0x40_0000) % 2 && (out / 0x80_0000) % 2 == (r / 0x80_0000) % 2 && (out / 0x100_0000) % 2
        == (r / 0x100_0000) % 2 && (out / 0x200_0000) % 2 == (r / 0x200_0000) % 2 && out
        / 0x400_0000 == r / 0x400_0000) by (bit_vector)
        requires
            out == r | 0x100000,
    ;
    *res = out;
}

/// Marks a result as a castle.
pub fn mres_set_castle(res: &mut MoveResult)
    ensures
        mres_record(*final(res)) == (MoveRecord { castle: true, ..mres_record(*old(res)) }),
{
    proof {
        reveal(mres_record);
    }
    let r: u32 = *res;
    let out: u32 = r | CASTLE_FLAG;
    assert(out % 64 == r % 64 && (out / 64) % 64 == (r / 64) % 64 && (out / 0x1000) % 16 == (r
        / 0x1000) % 16 && (out / 0x1_0000) % 16 == (r / 0x1_0000) % 16 && (out / 0x10_0000) % 2
        == (r / 0x10_0000) % 2 && (out / 0x20_0000) % 2 == 1 && (out / 0x40_0000) % 2 == (r
        / 0x40_0000) % 2 && (out / 0x80_0000) % 2 == (r / 0x80_0000) % 2 && (out / 0x100_0000) % 2
        == (r / 0x100_0000) % 2 && (out / 0x200_0000) % 2 == (r / 0x200_0000) % 2 && out
        / 0x400_0000 == r / 0x400_0000) by (bit_vector)
        requires
            out == r | 0x200000,
    ;
    *res = out;
}

/// Records the four castling rights as they stood before the move.
pub fn mres_set_prev_castle_rights(res: &mut MoveResult, wk: bool, wq: bool, bk: bool, bq: bool)
    ensures
        mres_record(*final(res)) == (MoveRecord {
            prev_wk: wk,
            prev_wq: wq,
            prev_bk: bk,
            prev_bq: bq,
            ..mres_record(*old(res))
        }),
{
    proof {
        reveal(mres_record);
    }
    let r: u32 = *res;
    let a: u32 = if wk { PREV_CASTLE_RIGHT_WK } else { 0 };
    let b: u32 = if wq { PREV_CASTLE_RIGHT_WQ } else { 0 };
    let c: u32 = if bk { PREV_CASTLE_RIGHT_BK } else { 0 };
    let d: u32 = if bq { PREV_CASTLE_RIGHT_BQ } else { 0 };
    let out: u32 = (r & !0x3c0_0000u32) | a | b | c | d;
    assert(out % 64 == r % 64 && (out / 64) % 64 == (r / 64) % 64 && (out / 0x1000) % 16 == (r
        / 0x1000) % 16 && (out / 0x1_0000) % 16 == (r / 0x1_0000) % 16 && (out / 0x10_0000) % 2
        == (r / 0x10_0000) % 2 && (out / 0x20_0000) % 2 == (r / 0x20_0000) % 2 && ((out
        / 0x40_0000) % 2 == 1 <==> a != 0) && ((out / 0x80_0000) % 2 == 1 <==> b != 0) && ((out
        / 0x100_0000) % 2 == 1 <==> c != 0) && ((out / 0x200_0000) % 2 == 1 <==> d != 0) && out
        / 0x400_0000 == r / 0x400_0000) by (bit_vector)
        requires
            a == 0 || a == 0x400000,
            b == 0 || b == 0x800000,
            c == 0 || c == 0x1000000,
            d == 0 || d == 0x2000000,
            out == (r & !0x3c0_0000u32) | a | b | c | d,
    ;
    *res = out;
}

/// The captured cell, or `None` where the four bits encode no cell.
pub fn mres_get_capture(res: MoveResult) -> (cell: Option<Cell>)
    ensures
        cell is Some <==> code_is_valid(mres_record(res).capture),
        cell is Some ==> cell == Some(cell_of_code(mres_record(res).capture)),
{
    proof {
        reveal(mres_record);
    }
    let p: u32 = (res & CAPTURE_FLAG) >> 16;
    assert(p == (res / 0x1_0000) % 16 && p < 16) by (bit_vector)
        requires
            p == (res & 0xf0000) >> 16,
    ;
    cell_from_u8(p as u8)
}

/// Whether the move was an en-passant capture.
pub fn mres_get_en_passant(res: MoveResult) -> (flag: bool)
    ensures
        flag == mres_record(res).en_passant,
{
    proof {
        reveal(mres_record);
    }
    assert((res & 0x100000 != 0) <==> (res / 0x10_0000) % 2 == 1) by (bit_vector);
    res & EN_PASSANT_FLAG != 0
}

/// Whether the move was a castle.
pub fn mres_get_castle(res: MoveResult) -> (flag: bool)
    ensures
        flag == mres_record(res).castle,
{
    proof {
        reveal(mres_record);
    }
    assert((res & 0x200000 != 0) <==> (res / 0x20_0000) % 2 == 1) by (bit_vector);
    res & CASTLE_FLAG != 0
}

/// Whether White could castle king-side before the move.
pub fn mres_get_prev_castle_right_wk(res: MoveResult) -> (flag: bool)
    ensures
        flag == mres_record(res).prev_wk,
{
    proof {
        reveal(mres_record);
    }
    assert((res & 0x400000 != 0) <==> (res / 0x40_0000) % 2 == 1) by (bit_vector);
    res & PREV_CASTLE_RIGHT_WK != 0
}

/// Whether White could castle queen-side before the move.
pub fn mres_get_prev_castle_right_wq(res: MoveResult) -> (flag: bool)
    ensures
        flag == mres_record(res).prev_wq,
{
    proof {
        reveal(mres_record);
    }
    assert((res & 0x800000 != 0) <==> (res / 0x80_0000) % 2 == 1) by (bit_vector);
    res & PREV_CASTLE_RIGHT_WQ != 0
}

/// Whether Black could castle king-side before the move.
pub fn mres_get_prev_castle_right_bk(res: MoveResult) -> (flag: bool)
    ensures
        flag == mres_record(res).prev_bk,
{
    proof {
        reveal(mres_record);
    }
    assert((res & 0x1000000 != 0) <==> (res / 0x100_0000) % 2 == 1) by (bit_vector);
    res & PREV_CASTLE_RIGHT_BK != 0
}

/// Whether Black could castle queen-side before the move.
pub fn mres_get_prev_castle_right_bq(res: MoveResult) -> (flag: bool)
    ensures
        flag == mres_record(res).prev_bq,
{
    proof {
        reveal(mres_record);
    }
    assert((res & 0x2000000 != 0) <==> (res / 0x200_0000) % 2 == 1) by (bit_vector);
    res & PREV_CASTLE_RIGHT_BQ != 0
}

} // verus!
