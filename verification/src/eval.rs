//! The static evaluation of a position: material and the worth of the
//! squares that the pieces stand on, positive where White is better off.

use vstd::prelude::*;
use crate::board::ChessBoard;
use crate::pieces::{Cell, Piece, Player};

verus! {

/// The worth of each piece kind: pawn, rook, knight, bishop, queen, king.
pub const PIECE_VALUES: [i32; 6] = [100, 500, 300, 300, 900, 0];

/// The worth of each square to each piece kind while the board is full, from
/// White's side: sixty-four values for each kind, first rank first.
pub const START_POS_VALUES: [[i32; 64]; 6] = [
    [
           0,    0,    0,    0,    0,    0,    0,    0,
           5,   10,   10,  -20,  -20,   10,   10,    5,
           5,   -5,  -10,    0,    0,  -10,   -5,    5,
           0,    0,    0,   20,   20,    0,    0,    0,
           5,    5,   10,   25,   25,   10,    5,    5,
          10,   10,   20,   30,   30,   20,   10,   10,
          50,   50,   50,   50,   50,   50,   50,   50,
           0,    0,    0,    0,    0,    0,    0,    0,
    ],
    [
           0,    0,    0,    5,    5,    0,    0,    0,
          -5,    0,    0,    0,    0,    0,    0,   -5,
          -5,    0,    0,    0,    0,    0,    0,   -5,
          -5,    0,    0,    0,    0,    0,    0,   -5,
          -5,    0,    0,    0,    0,    0,    0,   -5,
          -5,    0,    0,    0,    0,    0,    0,   -5,
          -5,    0,    0,    0,    0,    0,    0,   -5,
           0,    0,    0,    0,    0,    0,    0,    0,
    ],
    [
         -50,  -40,  -30,  -30,  -30,  -30,  -40,  -50,
         -40,  -20,    0,    5,    5,    0,  -20,  -40,
         -30,    5,   10,   15,   15,   10,    5,  -30,
         -30,    0,   15,   20,   20,   15,    0,  -30,
         -30,    5,   15,   20,   20,   15,    5,  -30,
         -30,    0,   10,   15,   15,   10,    0,  -30,
         -40,  -20,    0,    0,    0,    0,  -20,  -40,
         -50,  -40,  -30,  -30,  -30,  -30,  -40,  -50,
    ],
    [
         -20,  -10,  -10,  -10,  -10,  -10,  -10,  -20,
         -10,    5,    0,    0,    0,    0,    5,  -10,
         -10,   10,   10,   10,   10,   10,   10,  -10,
         -10,    0,   10,   10,   10,   10,    0,  -10,
         -10,    5,    5,   10,   10,    5,    5,  -10,
         -10,    5,    5,   10,   10,    5,    5,  -10,
         -10,    0,    0,    0,    0,    0,    0,  -10,
         -20,  -10,  -10,  -10,  -10,  -10,  -10,  -20,
    ],
    [
         -20,  -10,  -10,   -5,   -5,  -10,  -10,  -20,
         -10,    0,    5,    0,    0,    0,    0,  -10,
         -10,    5,    5,    5,    5,    5,    0,  -10,
           0,    0,    5,    5,    5,    5,    0,   -5,
          -5,    0,    5,    5,    5,    5,    0,   -5,
         -10,    0,    5,    5,    5,    5,    0,  -10,
         -10,    0,    0,    0,    0,    0,    0,  -10,
         -20,  -10,  -10,   -5,   -5,  -10,  -10,  -20,
    ],
    [
          20,   30,   10,    0,    0,   10,   30,   20,
          20,   20,   -5,   -5,   -5,   -5,   20,   20,
         -10,  -20,  -20,  -20,  -20,  -20,  -20,  -10,
         -20,  -30,  -30,  -40,  -40,  -30,  -30,  -20,
         -30,  -40,  -40,  -50,  -50,  -40,  -40,  -30,
         -40,  -50,  -50,  -60,  -60,  -50,  -50,  -40,
         -60,  -60,  -60,  -60,  -60,  -60,  -60,  -60,
         -80,  -70,  -70,  -70,  -70,  -70,  -70,  -80,
    ],
];

/// The worth of each square to each piece kind once the board has
/// emptied.
pub const END_POS_VALUES: [[i32; 64]; 6] = [
    [
           0,    0,    0,    0,    0,    0,    0,    0,
          10,   10,   10,   10,   10,   10,   10,   10,
          10,   10,   10,   10,   10,   10,   10,   10,
          20,   20,   20,   20,   20,   20,   20,   20,
          30,   30,   30,   30,   30,   30,   30,   30,
          50,   50,   50,   50,   50,   50,   50,   50,
          80,   80,   80,   80,   80,   80,   80,   80,
           0,    0,    0,    0,    0,    0,    0,    0,
    ],
    [
           0,    0,    0,    5,    5,    0,    0,    0,
          -5,    0,    0,    0,    0,    0,    0,   -5,
          -5,    0,    0,    0,    0,    0,    0,   -5,
          -5,    0,    0,    0,    0,    0,    0,   -5,
          -5,    0,    0,    0,    0,    0,    0,   -5,
          -5,    0,    0,    0,    0,    0,    0,   -5,
          -5,    0,    0,    0,    0,    0,    0,   -5,
           0,    0,    0,    0,    0,    0,    0,    0,
    ],
    [
         -50,  -40,  -30,  -30,  -30,  -30,  -40,  -50,
         -40,  -20,    0,    5,    5,    0,  -20,  -40,
         -30,    5,   10,   15,   15,   10,    5,  -30,
         -30,    0,   15,   20,   20,   15,    0,  -30,
         -30,    5,   15,   20,   20,   15,    5,  -30,
         -30,    0,   10,   15,   15,   10,    0,  -30,
         -40,  -20,    0,    0,    0,    0,  -20,  -40,
         -50,  -40,  -30,  -30,  -30,  -30,  -40,  -50,
    ],
    [
         -20,  -10,  -10,  -10,  -10,  -10,  -10,  -20,
         -10,    5,    0,    0,    0,    0,    5,  -10,
         -10,   10,   10,   10,   10,   10,   10,  -10,
         -10,    0,   10,   10,   10,   10,    0,  -10,
         -10,    5,    5,   10,   10,    5,    5,  -10,
         -10,    5,    5,   10,   10,    5,    5,  -10,
         -10,    0,    0,    0,    0,    0,    0,  -10,
         -20,  -10,  -10,  -10,  -10,  -10,  -10,  -20,
    ],
    [
         -20,  -10,  -10,   -5,   -5,  -10,  -10,  -20,
         -10,    0,    5,    0,    0,    0,    0,  -10,
         -10,    5,    5,    5,    5,    5,    0,  -10,
           0,    0,    5,    5,    5,    5,    0,   -5,
          -5,    0,    5,    5,    5,    5,    0,   -5,
         -10,    0,    5,    5,    5,    5,    0,  -10,
         -10,    0,    0,    0,    0,    0,    0,  -10,
         -20,  -10,  -10,   -5,   -5,  -10,  -10,  -20,
    ],
    [
         -50,  -30,  -30,  -30,  -30,  -30,  -30,  -50,
         -30,  -25,    0,    0,    0,    0,  -25,  -30,
         -25,  -20,   20,   25,   25,   20,  -20,  -25,
         -20,  -15,   30,   40,   40,   30,  -15,  -20,
         -15,  -10,   35,   45,   45,   35,  -10,  -15,
         -10,   -5,   20,   30,   30,   20,   -5,  -10,
          -5,    0,    5,    5,    5,    5,    0,   -5,
         -20,  -10,  -10,  -10,  -10,  -10,  -10,  -20,
    ],
];

/// The largest size of the score of one square.
pub const SQUARE_LIMIT: i32 = 23360;

/// The largest size of a static score.
pub const SCORE_LIMIT: i32 = 1495040;

/// How many of the first `n` squares hold a piece of `side`.
pub open spec fn count_below(cells: Seq<Cell>, side: Player, n: int) -> int
    decreases n,
{
    if n <= 0 {
        0
    } else {
        count_below(cells, side, n - 1) + if cells[n - 1].owned_by(side) {
            1int
        } else {
            0int
        }
    }
}

/// The worth of a piece of the given kind on `sq`, seen from its own side,
/// when that side has `count` pieces left: sixteen times its material worth,
/// and the worth of its square, which moves from the full-board table to the
/// emptied-board table as the side's pieces go from sixteen to none.
pub open spec fn piece_score(kind: Piece, sq: int, count: int) -> int {
    16 * PIECE_VALUES@[kind.index()] + count * START_POS_VALUES@[kind.index()]@[sq] + (16 - count)
        * END_POS_VALUES@[kind.index()]@[sq]
}

/// The square that a square of Black's stands for in the tables, which are
/// laid out from White's side: the rank is reflected and the file is kept.
pub open spec fn mirrored(sq: int) -> int {
    (7 - sq / 8) * 8 + sq % 8
}

/// What one cell adds to the score: nothing where it is empty, the worth
/// of a White piece, and the worth of a Black piece, on the mirrored square,
/// taken away.
pub open spec fn square_score(cell: Cell, sq: int, whites: int, blacks: int) -> int {
    match cell {
        Cell::Empty => 0,
        Cell::Occupied(Player::White, kind) => piece_score(kind, sq, whites),
        Cell::Occupied(Player::Black, kind) => -piece_score(kind, mirrored(sq), blacks),
    }
}

/// The sum of the scores of the first `n` squares.
pub open spec fn score_below(cells: Seq<Cell>, n: int, whites: int, blacks: int) -> int
    decreases n,
{
    if n <= 0 {
        0
    } else {
        score_below(cells, n - 1, whites, blacks) + square_score(cells[n - 1], n - 1, whites, blacks)
    }
}

/// The static score of a position: the sum over its sixty-four squares,
/// each side's pieces weighed by how many pieces that side has left.
pub open spec fn static_score(cells: Seq<Cell>) -> int {
    score_below(
        cells,
        64,
        count_below(cells, Player::White, 64),
        count_below(cells, Player::Black, 64),
    )
}

/// A product is no larger than the product of the sizes of its factors.
pub proof fn lemma_product_within(a: int, b: int, x: int, y: int)
    by (nonlinear_arith)
    requires
        -x <= a <= x,
        -y <= b <= y,
    ensures
        -(x * y) <= a * b <= x * y,
{
}

/// No more of the first `n` squares hold a piece of a side than there are
/// squares.
pub proof fn lemma_count_within(cells: Seq<Cell>, side: Player, n: int)
    requires
        0 <= n,
    ensures
        0 <= count_below(cells, side, n) <= n,
    decreases n,
{
    if n > 0 {
        lemma_count_within(cells, side, n - 1);
    }
}

/// The score of one piece is within [`SQUARE_LIMIT`] of zero.
pub proof fn lemma_piece_score_within(kind: Piece, sq: int, count: int)
    requires
        0 <= sq < 64,
        0 <= count <= 64,
    ensures
        -SQUARE_LIMIT <= piece_score(kind, sq, count) <= SQUARE_LIMIT,
{
    let k = kind.index();
    let early = START_POS_VALUES@[k]@[sq] as int;
    let late = END_POS_VALUES@[k]@[sq] as int;
    assert(0 <= PIECE_VALUES@[k] <= 900);
    assert(-80 <= early <= 80);
    assert(-80 <= late <= 80);
    lemma_product_within(count, early, 64, 80);
    lemma_product_within(16 - count, late, 48, 80);
}

/// The score of the first `n` squares is within `n` times
/// [`SQUARE_LIMIT`] of zero.
pub proof fn lemma_score_below_within(cells: Seq<Cell>, n: int, whites: int, blacks: int)
    requires
        0 <= n <= 64,
        0 <= whites <= 64,
        0 <= blacks <= 64,
    ensures
        -23360 * n <= score_below(cells, n, whites, blacks) <= 23360 * n,
    decreases n,
{
    if n > 0 {
        lemma_score_below_within(cells, n - 1, whites, blacks);
        match cells[n - 1] {
            Cell::Empty => {},
            Cell::Occupied(Player::White, kind) => {
                lemma_piece_score_within(kind, n - 1, whites);
            },
            Cell::Occupied(Player::Black, kind) => {
                lemma_piece_score_within(kind, mirrored(n - 1), blacks);
            },
        }
    }
}

/// A static score is within [`SCORE_LIMIT`] of zero.
pub proof fn lemma_static_score_within(cells: Seq<Cell>)
    ensures
        -SCORE_LIMIT <= static_score(cells) <= SCORE_LIMIT,
{
    lemma_count_within(cells, Player::White, 64);
    lemma_count_within(cells, Player::Black, 64);
    lemma_score_below_within(
        cells,
        64,
        count_below(cells, Player::White, 64),
        count_below(cells, Player::Black, 64),
    );
}

/// The score of one piece, computed.
fn score_piece(kind: Piece, sq: usize, count: i32) -> (score: i32)
    requires
        sq < 64,
        0 <= count <= 64,
    ensures
        score == piece_score(kind, sq as int, count as int),
        -SQUARE_LIMIT <= score <= SQUARE_LIMIT,
{
    let k: usize = kind.ordinal() as usize;
    let material: i32 = PIECE_VALUES[k];
    let early: i32 = START_POS_VALUES[k][sq];
    let late: i32 = END_POS_VALUES[k][sq];
    assert(0 <= material <= 900);
    assert(-80 <= early <= 80);
    assert(-80 <= late <= 80);
    proof {
        lemma_product_within(count as int, early as int, 64, 80);
        lemma_product_within(16 - count, late as int, 48, 80);
    }
    16 * material + count * early + (16 - count) * late
}

/// The static score of the position, positive where White is better off.
pub fn evaluate(board: &ChessBoard) -> (score: i32)
    ensures
        score == static_score(board@.cells),
        -SCORE_LIMIT <= score <= SCORE_LIMIT,
{
    let mut num_white: i32 = 0;
    let mut num_black: i32 = 0;
    for pos in 0..64usize
        invariant
            num_white == count_below(board@.cells, Player::White, pos as int),
            num_black == count_below(board@.cells, Player::Black, pos as int),
            0 <= num_white <= pos,
            0 <= num_black <= pos,
    {
        match board.board[pos] {
            Cell::Occupied(Player::White, _) => {
                num_white += 1;
            },
            Cell::Occupied(Player::Black, _) => {
                num_black += 1;
            },
            Cell::Empty => {},
        }
    }
    let mut ans: i32 = 0;
    for pos in 0..64usize
        invariant
            0 <= num_white <= 64,
            0 <= num_black <= 64,
            ans == score_below(board@.cells, pos as int, num_white as int, num_black as int),
            -23360 * pos <= ans <= 23360 * pos,
    {
        match board.board[pos] {
            Cell::Occupied(Player::White, piece) => {
                ans += score_piece(piece, pos, num_white);
            },
            Cell::Occupied(Player::Black, piece) => {
                ans -= score_piece(piece, (7 - pos / 8) * 8 + pos % 8, num_black);
            },
            Cell::Empty => {},
        }
    }
    ans
}

} // verus!
