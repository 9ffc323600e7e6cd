//! The rules of movement stated directly, and the proof that the squares
//! and moves which the generator lists are exactly those that the rules
//! allow.

use vstd::prelude::*;
use crate::attack::{
    attacks, attacks_below, attacks_from, king_attacked, bishop_targets, forward, glance, hop, hops, king_targets, knight_targets,
    lemma_attacks_on_board, on_board, pawn_attacks, piece_attacks, ray, rays, rook_targets,
    scaled, squares_from, BISHOP_RAYS, KING_STEPS, KNIGHT_HOPS, ROOK_RAYS,
};
use crate::board::Position;
use crate::moves::{
    lemma_fields_of_packed_request, lemma_request_is_its_fields, mreq_promote_code, mreq_source,
    mreq_target, packed_request, MoveRequest,
};
use crate::movegen::{far_rank, home_rank, pawn_arrivals, plain_moves, promotion};
use crate::pieces::{cell_code, Cell, Piece, Player};

verus! {

/// The square `k` steps from `src` in the direction `(df, dr)`.
pub open spec fn step_square(src: int, df: int, dr: int, k: int) -> int {
    (src / 8 + scaled(k, dr)) * 8 + src % 8 + scaled(k, df)
}

/// Whether `dst` is the `k`-th square from `src` in the direction
/// `(df, dr)`, every square before it on the way is empty, and `dst` holds no
/// piece of `side`.
pub open spec fn slides_in(
    cells: Seq<Cell>,
    side: Player,
    src: int,
    dst: int,
    df: int,
    dr: int,
    from: int,
    k: int,
) -> bool {
    &&& from <= k < 8
    &&& on_board(src % 8 + scaled(k, df), src / 8 + scaled(k, dr))
    &&& dst == step_square(src, df, dr, k)
    &&& !cells[dst].owned_by(side)
    &&& forall|j: int| from <= j < k ==> cells[#[trigger] step_square(src, df, dr, j)] == Cell::Empty
}

/// Whether a sliding piece of `side` on `src` reaches `dst` in the
/// direction `(df, dr)`: `dst` lies on that line, nothing stands between, and
/// `dst` holds no piece of `side`.
pub open spec fn slides(cells: Seq<Cell>, side: Player, src: int, dst: int, df: int, dr: int) -> bool {
    exists|k: int| #[trigger] slides_in(cells, side, src, dst, df, dr, 1, k)
}

/// A ray, from its `from`-th step on, holds exactly the squares that the
/// piece slides to once the steps before `from` are behind it.
pub proof fn lemma_ray_is_slide(
    cells: Seq<Cell>,
    side: Player,
    src: int,
    dst: int,
    df: int,
    dr: int,
    from: int,
)
    requires
        0 <= src < 64,
        0 <= dst < 64,
        -1 <= df <= 1,
        -1 <= dr <= 1,
        1 <= from,
    ensures
        ray(cells, side, src, df, dr, from).contains(dst as usize) <==> exists|k: int| #[trigger]
            slides_in(cells, side, src, dst, df, dr, from, k),
    decreases 8 - from,
{
    let here = ray(cells, side, src, df, dr, from);
    let file = src % 8 + scaled(from, df);
    let rank = src / 8 + scaled(from, dr);
    if from >= 8 || !on_board(file, rank) {
        assert(here =~= Seq::empty());
        assert forall|k: int| !#[trigger] slides_in(cells, side, src, dst, df, dr, from, k) by {
            if slides_in(cells, side, src, dst, df, dr, from, k) {
                assert(on_board(src % 8 + scaled(k, df), src / 8 + scaled(k, dr)));
            }
        }
    } else {
        let sq = rank * 8 + file;
        assert(sq == step_square(src, df, dr, from));
        let rest = ray(cells, side, src, df, dr, from + 1);
        lemma_ray_is_slide(cells, side, src, dst, df, dr, from + 1);
        if here.contains(dst as usize) {
            let i = choose|i: int| 0 <= i < here.len() && here[i] == dst as usize;
            if cells[sq] == Cell::Empty && i > 0 {
                assert(rest[i - 1] == dst as usize);
                assert(rest.contains(dst as usize));
                let k = choose|k: int| #[trigger]
                    slides_in(cells, side, src, dst, df, dr, from + 1, k);
                assert(slides_in(cells, side, src, dst, df, dr, from, k));
            } else {
                assert(dst == sq);
                assert(slides_in(cells, side, src, dst, df, dr, from, from));
            }
        }
        if exists|k: int| #[trigger] slides_in(cells, side, src, dst, df, dr, from, k) {
            let k = choose|k: int| #[trigger] slides_in(cells, side, src, dst, df, dr, from, k);
            if k == from {
                assert(here[0] == dst as usize);
            } else {
                assert(cells[step_square(src, df, dr, from)] == Cell::Empty);
                assert(slides_in(cells, side, src, dst, df, dr, from + 1, k));
                assert(rest.contains(dst as usize));
                let i = choose|i: int| 0 <= i < rest.len() && rest[i] == dst as usize;
                assert(here[i + 1] == dst as usize);
            }
        }
    }
}

/// A value is in a concatenation exactly when it is in one of its parts.
pub proof fn lemma_in_concat<A>(a: Seq<A>, b: Seq<A>, x: A)
    ensures
        (a + b).contains(x) <==> a.contains(x) || b.contains(x),
{
    if a.contains(x) {
        let i = choose|i: int| 0 <= i < a.len() && a[i] == x;
        assert((a + b)[i] == x);
    }
    if b.contains(x) {
        let i = choose|i: int| 0 <= i < b.len() && b[i] == x;
        assert((a + b)[a.len() + i] == x);
    }
    if (a + b).contains(x) {
        let i = choose|i: int| 0 <= i < (a + b).len() && (a + b)[i] == x;
        if i < a.len() {
            assert(a[i] == x);
        } else {
            assert(b[i - a.len()] == x);
        }
    }
}

/// The rays along the first `n` directions hold exactly the squares that
/// the piece slides to in one of those directions.
pub proof fn lemma_rays_are_slides(
    cells: Seq<Cell>,
    side: Player,
    src: int,
    dst: int,
    dirs: Seq<(i8, i8)>,
    n: int,
)
    requires
        0 <= src < 64,
        0 <= dst < 64,
        0 <= n <= dirs.len(),
        forall|i: int| 0 <= i < n ==> -1 <= (#[trigger] dirs[i]).0 <= 1 && -1 <= dirs[i].1 <= 1,
    ensures
        rays(cells, side, src, dirs, n).contains(dst as usize) <==> exists|i: int|
            0 <= i < n && #[trigger] slides(cells, side, src, dst, dirs[i].0 as int, dirs[i].1 as int),
    decreases n,
{
    if n > 0 {
        let last = dirs[n - 1];
        lemma_rays_are_slides(cells, side, src, dst, dirs, n - 1);
        lemma_ray_is_slide(cells, side, src, dst, last.0 as int, last.1 as int, 1);
        lemma_in_concat(
            rays(cells, side, src, dirs, n - 1),
            ray(cells, side, src, last.0 as int, last.1 as int, 1),
            dst as usize,
        );
        if rays(cells, side, src, dirs, n).contains(dst as usize) {
            if rays(cells, side, src, dirs, n - 1).contains(dst as usize) {
                let i = choose|i: int|
                    0 <= i < n - 1 && #[trigger] slides(
                        cells,
                        side,
                        src,
                        dst,
                        dirs[i].0 as int,
                        dirs[i].1 as int,
                    );
                assert(slides(cells, side, src, dst, dirs[i].0 as int, dirs[i].1 as int));
            } else {
                assert(slides(cells, side, src, dst, dirs[n - 1].0 as int, dirs[n - 1].1 as int));
            }
        }
    }
}

/// Whether a piece of `side` lands on `dst` by the single hop `(df, dr)`
/// from `src`.
pub open spec fn lands(cells: Seq<Cell>, side: Player, src: int, dst: int, df: int, dr: int) -> bool {
    &&& on_board(src % 8 + df, src / 8 + dr)
    &&& dst == (src / 8 + dr) * 8 + src % 8 + df
    &&& !cells[dst].owned_by(side)
}

/// The first `n` hops hold exactly the squares that the piece lands on by
/// one of them.
pub proof fn lemma_hops_are_landings(
    cells: Seq<Cell>,
    side: Player,
    src: int,
    dst: int,
    dirs: Seq<(i8, i8)>,
    n: int,
)
    requires
        0 <= src < 64,
        0 <= dst < 64,
        0 <= n <= dirs.len(),
    ensures
        hops(cells, side, src, dirs, n).contains(dst as usize) <==> exists|i: int|
            0 <= i < n && #[trigger] lands(cells, side, src, dst, dirs[i].0 as int, dirs[i].1 as int),
    decreases n,
{
    reveal(hop);
    if n > 0 {
        let last = dirs[n - 1];
        let one = hop(cells, side, src, last.0 as int, last.1 as int);
        lemma_hops_are_landings(cells, side, src, dst, dirs, n - 1);
        lemma_in_concat(hops(cells, side, src, dirs, n - 1), one, dst as usize);
        if one.contains(dst as usize) {
            assert(one[0] == dst as usize);
        }
        if lands(cells, side, src, dst, last.0 as int, last.1 as int) {
            assert(one[0] == dst as usize);
        }
        if hops(cells, side, src, dirs, n).contains(dst as usize) {
            if hops(cells, side, src, dirs, n - 1).contains(dst as usize) {
                let i = choose|i: int|
                    0 <= i < n - 1 && #[trigger] lands(
                        cells,
                        side,
                        src,
                        dst,
                        dirs[i].0 as int,
                        dirs[i].1 as int,
                    );
                assert(lands(cells, side, src, dst, dirs[i].0 as int, dirs[i].1 as int));
            } else {
                assert(lands(cells, side, src, dst, dirs[n - 1].0 as int, dirs[n - 1].1 as int));
            }
        }
    }
}

/// The distance between two numbers.
pub open spec fn gap(a: int, b: int) -> int {
    if a <= b {
        b - a
    } else {
        a - b
    }
}

/// Whether a rook of `side` on `src` reaches `dst`: along the rank or the
/// file, over empty squares, onto a square that holds no piece of `side`.
pub open spec fn rook_line(cells: Seq<Cell>, side: Player, src: int, dst: int) -> bool {
    slides(cells, side, src, dst, -1, 0) || slides(cells, side, src, dst, 1, 0) || slides(
        cells,
        side,
        src,
        dst,
        0,
        1,
    ) || slides(cells, side, src, dst, 0, -1)
}

/// Whether a bishop of `side` on `src` reaches `dst`: along a diagonal,
/// over empty squares, onto a square that holds no piece of `side`.
pub open spec fn bishop_line(cells: Seq<Cell>, side: Player, src: int, dst: int) -> bool {
    slides(cells, side, src, dst, -1, -1) || slides(cells, side, src, dst, -1, 1) || slides(
        cells,
        side,
        src,
        dst,
        1,
        1,
    ) || slides(cells, side, src, dst, 1, -1)
}

/// Whether `dst` is a knight's jump from `src`: one file and two ranks
/// away, or two files and one rank.
pub open spec fn knight_jump(src: int, dst: int) -> bool {
    (gap(src % 8, dst % 8) == 1 && gap(src / 8, dst / 8) == 2) || (gap(src % 8, dst % 8) == 2
        && gap(src / 8, dst / 8) == 1)
}

/// Whether `dst` is next to `src`, along a line or a diagonal.
pub open spec fn king_step(src: int, dst: int) -> bool {
    src != dst && gap(src % 8, dst % 8) <= 1 && gap(src / 8, dst / 8) <= 1
}

/// Whether a pawn of `side` on `src` attacks `dst`: one rank forward and
/// one file aside.
pub open spec fn pawn_strikes(side: Player, src: int, dst: int) -> bool {
    dst / 8 == src / 8 + forward(side) && gap(src % 8, dst % 8) == 1
}

/// Whether a piece of `side` of the given kind on `src` attacks `dst`.
pub open spec fn reaches(cells: Seq<Cell>, side: Player, kind: Piece, src: int, dst: int) -> bool {
    match kind {
        Piece::Pawn => pawn_strikes(side, src, dst),
        Piece::Rook => rook_line(cells, side, src, dst),
        Piece::Knight => knight_jump(src, dst) && !cells[dst].owned_by(side),
        Piece::Bishop => bishop_line(cells, side, src, dst),
        Piece::Queen => rook_line(cells, side, src, dst) || bishop_line(cells, side, src, dst),
        Piece::King => king_step(src, dst) && !cells[dst].owned_by(side),
    }
}

/// The squares listed for a rook are those that a rook reaches.
pub proof fn lemma_rook_targets(cells: Seq<Cell>, side: Player, src: int, dst: int)
    requires
        0 <= src < 64,
        0 <= dst < 64,
    ensures
        rook_targets(cells, side, src).contains(dst as usize) <==> rook_line(cells, side, src, dst),
{
    let dirs = ROOK_RAYS@;
    assert(dirs[0] == (-1i8, 0i8) && dirs[1] == (1i8, 0i8) && dirs[2] == (0i8, 1i8) && dirs[3] == (
        0i8,
        -1i8,
    ));
    lemma_rays_are_slides(cells, side, src, dst, dirs, 4);
    if rook_line(cells, side, src, dst) {
        assert(slides(cells, side, src, dst, dirs[0].0 as int, dirs[0].1 as int) || slides(
            cells,
            side,
            src,
            dst,
            dirs[1].0 as int,
            dirs[1].1 as int,
        ) || slides(cells, side, src, dst, dirs[2].0 as int, dirs[2].1 as int) || slides(
            cells,
            side,
            src,
            dst,
            dirs[3].0 as int,
            dirs[3].1 as int,
        ));
    }
}

/// The squares listed for a bishop are those that a bishop reaches.
pub proof fn lemma_bishop_targets(cells: Seq<Cell>, side: Player, src: int, dst: int)
    requires
        0 <= src < 64,
        0 <= dst < 64,
    ensures
        bishop_targets(cells, side, src).contains(dst as usize) <==> bishop_line(
            cells,
            side,
            src,
            dst,
        ),
{
    let dirs = BISHOP_RAYS@;
    assert(dirs[0] == (-1i8, -1i8) && dirs[1] == (-1i8, 1i8) && dirs[2] == (1i8, 1i8) && dirs[3]
        == (1i8, -1i8));
    lemma_rays_are_slides(cells, side, src, dst, dirs, 4);
    if bishop_line(cells, side, src, dst) {
        assert(slides(cells, side, src, dst, dirs[0].0 as int, dirs[0].1 as int) || slides(
            cells,
            side,
            src,
            dst,
            dirs[1].0 as int,
            dirs[1].1 as int,
        ) || slides(cells, side, src, dst, dirs[2].0 as int, dirs[2].1 as int) || slides(
            cells,
            side,
            src,
            dst,
            dirs[3].0 as int,
            dirs[3].1 as int,
        ));
    }
}

/// The squares listed for a knight are those a knight's jump away that
/// hold no piece of its side.
pub proof fn lemma_knight_targets(cells: Seq<Cell>, side: Player, src: int, dst: int)
    requires
        0 <= src < 64,
        0 <= dst < 64,
    ensures
        knight_targets(cells, side, src).contains(dst as usize) <==> knight_jump(src, dst)
            && !cells[dst].owned_by(side),
{
    let dirs = KNIGHT_HOPS@;
    assert(dirs[0] == (-1i8, -2i8) && dirs[1] == (-2i8, -1i8) && dirs[2] == (2i8, -1i8) && dirs[3]
        == (1i8, -2i8) && dirs[4] == (1i8, 2i8) && dirs[5] == (2i8, 1i8) && dirs[6] == (-2i8, 1i8)
        && dirs[7] == (-1i8, 2i8));
    lemma_hops_are_landings(cells, side, src, dst, dirs, 8);
    if knight_jump(src, dst) && !cells[dst].owned_by(side) {
        let df = dst % 8 - src % 8;
        let dr = dst / 8 - src / 8;
        let i = if df == -1 && dr == -2 {
            0int
        } else if df == -2 && dr == -1 {
            1int
        } else if df == 2 && dr == -1 {
            2int
        } else if df == 1 && dr == -2 {
            3int
        } else if df == 1 && dr == 2 {
            4int
        } else if df == 2 && dr == 1 {
            5int
        } else if df == -2 && dr == 1 {
            6int
        } else {
            7int
        };
        assert(lands(cells, side, src, dst, dirs[i].0 as int, dirs[i].1 as int));
    }
}

/// The squares listed for a king are those next to it that hold no piece
/// of its side.
pub proof fn lemma_king_targets(cells: Seq<Cell>, side: Player, src: int, dst: int)
    requires
        0 <= src < 64,
        0 <= dst < 64,
    ensures
        king_targets(cells, side, src).contains(dst as usize) <==> king_step(src, dst)
            && !cells[dst].owned_by(side),
{
    let dirs = KING_STEPS@;
    assert(dirs[0] == (-1i8, -1i8) && dirs[1] == (0i8, -1i8) && dirs[2] == (1i8, -1i8) && dirs[3]
        == (-1i8, 0i8) && dirs[4] == (1i8, 0i8) && dirs[5] == (-1i8, 1i8) && dirs[6] == (0i8, 1i8)
        && dirs[7] == (1i8, 1i8));
    lemma_hops_are_landings(cells, side, src, dst, dirs, 8);
    if king_step(src, dst) && !cells[dst].owned_by(side) {
        let df = dst % 8 - src % 8;
        let dr = dst / 8 - src / 8;
        let i = if df == -1 && dr == -1 {
            0int
        } else if df == 0 && dr == -1 {
            1int
        } else if df == 1 && dr == -1 {
            2int
        } else if df == -1 && dr == 0 {
            3int
        } else if df == 1 && dr == 0 {
            4int
        } else if df == -1 && dr == 1 {
            5int
        } else if df == 0 && dr == 1 {
            6int
        } else {
            7int
        };
        assert(lands(cells, side, src, dst, dirs[i].0 as int, dirs[i].1 as int));
    }
}

/// The squares listed for a pawn's attack are the two that it strikes.
pub proof fn lemma_pawn_attacks(side: Player, src: int, dst: int)
    requires
        0 <= src < 64,
        0 <= dst < 64,
    ensures
        pawn_attacks(side, src).contains(dst as usize) <==> pawn_strikes(side, src, dst),
{
    reveal(glance);
    let a = glance(src, -1, forward(side));
    let b = glance(src, 1, forward(side));
    lemma_in_concat(a, b, dst as usize);
    if a.contains(dst as usize) {
        assert(a[0] == dst as usize);
    }
    if b.contains(dst as usize) {
        assert(b[0] == dst as usize);
    }
    if pawn_strikes(side, src, dst) {
        if dst % 8 == src % 8 - 1 {
            assert(a[0] == dst as usize);
        } else {
            assert(b[0] == dst as usize);
        }
    }
}

/// The squares that the generator lists as attacked by a piece are exactly
/// those that the rules of movement say it attacks.
pub proof fn lemma_attacks_are_reaches(
    cells: Seq<Cell>,
    side: Player,
    kind: Piece,
    src: int,
    dst: int,
)
    requires
        0 <= src < 64,
        0 <= dst < 64,
    ensures
        piece_attacks(cells, side, kind, src).contains(dst as usize) <==> reaches(
            cells,
            side,
            kind,
            src,
            dst,
        ),
{
    lemma_rook_targets(cells, side, src, dst);
    lemma_bishop_targets(cells, side, src, dst);
    lemma_knight_targets(cells, side, src, dst);
    lemma_king_targets(cells, side, src, dst);
    lemma_pawn_attacks(side, src, dst);
    lemma_in_concat(
        rook_targets(cells, side, src),
        bishop_targets(cells, side, src),
        dst as usize,
    );
}

/// Whether `src` holds a piece of `attacker` that, by the rules of
/// movement, attacks `target`.
pub open spec fn strikes_from(cells: Seq<Cell>, attacker: Player, src: int, target: int) -> bool {
    match cells[src] {
        Cell::Empty => false,
        Cell::Occupied(owner, kind) => owner == attacker && reaches(
            cells,
            attacker,
            kind,
            src,
            target,
        ),
    }
}

/// Whether some piece of `attacker`, by the rules of movement, attacks
/// `target`.
pub open spec fn struck(cells: Seq<Cell>, attacker: Player, target: int) -> bool {
    exists|src: int| 0 <= src < 64 && #[trigger] strikes_from(cells, attacker, src, target)
}

/// Whether, by the rules of movement, `attacker` attacks the square of a
/// king of the other side.
pub open spec fn king_struck(cells: Seq<Cell>, attacker: Player) -> bool {
    exists|target: int|
        0 <= target < 64 && #[trigger] struck(cells, attacker, target) && cells[target]
            == Cell::Occupied(attacker.other(), Piece::King)
}

/// A side attacks a square exactly when one of its pieces, by the rules of
/// movement, attacks it.
pub proof fn lemma_attacks_by_rule(cells: Seq<Cell>, attacker: Player, target: int)
    requires
        0 <= target < 64,
    ensures
        attacks(cells, attacker, target) <==> struck(cells, attacker, target),
{
    if attacks(cells, attacker, target) {
        let src = choose|src: int|
            0 <= src < 64 && #[trigger] attacks_from(cells, attacker, src, target);
        match cells[src] {
            Cell::Empty => {},
            Cell::Occupied(owner, kind) => {
                lemma_attacks_are_reaches(cells, attacker, kind, src, target);
            },
        }
        assert(strikes_from(cells, attacker, src, target));
    }
    if exists|src: int| 0 <= src < 64 && #[trigger] strikes_from(cells, attacker, src, target) {
        let src = choose|src: int|
            0 <= src < 64 && #[trigger] strikes_from(cells, attacker, src, target);
        match cells[src] {
            Cell::Empty => {},
            Cell::Occupied(owner, kind) => {
                lemma_attacks_are_reaches(cells, attacker, kind, src, target);
            },
        }
        assert(attacks_from(cells, attacker, src, target));
    }
}

/// A side attacks a king of the other side exactly when one of its pieces,
/// by the rules of movement, attacks that king's square.
pub proof fn lemma_king_attacked_by_rule(cells: Seq<Cell>, attacker: Player)
    ensures
        king_attacked(cells, attacker) <==> king_struck(cells, attacker),
{
    let king = Cell::Occupied(attacker.other(), Piece::King);
    if king_attacked(cells, attacker) {
        let target = choose|target: int|
            0 <= target < 64 && #[trigger] attacks_below(cells, attacker, 64, target)
                && cells[target] == king;
        lemma_attacks_by_rule(cells, attacker, target);
        assert(struck(cells, attacker, target));
    }
    if king_struck(cells, attacker) {
        let target = choose|target: int|
            0 <= target < 64 && #[trigger] struck(cells, attacker, target) && cells[target]
                == king;
        lemma_attacks_by_rule(cells, attacker, target);
        assert(attacks_below(cells, attacker, 64, target));
    }
}

/// Whether a pawn of `side` that arrives on `dst` may land as the cell
/// with the given code: as a queen, rook, bishop or knight of its side on the
/// farthest rank, and as itself, with no promotion named, anywhere else.
pub open spec fn lands_as(side: Player, dst: int, code: int) -> bool {
    if dst / 8 == far_rank(side) {
        code == cell_code(Cell::Occupied(side, Piece::Queen)) || code == cell_code(
            Cell::Occupied(side, Piece::Rook),
        ) || code == cell_code(Cell::Occupied(side, Piece::Bishop)) || code == cell_code(
            Cell::Occupied(side, Piece::Knight),
        )
    } else {
        code == 0
    }
}

impl Position {
    /// Whether a pawn of the side to move may go from `src` to `dst`: one
    /// square forward onto an empty square, two squares forward from its home
    /// rank over empty squares, or one square diagonally forward onto an
    /// enemy or onto the en-passant target.
    pub open spec fn pawn_may_go(self, src: int, dst: int) -> bool {
        let one = src + 8 * forward(self.side);
        let two = src + 16 * forward(self.side);
        &&& 0 <= one < 64
        &&& {
            ||| dst == one && self.cells[one] == Cell::Empty
            ||| dst == two && src / 8 == home_rank(self.side) && self.cells[one] == Cell::Empty
                && self.cells[two] == Cell::Empty
            ||| dst == one + 1 && src % 8 < 7 && self.pawn_takes(dst)
            ||| dst == one - 1 && src % 8 >= 1 && self.pawn_takes(dst)
        }
    }

    /// Whether a castle of the side to move that lands its king on `dst` is
    /// allowed.
    pub open spec fn castle_lands(self, dst: int) -> bool {
        let rank = match self.side {
            Player::White => 0int,
            Player::Black => 56int,
        };
        (dst == rank + 6 && self.may_castle_king_side()) || (dst == rank + 2
            && self.may_castle_queen_side())
    }

    /// Whether the rules of movement allow the move, leaving aside whether
    /// it exposes the mover's own king: its source holds a piece of the side
    /// to move, that piece may go to the target, and the promotion named is
    /// the one that the arrival calls for.
    pub open spec fn pseudo_legal(self, m: MoveRequest) -> bool {
        let src = mreq_source(m);
        let dst = mreq_target(m);
        let code = mreq_promote_code(m);
        match self.cells[src] {
            Cell::Empty => false,
            Cell::Occupied(owner, kind) => owner == self.side && match kind {
                Piece::Pawn => self.pawn_may_go(src, dst) && lands_as(self.side, dst, code),
                Piece::King => code == 0 && (reaches(self.cells, owner, kind, src, dst)
                    || self.castle_lands(dst)),
                _ => code == 0 && reaches(self.cells, owner, kind, src, dst),
            },
        }
    }

    /// Whether the move is legal: the rules of movement allow it and it
    /// does not leave the mover's own king attacked.
    pub open spec fn legal(self, m: MoveRequest) -> bool {
        self.pseudo_legal(m) && !self.exposes_king(m)
    }
}

/// The plain moves from a square to a list of targets are the requests
/// with that source, one of those targets and no promotion.
pub proof fn lemma_plain_moves(src: int, targets: Seq<usize>, m: MoveRequest)
    requires
        0 <= src < 64,
        squares_from(targets, 0),
    ensures
        plain_moves(src, targets).contains(m) <==> mreq_source(m) == src && mreq_promote_code(m)
            == 0 && targets.contains(mreq_target(m) as usize),
{
    let moves = plain_moves(src, targets);
    lemma_request_is_its_fields(m);
    if moves.contains(m) {
        let i = choose|i: int| 0 <= i < moves.len() && moves[i] == m;
        assert(targets[i] < 64);
        lemma_fields_of_packed_request(m, src, targets[i] as int, 0);
        assert(targets[i] == mreq_target(m) as usize);
    }
    if mreq_source(m) == src && mreq_promote_code(m) == 0 && targets.contains(
        mreq_target(m) as usize,
    ) {
        let i = choose|i: int| 0 <= i < targets.len() && targets[i] == mreq_target(m) as usize;
        assert(moves[i] == m);
    }
}

/// The arrivals of a pawn on a square are the requests with that source
/// and target whose promotion is the one that the arrival calls for.
pub proof fn lemma_pawn_arrivals(side: Player, src: int, dst: int, m: MoveRequest)
    requires
        0 <= src < 64,
        0 <= dst < 64,
    ensures
        pawn_arrivals(side, src, dst).contains(m) <==> mreq_source(m) == src && mreq_target(m)
            == dst && lands_as(side, dst, mreq_promote_code(m)),
{
    let moves = pawn_arrivals(side, src, dst);
    lemma_request_is_its_fields(m);
    if moves.contains(m) {
        let i = choose|i: int| 0 <= i < moves.len() && moves[i] == m;
        if dst / 8 == far_rank(side) {
            let kind = if i == 0 {
                Piece::Queen
            } else if i == 1 {
                Piece::Rook
            } else if i == 2 {
                Piece::Bishop
            } else {
                Piece::Knight
            };
            lemma_fields_of_packed_request(m, src, dst, cell_code(Cell::Occupied(side, kind)));
        } else {
            lemma_fields_of_packed_request(m, src, dst, 0);
        }
    }
    if mreq_source(m) == src && mreq_target(m) == dst && lands_as(side, dst, mreq_promote_code(m)) {
        if dst / 8 == far_rank(side) {
            let code = mreq_promote_code(m);
            let i = if code == cell_code(Cell::Occupied(side, Piece::Queen)) {
                0int
            } else if code == cell_code(Cell::Occupied(side, Piece::Rook)) {
                1int
            } else if code == cell_code(Cell::Occupied(side, Piece::Bishop)) {
                2int
            } else {
                3int
            };
            assert(moves[i] == m);
        } else {
            assert(moves[0] == m);
        }
    }
}

/// The moves listed for a pawn are those that the rules allow it.
pub proof fn lemma_pawn_moves(p: Position, src: int, m: MoveRequest)
    requires
        p.cells.len() == 64,
        0 <= src < 64,
    ensures
        p.pawn_moves(src).contains(m) <==> mreq_source(m) == src && p.pawn_may_go(
            src,
            mreq_target(m),
        ) && lands_as(p.side, mreq_target(m), mreq_promote_code(m)),
{
    let one = src + 8 * forward(p.side);
    let two = src + 16 * forward(p.side);
    let ahead = 0 <= one < 64;
    let none = Seq::<MoveRequest>::empty();
    let advance = if ahead && p.cells[one] == Cell::Empty {
        pawn_arrivals(p.side, src, one)
    } else {
        none
    };
    let double = if src / 8 == home_rank(p.side) && p.cells[one] == Cell::Empty && p.cells[two]
        == Cell::Empty {
        pawn_arrivals(p.side, src, two)
    } else {
        none
    };
    let right = if ahead && src % 8 < 7 && p.pawn_takes(one + 1) {
        pawn_arrivals(p.side, src, one + 1)
    } else {
        none
    };
    let left = if ahead && src % 8 >= 1 && p.pawn_takes(one - 1) {
        pawn_arrivals(p.side, src, one - 1)
    } else {
        none
    };
    lemma_request_is_its_fields(m);
    lemma_in_concat(advance + double + right, left, m);
    lemma_in_concat(advance + double, right, m);
    lemma_in_concat(advance, double, m);
    if ahead {
        lemma_pawn_arrivals(p.side, src, one, m);
        if src % 8 < 7 {
            lemma_pawn_arrivals(p.side, src, one + 1, m);
        }
        if src % 8 >= 1 {
            lemma_pawn_arrivals(p.side, src, one - 1, m);
        }
    }
    if src / 8 == home_rank(p.side) {
        lemma_pawn_arrivals(p.side, src, two, m);
    }
}

/// The castles listed for a king are those that the rules allow it.
pub proof fn lemma_castle_moves(p: Position, src: int, m: MoveRequest)
    requires
        0 <= src < 64,
    ensures
        p.castle_moves(src).contains(m) <==> mreq_source(m) == src && mreq_promote_code(m) == 0
            && p.castle_lands(mreq_target(m)),
{
    let rank = match p.side {
        Player::White => 0int,
        Player::Black => 56int,
    };
    let none = Seq::<MoveRequest>::empty();
    let king_side = if p.may_castle_king_side() {
        seq![packed_request(src, rank + 6, 0) as MoveRequest]
    } else {
        none
    };
    let queen_side = if p.may_castle_queen_side() {
        seq![packed_request(src, rank + 2, 0) as MoveRequest]
    } else {
        none
    };
    lemma_request_is_its_fields(m);
    lemma_in_concat(king_side, queen_side, m);
    if king_side.contains(m) {
        assert(king_side[0] == m);
        lemma_fields_of_packed_request(m, src, rank + 6, 0);
    }
    if queen_side.contains(m) {
        assert(queen_side[0] == m);
        lemma_fields_of_packed_request(m, src, rank + 2, 0);
    }
    if mreq_source(m) == src && mreq_promote_code(m) == 0 && p.castle_lands(mreq_target(m)) {
        if mreq_target(m) == rank + 6 {
            assert(king_side[0] == m);
        } else {
            assert(queen_side[0] == m);
        }
    }
}

/// The moves listed for a square are the moves from that square that the
/// rules allow.
pub proof fn lemma_moves_from(p: Position, src: int, m: MoveRequest)
    requires
        p.cells.len() == 64,
        0 <= src < 64,
    ensures
        p.moves_from(src).contains(m) <==> mreq_source(m) == src && p.pseudo_legal(m),
{
    lemma_request_is_its_fields(m);
    match p.cells[src] {
        Cell::Empty => {},
        Cell::Occupied(owner, kind) => {
            if owner == p.side {
                let reach = piece_attacks(p.cells, owner, kind, src);
                lemma_attacks_on_board(p.cells, owner, kind, src);
                lemma_plain_moves(src, reach, m);
                lemma_attacks_are_reaches(p.cells, owner, kind, src, mreq_target(m));
                lemma_pawn_moves(p, src, m);
                lemma_castle_moves(p, src, m);
                lemma_in_concat(plain_moves(src, reach), p.castle_moves(src), m);
            }
        },
    }
}

/// The moves listed for the first `n` squares are the moves from those
/// squares that the rules allow.
pub proof fn lemma_moves_below(p: Position, n: int, m: MoveRequest)
    requires
        p.cells.len() == 64,
        0 <= n <= 64,
    ensures
        p.moves_below(n).contains(m) <==> mreq_source(m) < n && p.pseudo_legal(m),
    decreases n,
{
    lemma_request_is_its_fields(m);
    if n > 0 {
        lemma_moves_below(p, n - 1, m);
        lemma_moves_from(p, n - 1, m);
        lemma_in_concat(p.moves_below(n - 1), p.moves_from(n - 1), m);
    }
}

/// Filtering keeps exactly the moves that do not expose the king.
pub proof fn lemma_safe_among(p: Position, moves: Seq<MoveRequest>, m: MoveRequest)
    ensures
        p.safe_among(moves).contains(m) <==> moves.contains(m) && !p.exposes_king(m),
    decreases moves.len(),
{
    if moves.len() > 0 {
        let rest = moves.drop_last();
        let last = moves.last();
        lemma_safe_among(p, rest, m);
        assert(moves =~= rest + seq![last]);
        lemma_in_concat(rest, seq![last], m);
        assert(seq![last].contains(m) <==> m == last) by {
            if seq![last].contains(m) {
                let i = choose|i: int| 0 <= i < seq![last].len() && seq![last][i] == m;
            }
            if m == last {
                assert(seq![last][0] == m);
            }
        }
        if !p.exposes_king(last) {
            assert(p.safe_among(rest).push(last) =~= p.safe_among(rest) + seq![last]);
            lemma_in_concat(p.safe_among(rest), seq![last], m);
        }
    }
}

/// The generator lists exactly the moves that the rules of movement allow.
pub proof fn lemma_pseudo_moves_are_pseudo_legal(p: Position, m: MoveRequest)
    requires
        p.cells.len() == 64,
    ensures
        p.pseudo_moves().contains(m) <==> p.pseudo_legal(m),
{
    lemma_request_is_its_fields(m);
    lemma_moves_below(p, 64, m);
}

/// The legal moves of a position are exactly the moves that the rules of
/// movement allow and that do not leave the mover's own king attacked.
pub proof fn lemma_legal_moves_are_legal(p: Position, m: MoveRequest)
    requires
        p.cells.len() == 64,
    ensures
        p.legal_moves().contains(m) <==> p.legal(m),
{
    lemma_pseudo_moves_are_pseudo_legal(p, m);
    lemma_safe_among(p, p.pseudo_moves(), m);
}

} // verus!
