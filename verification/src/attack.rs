//! Where the pieces reach: rays, hops and the attacking range of a side.

use vstd::prelude::*;
use crate::board::ChessBoard;
use crate::pieces::{Cell, Piece, Player};
use crate::rules::{
    bishop_line, king_step, king_struck, knight_jump, lemma_attacks_are_reaches,
    lemma_attacks_by_rule, lemma_bishop_targets, lemma_in_concat, lemma_king_attacked_by_rule,
    lemma_king_targets, lemma_knight_targets, lemma_rook_targets, reaches, rook_line, struck,
};

verus! {

/// Whether a file and a rank name a square of the board.
pub open spec fn on_board(file: int, rank: int) -> bool {
    0 <= file < 8 && 0 <= rank < 8
}

/// `k` steps in the direction `d`, which is -1, 0 or 1.
pub open spec fn scaled(k: int, d: int) -> int {
    if d > 0 {
        k
    } else if d < 0 {
        -k
    } else {
        0
    }
}

/// The squares that a sliding piece of `side` on `src` reaches in the
/// direction `(df, dr)`, from its `k`-th step on, nearest first: every empty
/// square up to the first piece, and that piece's square where it is an
/// enemy.  The ray ends at the edge of the board.
pub open spec fn ray(cells: Seq<Cell>, side: Player, src: int, df: int, dr: int, k: int) -> Seq<
    usize,
>
    decreases 8 - k,
{
    let file = src % 8 + scaled(k, df);
    let rank = src / 8 + scaled(k, dr);
    if k < 1 || k >= 8 || !on_board(file, rank) {
        Seq::empty()
    } else {
        match cells[rank * 8 + file] {
            Cell::Empty => seq![(rank * 8 + file) as usize] + ray(cells, side, src, df, dr, k + 1),
            Cell::Occupied(owner, _) => if owner == side {
                Seq::empty()
            } else {
                seq![(rank * 8 + file) as usize]
            },
        }
    }
}

/// The square `(df, dr)` away from `src`, where it is on the board and
/// holds no piece of `side`.
#[verifier::opaque]
pub open spec fn hop(cells: Seq<Cell>, side: Player, src: int, df: int, dr: int) -> Seq<usize> {
    let file = src % 8 + df;
    let rank = src / 8 + dr;
    if on_board(file, rank) && !cells[rank * 8 + file].owned_by(side) {
        seq![(rank * 8 + file) as usize]
    } else {
        Seq::empty()
    }
}

/// The square `(df, dr)` away from `src`, where it is on the board.
#[verifier::opaque]
pub open spec fn glance(src: int, df: int, dr: int) -> Seq<usize> {
    let file = src % 8 + df;
    let rank = src / 8 + dr;
    if on_board(file, rank) {
        seq![(rank * 8 + file) as usize]
    } else {
        Seq::empty()
    }
}

/// The four directions of a rook, as file and rank steps: towards the
/// a-file, towards the h-file, up the board and down the board.
pub const ROOK_RAYS: [(i8, i8); 4] = [(-1, 0), (1, 0), (0, 1), (0, -1)];

/// The four directions of a bishop.
pub const BISHOP_RAYS: [(i8, i8); 4] = [(-1, -1), (-1, 1), (1, 1), (1, -1)];

/// The eight hops of a knight.
pub const KNIGHT_HOPS: [(i8, i8); 8] = [
    (-1, -2),
    (-2, -1),
    (2, -1),
    (1, -2),
    (1, 2),
    (2, 1),
    (-2, 1),
    (-1, 2),
];

/// The eight steps of a king.
pub const KING_STEPS: [(i8, i8); 8] = [
    (-1, -1),
    (0, -1),
    (1, -1),
    (-1, 0),
    (1, 0),
    (-1, 1),
    (0, 1),
    (1, 1),
];

/// The squares reached along the first `n` of the given directions, one
/// ray after the other.
pub open spec fn rays(cells: Seq<Cell>, side: Player, src: int, dirs: Seq<(i8, i8)>, n: int) -> Seq<
    usize,
>
    decreases n,
{
    if n <= 0 {
        Seq::empty()
    } else {
        rays(cells, side, src, dirs, n - 1) + ray(
            cells,
            side,
            src,
            dirs[n - 1].0 as int,
            dirs[n - 1].1 as int,
            1,
        )
    }
}

/// The squares reached by the first `n` of the given hops.
pub open spec fn hops(cells: Seq<Cell>, side: Player, src: int, dirs: Seq<(i8, i8)>, n: int) -> Seq<
    usize,
>
    decreases n,
{
    if n <= 0 {
        Seq::empty()
    } else {
        hops(cells, side, src, dirs, n - 1) + hop(
            cells,
            side,
            src,
            dirs[n - 1].0 as int,
            dirs[n - 1].1 as int,
        )
    }
}

/// The squares a rook reaches.
pub open spec fn rook_targets(cells: Seq<Cell>, side: Player, src: int) -> Seq<usize> {
    rays(cells, side, src, ROOK_RAYS@, 4)
}

/// The squares a bishop reaches.
pub open spec fn bishop_targets(cells: Seq<Cell>, side: Player, src: int) -> Seq<usize> {
    rays(cells, side, src, BISHOP_RAYS@, 4)
}

/// The squares a knight reaches.
pub open spec fn knight_targets(cells: Seq<Cell>, side: Player, src: int) -> Seq<usize> {
    hops(cells, side, src, KNIGHT_HOPS@, 8)
}

/// The squares a king reaches by a single step.
pub open spec fn king_targets(cells: Seq<Cell>, side: Player, src: int) -> Seq<usize> {
    hops(cells, side, src, KING_STEPS@, 8)
}

/// The direction in which the pawns of a side advance: 1 for White, -1 for
/// Black.
pub open spec fn forward(side: Player) -> int {
    match side {
        Player::White => 1,
        Player::Black => -1,
    }
}

/// The two squares that a pawn attacks: diagonally forward, whatever they
/// hold.
pub open spec fn pawn_attacks(side: Player, src: int) -> Seq<usize> {
    glance(src, -1, forward(side)) + glance(src, 1, forward(side))
}

/// The squares that a piece of `side` of the given kind on `src` attacks.
pub open spec fn piece_attacks(cells: Seq<Cell>, side: Player, kind: Piece, src: int) -> Seq<
    usize,
> {
    match kind {
        Piece::Pawn => pawn_attacks(side, src),
        Piece::Rook => rook_targets(cells, side, src),
        Piece::Knight => knight_targets(cells, side, src),
        Piece::Bishop => bishop_targets(cells, side, src),
        Piece::Queen => rook_targets(cells, side, src) + bishop_targets(cells, side, src),
        Piece::King => king_targets(cells, side, src),
    }
}

/// Whether `src` holds a piece of `attacker` that attacks `target`.
pub open spec fn attacks_from(cells: Seq<Cell>, attacker: Player, src: int, target: int) -> bool {
    match cells[src] {
        Cell::Empty => false,
        Cell::Occupied(owner, kind) => owner == attacker && piece_attacks(
            cells,
            attacker,
            kind,
            src,
        ).contains(target as usize),
    }
}

/// Whether some piece of `attacker` attacks `target`.
pub open spec fn attacks(cells: Seq<Cell>, attacker: Player, target: int) -> bool {
    attacks_below(cells, attacker, 64, target)
}

/// Whether `attacker` attacks the square of a king of the other side.
pub open spec fn king_attacked(cells: Seq<Cell>, attacker: Player) -> bool {
    king_attacked_below(cells, attacker, 64)
}

/// Whether a piece of `attacker` on one of the first `n` squares attacks
/// `target`.
pub open spec fn attacks_below(cells: Seq<Cell>, attacker: Player, n: int, target: int) -> bool {
    exists|src: int| 0 <= src < n && #[trigger] attacks_from(cells, attacker, src, target)
}

/// Whether one of the listed squares holds the king of `defender`.
pub open spec fn holds_king(cells: Seq<Cell>, defender: Player, squares: Seq<usize>) -> bool {
    exists|i: int|
        0 <= i < squares.len() && cells[#[trigger] squares[i] as int] == Cell::Occupied(
            defender,
            Piece::King,
        )
}

/// Whether a piece of `attacker` on one of the first `n` squares attacks
/// the square of a king of the other side.
pub open spec fn king_attacked_below(cells: Seq<Cell>, attacker: Player, n: int) -> bool {
    exists|target: int|
        0 <= target < 64 && #[trigger] attacks_below(cells, attacker, n, target) && cells[target]
            == Cell::Occupied(attacker.other(), Piece::King)
}

/// Whether bit `i` of a 64-bit set is on.
pub open spec fn has_bit(set: u64, i: int) -> bool {
    (set >> (i as u64)) & 1 == 1
}

/// Every entry of a list of squares, from index `from` on, is a square.
pub open spec fn squares_from(list: Seq<usize>, from: int) -> bool {
    forall|i: int| from <= i < list.len() ==> #[trigger] list[i] < 64
}

/// Concatenation of sequences is associative.
pub proof fn lemma_concat_assoc<A>(a: Seq<A>, b: Seq<A>, c: Seq<A>)
    ensures
        a + (b + c) == (a + b) + c,
{
    assert(a + (b + c) =~= (a + b) + c);
}

impl ChessBoard {
    /// Appends the squares of one ray.
    fn cast_ray(&self, pos: usize, player: Player, df: i8, dr: i8, ans: &mut Vec<usize>)
        requires
            pos < 64,
            -1 <= df <= 1,
            -1 <= dr <= 1,
        ensures
            final(ans)@ == old(ans)@ + ray(
                self.board@,
                player,
                pos as int,
                df as int,
                dr as int,
                1,
            ),
            squares_from(old(ans)@, 0) ==> squares_from(final(ans)@, 0),
    {
        let ghost start = ans@;
        let ghost whole = ray(self.board@, player, pos as int, df as int, dr as int, 1);
        let mut file: i8 = (pos % 8) as i8 + df;
        let mut rank: i8 = (pos / 8) as i8 + dr;
        let mut k: i8 = 1;
        let mut open = true;
        assert(ans@ + whole =~= start + whole);
        while open && k < 8 && 0 <= file && file < 8 && 0 <= rank && rank < 8
            invariant
                pos < 64,
                -1 <= df <= 1,
                -1 <= dr <= 1,
                1 <= k <= 8,
                file == pos % 8 + scaled(k as int, df as int),
                rank == pos / 8 + scaled(k as int, dr as int),
                whole == ray(self.board@, player, pos as int, df as int, dr as int, 1),
                open ==> start + whole == ans@ + ray(
                    self.board@,
                    player,
                    pos as int,
                    df as int,
                    dr as int,
                    k as int,
                ),
                !open ==> ans@ == start + whole,
                start.len() <= ans@.len(),
                squares_from(start, 0) ==> squares_from(ans@, 0),
            decreases 8 - k + (if open { 1int } else { 0int }),
        {
            let sq: usize = (rank as usize) * 8 + (file as usize);
            let ghost rest = ray(
                self.board@,
                player,
                pos as int,
                df as int,
                dr as int,
                k as int + 1,
            );
            let ghost before = ans@;
            match self.board[sq] {
                Cell::Empty => {
                    ans.push(sq);
                    assert(ans@ + rest =~= before + (seq![sq] + rest));
                    k += 1;
                    file += df;
                    rank += dr;
                },
                Cell::Occupied(owner, _) => {
                    if owner != player {
                        ans.push(sq);
                        assert(ans@ =~= before + seq![sq]);
                    } else {
                        assert(ans@ =~= before + Seq::<usize>::empty());
                    }
                    open = false;
                },
            }
        }
        assert(open ==> ans@ + Seq::<usize>::empty() =~= ans@);
    }

    /// Appends the square `(df, dr)` away where a piece of `player` may land
    /// on it.
    fn step_to(&self, pos: usize, player: Player, df: i8, dr: i8, ans: &mut Vec<usize>)
        requires
            pos < 64,
            -2 <= df <= 2,
            -2 <= dr <= 2,
        ensures
            final(ans)@ == old(ans)@ + hop(self.board@, player, pos as int, df as int, dr as int),
            squares_from(old(ans)@, 0) ==> squares_from(final(ans)@, 0),
    {
        proof {
            reveal(hop);
        }
        let file: i8 = (pos % 8) as i8 + df;
        let rank: i8 = (pos / 8) as i8 + dr;
        if 0 <= file && file < 8 && 0 <= rank && rank < 8 {
            let sq: usize = (rank as usize) * 8 + (file as usize);
            let free = match self.board[sq] {
                Cell::Empty => true,
                Cell::Occupied(owner, _) => owner != player,
            };
            if free {
                ans.push(sq);
                assert(ans@ =~= old(ans)@ + seq![sq]);
                return ;
            }
        }
        assert(ans@ =~= old(ans)@ + Seq::<usize>::empty());
    }

    /// Appends the squares of the rays in the given directions.
    fn cast_rays(&self, pos: usize, player: Player, dirs: &[(i8, i8); 4], ans: &mut Vec<usize>)
        requires
            pos < 64,
            forall|i: int| 0 <= i < 4 ==> -1 <= (#[trigger] dirs@[i]).0 <= 1 && -1 <= dirs@[i].1 <= 1,
        ensures
            final(ans)@ == old(ans)@ + rays(self.board@, player, pos as int, dirs@, 4),
            squares_from(old(ans)@, 0) ==> squares_from(final(ans)@, 0),
    {
        let ghost start = ans@;
        assert(ans@ =~= start + rays(self.board@, player, pos as int, dirs@, 0));
        for i in 0..4
            invariant
                pos < 64,
                forall|i: int|
                    0 <= i < 4 ==> -1 <= (#[trigger] dirs@[i]).0 <= 1 && -1 <= dirs@[i].1 <= 1,
                ans@ == start + rays(self.board@, player, pos as int, dirs@, i as int),
                squares_from(start, 0) ==> squares_from(ans@, 0),
        {
            let (df, dr) = dirs[i];
            proof {
                lemma_concat_assoc(
                    start,
                    rays(self.board@, player, pos as int, dirs@, i as int),
                    ray(self.board@, player, pos as int, df as int, dr as int, 1),
                );
            }
            self.cast_ray(pos, player, df, dr, ans);
        }
    }

    /// Appends the squares of the hops in the given directions.
    fn step_all(&self, pos: usize, player: Player, dirs: &[(i8, i8); 8], ans: &mut Vec<usize>)
        requires
            pos < 64,
            forall|i: int| 0 <= i < 8 ==> -2 <= (#[trigger] dirs@[i]).0 <= 2 && -2 <= dirs@[i].1 <= 2,
        ensures
            final(ans)@ == old(ans)@ + hops(self.board@, player, pos as int, dirs@, 8),
            squares_from(old(ans)@, 0) ==> squares_from(final(ans)@, 0),
    {
        let ghost start = ans@;
        assert(ans@ =~= start + hops(self.board@, player, pos as int, dirs@, 0));
        for i in 0..8
            invariant
                pos < 64,
                forall|i: int|
                    0 <= i < 8 ==> -2 <= (#[trigger] dirs@[i]).0 <= 2 && -2 <= dirs@[i].1 <= 2,
                ans@ == start + hops(self.board@, player, pos as int, dirs@, i as int),
                squares_from(start, 0) ==> squares_from(ans@, 0),
        {
            let (df, dr) = dirs[i];
            proof {
                lemma_concat_assoc(
                    start,
                    hops(self.board@, player, pos as int, dirs@, i as int),
                    hop(self.board@, player, pos as int, df as int, dr as int),
                );
            }
            self.step_to(pos, player, df, dr, ans);
        }
    }

    /// Appends the squares that a rook of `player` on `pos` reaches: along
    /// its rank and its file, over empty squares, up to and including the
    /// first enemy and up to but not including the first friend.
    pub fn rook_move(&self, pos: usize, player: Player, ans: &mut Vec<usize>)
        requires
            pos < 64,
        ensures
            final(ans)@ == old(ans)@ + rook_targets(self.board@, player, pos as int),
            squares_from(old(ans)@, 0) ==> squares_from(final(ans)@, 0),
            forall|dst: usize|
                dst < 64 ==> (#[trigger] final(ans)@.contains(dst) <==> old(ans)@.contains(dst)
                    || rook_line(self.board@, player, pos as int, dst as int)),
    {
        self.cast_rays(pos, player, &ROOK_RAYS, ans);
        proof {
            assert forall|dst: usize| dst < 64 implies (#[trigger] ans@.contains(dst) <==> old(
                ans,
            )@.contains(dst) || rook_line(self.board@, player, pos as int, dst as int)) by {
                lemma_rook_targets(self.board@, player, pos as int, dst as int);
                lemma_in_concat(old(ans)@, rook_targets(self.board@, player, pos as int), dst);
            }
        }
    }

    /// Appends the squares that a bishop of `player` on `pos` reaches: along
    /// its diagonals, over empty squares, up to and including the first enemy
    /// and up to but not including the first friend.
    pub fn bishop_move(&self, pos: usize, player: Player, ans: &mut Vec<usize>)
        requires
            pos < 64,
        ensures
            final(ans)@ == old(ans)@ + bishop_targets(self.board@, player, pos as int),
            squares_from(old(ans)@, 0) ==> squares_from(final(ans)@, 0),
            forall|dst: usize|
                dst < 64 ==> (#[trigger] final(ans)@.contains(dst) <==> old(ans)@.contains(dst)
                    || bishop_line(self.board@, player, pos as int, dst as int)),
    {
        self.cast_rays(pos, player, &BISHOP_RAYS, ans);
        proof {
            assert forall|dst: usize| dst < 64 implies (#[trigger] ans@.contains(dst) <==> old(
                ans,
            )@.contains(dst) || bishop_line(self.board@, player, pos as int, dst as int)) by {
                lemma_bishop_targets(self.board@, player, pos as int, dst as int);
                lemma_in_concat(old(ans)@, bishop_targets(self.board@, player, pos as int), dst);
            }
        }
    }

    /// Appends the squares that a knight of `player` on `pos` reaches: those
    /// a knight's jump away that hold no piece of `player`.
    pub fn knight_move(&self, pos: usize, player: Player, ans: &mut Vec<usize>)
        requires
            pos < 64,
        ensures
            final(ans)@ == old(ans)@ + knight_targets(self.board@, player, pos as int),
            squares_from(old(ans)@, 0) ==> squares_from(final(ans)@, 0),
            forall|dst: usize|
                dst < 64 ==> (#[trigger] final(ans)@.contains(dst) <==> old(ans)@.contains(dst)
                    || (knight_jump(pos as int, dst as int) && !self.board@[dst as int].owned_by(player))),
    {
        self.step_all(pos, player, &KNIGHT_HOPS, ans);
        proof {
            assert forall|dst: usize| dst < 64 implies (#[trigger] ans@.contains(dst) <==> old(
                ans,
            )@.contains(dst) || (knight_jump(pos as int, dst as int) && !self.board@[dst as int].owned_by(player))) by {
                lemma_knight_targets(self.board@, player, pos as int, dst as int);
                lemma_in_concat(old(ans)@, knight_targets(self.board@, player, pos as int), dst);
            }
        }
    }

    /// Appends the squares that a king of `player` on `pos` reaches by a
    /// single step: its neighbours that hold no piece of `player`.
    pub fn king_ordinary_move(&self, pos: usize, player: Player, ans: &mut Vec<usize>)
        requires
            pos < 64,
        ensures
            final(ans)@ == old(ans)@ + king_targets(self.board@, player, pos as int),
            squares_from(old(ans)@, 0) ==> squares_from(final(ans)@, 0),
            forall|dst: usize|
                dst < 64 ==> (#[trigger] final(ans)@.contains(dst) <==> old(ans)@.contains(dst)
                    || (king_step(pos as int, dst as int) && !self.board@[dst as int].owned_by(player))),
    {
        self.step_all(pos, player, &KING_STEPS, ans);
        proof {
            assert forall|dst: usize| dst < 64 implies (#[trigger] ans@.contains(dst) <==> old(
                ans,
            )@.contains(dst) || (king_step(pos as int, dst as int) && !self.board@[dst as int].owned_by(player))) by {
                lemma_king_targets(self.board@, player, pos as int, dst as int);
                lemma_in_concat(old(ans)@, king_targets(self.board@, player, pos as int), dst);
            }
        }
    }
}

/// Every square of a ray is a square of the board.
pub proof fn lemma_ray_on_board(cells: Seq<Cell>, side: Player, src: int, df: int, dr: int, k: int)
    ensures
        squares_from(ray(cells, side, src, df, dr, k), 0),
    decreases 8 - k,
{
    if 1 <= k < 8 {
        lemma_ray_on_board(cells, side, src, df, dr, k + 1);
    }
}

/// Every square reached along the given directions is a square of the
/// board.
pub proof fn lemma_rays_on_board(cells: Seq<Cell>, side: Player, src: int, dirs: Seq<(i8, i8)>, n: int)
    ensures
        squares_from(rays(cells, side, src, dirs, n), 0),
    decreases n,
{
    if n > 0 {
        lemma_rays_on_board(cells, side, src, dirs, n - 1);
        lemma_ray_on_board(cells, side, src, dirs[n - 1].0 as int, dirs[n - 1].1 as int, 1);
    }
}

/// Every square reached by the given hops is a square of the board.
pub proof fn lemma_hops_on_board(cells: Seq<Cell>, side: Player, src: int, dirs: Seq<(i8, i8)>, n: int)
    ensures
        squares_from(hops(cells, side, src, dirs, n), 0),
    decreases n,
{
    reveal(hop);
    if n > 0 {
        lemma_hops_on_board(cells, side, src, dirs, n - 1);
    }
}

/// Every square that a piece attacks is a square of the board.
pub proof fn lemma_attacks_on_board(cells: Seq<Cell>, side: Player, kind: Piece, src: int)
    ensures
        squares_from(piece_attacks(cells, side, kind, src), 0),
{
    reveal(glance);
    lemma_rays_on_board(cells, side, src, ROOK_RAYS@, 4);
    lemma_rays_on_board(cells, side, src, BISHOP_RAYS@, 4);
    lemma_hops_on_board(cells, side, src, KNIGHT_HOPS@, 8);
    lemma_hops_on_board(cells, side, src, KING_STEPS@, 8);
}

/// Turning one bit on leaves every other bit as it was.
pub proof fn lemma_bit_turned_on(set: u64, i: u64, j: u64)
    by (bit_vector)
    requires
        i < 64,
        j < 64,
    ensures
        (((set | (1u64 << i)) >> j) & 1 == 1) <==> (((set >> j) & 1 == 1) || i == j),
{
}

/// The empty set has no bit on.
pub proof fn lemma_no_bit_on(j: u64)
    by (bit_vector)
    requires
        j < 64,
    ensures
        (0u64 >> j) & 1 != 1,
{
}

impl ChessBoard {
    /// Appends the two squares that a pawn of `player` on `pos` attacks.
    pub fn pawn_reach(&self, pos: usize, player: Player, ans: &mut Vec<usize>)
        requires
            pos < 64,
        ensures
            final(ans)@ == old(ans)@ + pawn_attacks(player, pos as int),
            squares_from(old(ans)@, 0) ==> squares_from(final(ans)@, 0),
    {
        proof {
            reveal(glance);
        }
        let file: usize = pos % 8;
        let rank: usize = pos / 8;
        let ahead: usize = match player {
            Player::White => {
                if rank >= 7 {
                    assert(ans@ =~= old(ans)@ + pawn_attacks(player, pos as int));
                    return ;
                }
                rank + 1
            },
            Player::Black => {
                if rank == 0 {
                    assert(ans@ =~= old(ans)@ + pawn_attacks(player, pos as int));
                    return ;
                }
                rank - 1
            },
        };
        if file >= 1 {
            ans.push(ahead * 8 + file - 1);
        }
        if file < 7 {
            ans.push(ahead * 8 + file + 1);
        }
        assert(ans@ =~= old(ans)@ + pawn_attacks(player, pos as int));
    }

    /// The squares that the piece of `player` of the given kind on `pos`
    /// attacks.
    pub fn piece_reach(&self, pos: usize, player: Player, kind: Piece) -> (reach: Vec<usize>)
        requires
            pos < 64,
        ensures
            reach@ == piece_attacks(self.board@, player, kind, pos as int),
            squares_from(reach@, 0),
            forall|dst: int|
                0 <= dst < 64 ==> (reach@.contains(dst as usize) <==> reaches(
                    self.board@,
                    player,
                    kind,
                    pos as int,
                    dst,
                )),
    {
        proof {
            assert forall|dst: int| 0 <= dst < 64 implies (piece_attacks(
                self.board@,
                player,
                kind,
                pos as int,
            ).contains(dst as usize) <==> reaches(self.board@, player, kind, pos as int, dst)) by {
                lemma_attacks_are_reaches(self.board@, player, kind, pos as int, dst);
            }
        }
        let mut reach: Vec<usize> = Vec::new();
        let ghost none = reach@;
        match kind {
            Piece::Pawn => self.pawn_reach(pos, player, &mut reach),
            Piece::Rook => self.rook_move(pos, player, &mut reach),
            Piece::Knight => self.knight_move(pos, player, &mut reach),
            Piece::Bishop => self.bishop_move(pos, player, &mut reach),
            Piece::Queen => {
                self.rook_move(pos, player, &mut reach);
                self.bishop_move(pos, player, &mut reach);
                proof {
                    lemma_concat_assoc(
                        none,
                        rook_targets(self.board@, player, pos as int),
                        bishop_targets(self.board@, player, pos as int),
                    );
                }
            },
            Piece::King => self.king_ordinary_move(pos, player, &mut reach),
        }
        assert(none + piece_attacks(self.board@, player, kind, pos as int) =~= piece_attacks(
            self.board@,
            player,
            kind,
            pos as int,
        ));
        reach
    }

    /// Turns on the bit of each listed square, and tells whether one of
    /// them holds the king of `defender`.
    fn mark_squares(&self, set: u64, squares: &Vec<usize>, defender: Player) -> (marked: (
        u64,
        bool,
    ))
        requires
            squares_from(squares@, 0),
        ensures
            forall|sq: int|
                0 <= sq < 64 ==> (has_bit(marked.0, sq) <==> has_bit(set, sq) || squares@.contains(
                    sq as usize,
                )),
            marked.1 == holds_king(self.board@, defender, squares@),
    {
        let mut ans: u64 = set;
        let mut hit = false;
        for i in 0..squares.len()
            invariant
                squares_from(squares@, 0),
                forall|sq: int|
                    0 <= sq < 64 ==> (has_bit(ans, sq) <==> has_bit(set, sq) || squares@.take(
                        i as int,
                    ).contains(sq as usize)),
                hit == holds_king(self.board@, defender, squares@.take(i as int)),
        {
            let sq: usize = squares[i];
            let ghost before = ans;
            let ghost seen = squares@.take(i as int);
            let ghost next = squares@.take(i as int + 1);
            assert(next =~= seen.push(sq));
            ans |= 1u64 << (sq as u64);
            assert forall|other: int| 0 <= other < 64 implies (has_bit(ans, other) <==> has_bit(
                set,
                other,
            ) || next.contains(other as usize)) by {
                lemma_bit_turned_on(before, sq as u64, other as u64);
                assert(has_bit(ans, other) <==> has_bit(before, other) || other == sq);
                assert(has_bit(before, other) <==> has_bit(set, other) || seen.contains(
                    other as usize,
                ));
                if seen.contains(other as usize) {
                    let j = choose|j: int| 0 <= j < seen.len() && seen[j] == other as usize;
                    assert(next[j] == other as usize);
                }
                if other == sq {
                    assert(next[i as int] == sq);
                }
                if next.contains(other as usize) {
                    let j = choose|j: int| 0 <= j < next.len() && next[j] == other as usize;
                    if j < i {
                        assert(seen[j] == other as usize);
                    }
                }
            }
            let king_here = self.board[sq] == Cell::Occupied(defender, Piece::King);
            proof {
                if holds_king(self.board@, defender, seen) {
                    let j = choose|j: int|
                        0 <= j < seen.len() && self.board@[#[trigger] seen[j] as int]
                            == Cell::Occupied(defender, Piece::King);
                    assert(next[j] == seen[j]);
                }
                if king_here {
                    assert(next[i as int] == sq);
                }
            }
            if king_here {
                hit = true;
            }
        }
        assert(squares@.take(squares.len() as int) =~= squares@);
        (ans, hit)
    }

    /// The squares that `attacker` attacks, as a 64-bit set whose bit `i`
    /// stands for square `i`, and whether a king of the other side stands on
    /// one of them.
    ///
    /// A pawn attacks its two forward diagonals whatever they hold; every
    /// other piece attacks the squares it could move or capture onto.  The
    /// set is stated twice: over the squares that the rays and hops list, and
    /// over the rules of movement.
    pub fn get_attacking_range(&self, attacker: Player) -> (range: (u64, bool))
        ensures
            forall|sq: int|
                0 <= sq < 64 ==> (has_bit(range.0, sq) <==> attacks(self.board@, attacker, sq)),
            forall|sq: int|
                0 <= sq < 64 ==> (has_bit(range.0, sq) <==> struck(self.board@, attacker, sq)),
            range.1 == king_attacked(self.board@, attacker),
            range.1 == king_struck(self.board@, attacker),
    {
        proof {
            assert forall|sq: int| 0 <= sq < 64 implies (attacks(self.board@, attacker, sq)
                <==> struck(self.board@, attacker, sq)) by {
                lemma_attacks_by_rule(self.board@, attacker, sq);
            }
            lemma_king_attacked_by_rule(self.board@, attacker);
        }
        let mut ans: u64 = 0;
        let mut checked = false;
        let defender = attacker.opponent();
        assert forall|sq: int| 0 <= sq < 64 implies !has_bit(ans, sq) by {
            lemma_no_bit_on(sq as u64);
        }
        for pos in 0..64usize
            invariant
                defender == attacker.other(),
                forall|sq: int|
                    0 <= sq < 64 ==> (has_bit(ans, sq) <==> attacks_below(
                        self.board@,
                        attacker,
                        pos as int,
                        sq,
                    )),
                checked == king_attacked_below(self.board@, attacker, pos as int),
        {
            let ghost cells = self.board@;
            let ghost before = ans;
            let ghost was_checked = checked;
            let ghost reach = match cells[pos as int] {
                Cell::Occupied(owner, kind) => if owner == attacker {
                    piece_attacks(cells, attacker, kind, pos as int)
                } else {
                    Seq::empty()
                },
                Cell::Empty => Seq::empty(),
            };
            match self.board[pos] {
                Cell::Occupied(owner, kind) => {
                    if owner == attacker {
                        let attacked = self.piece_reach(pos, attacker, kind);
                        let (marked, hit) = self.mark_squares(ans, &attacked, defender);
                        ans = marked;
                        if hit {
                            checked = true;
                        }
                    }
                },
                Cell::Empty => {},
            }
            proof {
                assert forall|sq: int| 0 <= sq < 64 implies (attacks_from(
                    cells,
                    attacker,
                    pos as int,
                    sq,
                ) <==> reach.contains(sq as usize)) by {}
                assert forall|sq: int| 0 <= sq < 64 implies (has_bit(ans, sq) <==> attacks_below(
                    cells,
                    attacker,
                    pos as int + 1,
                    sq,
                )) by {
                    assert(has_bit(before, sq) <==> attacks_below(cells, attacker, pos as int, sq));
                    assert(has_bit(ans, sq) <==> has_bit(before, sq) || reach.contains(
                        sq as usize,
                    ));
                    if attacks_below(cells, attacker, pos as int, sq) {
                        let src = choose|src: int|
                            0 <= src < pos && #[trigger] attacks_from(cells, attacker, src, sq);
                        assert(attacks_from(cells, attacker, src, sq));
                    }
                    if reach.contains(sq as usize) {
                        assert(attacks_from(cells, attacker, pos as int, sq));
                    }
                }
                let king = Cell::Occupied(defender, Piece::King);
                if king_attacked_below(cells, attacker, pos as int + 1) {
                    let target = choose|target: int|
                        0 <= target < 64 && #[trigger] attacks_below(
                            cells,
                            attacker,
                            pos as int + 1,
                            target,
                        ) && cells[target] == king;
                    if reach.contains(target as usize) {
                        let i = choose|i: int| 0 <= i < reach.len() && reach[i] == target as usize;
                        assert(cells[reach[i] as int] == king);
                        assert(holds_king(cells, defender, reach));
                    } else {
                        assert(attacks_below(cells, attacker, pos as int, target));
                    }
                }
                if was_checked {
                    let target = choose|target: int|
                        0 <= target < 64 && #[trigger] attacks_below(
                            cells,
                            attacker,
                            pos as int,
                            target,
                        ) && cells[target] == king;
                    assert(attacks_below(cells, attacker, pos as int + 1, target));
                }
                if holds_king(cells, defender, reach) {
                    let i = choose|i: int|
                        0 <= i < reach.len() && cells[#[trigger] reach[i] as int] == king;
                    let target = reach[i] as int;
                    assert(reach.contains(target as usize));
                    assert(attacks_from(cells, attacker, pos as int, target));
                    assert(attacks_below(cells, attacker, pos as int + 1, target));
                }
            }
        }
        (ans, checked)
    }
}

} // verus!
