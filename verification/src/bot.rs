//! The two move selectors and the mover that runs one of them.
//!
//! A selector takes a position and returns one number: the chosen move in
//! the low thirty-two bits, the signed score above them.

use vstd::prelude::*;
use crate::board::ChessBoard;
use crate::engine::{decision, naive_bot, packed_decision, NAIVE_BOT_DEPTH};
use crate::moves::MoveRequest;

verus! {

/// The selectors that a mover can run.
#[derive(Debug, Clone, Copy, PartialEq, Eq, Structural)]
pub enum ChessBot {
    /// Searches ahead and plays the best move found.
    Naive,
    /// Plays a legal move drawn at random.
    Random,
}

/// The selector that searches ahead.
pub const NAIVE_BOT: ChessBot = ChessBot::Naive;

/// The selector that plays at random.
pub const RANDOM_BOT: ChessBot = ChessBot::Random;

/// Runs a selector on the positions it is shown.  It keeps no reference to
/// a position between two calls.
pub struct SyncChessMover {
    pub make_move: ChessBot,
}

/// Draws a number with `rand::random`.  Nothing is claimed of the number
/// drawn: two calls may differ.
#[verifier::external_body]
fn random_number() -> (drawn: usize) {
    rand::random::<usize>()
}

/// What a random selector may answer on a position: one of its legal
/// moves with the score 0, or, where there is none, the number 0, which holds
/// no move.
pub open spec fn is_random_choice(moves: Seq<MoveRequest>, packed: int) -> bool {
    if moves.len() == 0 {
        packed == 0
    } else {
        exists|i: int| 0 <= i < moves.len() && packed == #[trigger] moves[i] as int
    }
}

/// The move that the drawn number picks: the moves are counted round and
/// round until the number is reached.
pub fn pick_move(moves: &Vec<MoveRequest>, drawn: usize) -> (packed: i64)
    requires
        moves@.len() > 0,
    ensures
        packed == moves@[drawn as int % moves@.len() as int] as int,
        is_random_choice(moves@, packed as int),
{
    let i: usize = drawn % moves.len();
    moves[i] as i64
}

/// Plays a legal move drawn at random, with the score 0; answers 0 where
/// the side to move has no legal move.
pub fn random_bot(board: &ChessBoard) -> (packed: i64)
    ensures
        is_random_choice(board@.legal_moves(), packed as int),
{
    let list = board.possible_moves();
    if list.moves.len() == 0 {
        return 0;
    }
    pick_move(&list.moves, random_number())
}

impl SyncChessMover {
    /// A mover that runs the given selector.
    pub fn new(bot: ChessBot) -> (mover: SyncChessMover)
        ensures
            mover.make_move == bot,
    {
        SyncChessMover { make_move: bot }
    }

    /// Runs the selector on the position: the chosen move in the low
    /// thirty-two bits of the answer, the signed score above them.
    pub fn sync_make_move(&self, board: &ChessBoard) -> (packed: i64)
        ensures
            self.make_move == ChessBot::Naive ==> packed == packed_decision(
                decision(board@, NAIVE_BOT_DEPTH as nat),
            ),
            self.make_move == ChessBot::Random ==> is_random_choice(
                board@.legal_moves(),
                packed as int,
            ),
    {
        match self.make_move {
            ChessBot::Naive => naive_bot(board),
            ChessBot::Random => random_bot(board),
        }
    }
}

} // verus!
