//! A chess rules engine with a depth-bounded alpha-beta searcher.
//!
//! The crate tracks the full legal-move state of a game (castling, en
//! passant, promotion, check) and selects moves by iterative-deepening
//! minimax over a static positional evaluator.  Every executable function
//! carries a contract over the mathematical model of the position.
//!
//! * [`pieces`] and [`moves`]: cells, and the bit layout of move requests
//!   and move results.
//! * [`board`] and [`transition`]: the position, its 36-byte snapshot, and
//!   carrying out and taking back a move.
//! * [`attack`] and [`movegen`]: rays, hops, the attacking range of a side
//!   and the legal moves.
//! * [`rules`] and [`laws`]: the rules of movement stated directly, the
//!   proof that the generator lists exactly what they allow, and what holds
//!   of every move: consistency is kept, and undoing restores.
//! * [`eval`], [`ranking`], [`search`] and [`engine`]: the static score, the
//!   ordering of moves, alpha-beta search and iterative deepening.
//! * [`minimax`]: full minimax, and the proof that pruning keeps its score
//!   wherever no checkmate lies within the depth searched.
//! * [`bot`]: the two move selectors and the mover that runs one of them.

pub mod pieces;
pub mod moves;
pub mod board;
pub mod transition;
pub mod attack;
pub mod movegen;
pub mod rules;
pub mod laws;
pub mod eval;
pub mod ranking;
pub mod search;
pub mod engine;
pub mod minimax;
pub mod bot;

pub use board::ChessBoard;
pub use bot::{pick_move, random_bot, ChessBot, SyncChessMover, NAIVE_BOT, RANDOM_BOT};
pub use engine::{deepening_search, naive_bot, pack_decision, NAIVE_BOT_DEPTH};
pub use eval::evaluate;
pub use movegen::{IllegalMove, MoveList};
pub use moves::{
    get_pos0, get_pos1, get_promote, mreq_new, mreq_new_with_promote, mres_get_capture,
    mres_get_castle, mres_get_en_passant, mres_get_prev_castle_right_bk,
    mres_get_prev_castle_right_bq, mres_get_prev_castle_right_wk, mres_get_prev_castle_right_wq,
    mres_new, mres_set_capture, mres_set_castle, mres_set_en_passant, mres_set_prev_castle_rights,
    mres_set_promote, MoveRequest, MoveResult, MOVES_CHECKED_LEADER, MOVES_UNCHECKED_LEADER,
};
pub use pieces::{cell_from_u8, cell_to_u8, piece_from_u8, Cell, Piece, Player};
pub use ranking::sort_by_score;
pub use search::{search, CHECKMATE_SCORE, FORCE_CHECKMATE_LIMIT};
