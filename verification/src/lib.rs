//! An alpha-beta chess search engine with a tapered static evaluation,
//! a bucketed transposition table and a move-ordering pipeline.
//!
//! Positions are plain values; legal-move generation and move making are
//! delegated to the `chess` crate through a handful of trusted wrappers.
pub mod board;
pub mod eval;
pub mod features;
pub mod fen;
pub mod notation;
pub mod ordering;
pub mod position;
pub mod search;
pub mod stop;
pub mod symmetry;
pub mod tt;
pub mod types;

pub use eval::ClassicalEval;
pub use ordering::{History, Killers, MoveOrdering};
pub use position::{Position, Status};
pub use search::Search;
pub use tt::{TTEntry, TT};
pub use types::{Color, Move, Piece};
