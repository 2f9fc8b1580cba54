use vstd::prelude::*;

pub mod bag;
pub mod board;
pub mod game;
pub mod garbage;
pub mod laws;
pub mod piece;
pub mod record;
pub mod relay;
pub mod room;
pub mod scoring;
pub mod text;

pub use board::Board;
pub use bag::RandomDraws;
pub use game::{GameSnapshot, GameState, PieceSnapshot};
pub use piece::{Piece, PieceType};
pub use scoring::Scoring;

verus! {
}
