//! A turn-based memory-matching (pexeso) game engine.
//!
//! The board is a grid of hidden pictures in which every picture value
//! appears on exactly two cells. Players take turns proposing a pair of
//! cells; the engine validates the move, resolves whether the two cells
//! match, keeps a history of resolved matches, and rotates the turn
//! pointer round-robin.

pub mod board;
pub mod game;
pub mod laws;
pub mod types;

pub use board::board_from_pool;
pub use board::generate_board;
pub use game::Game;
pub use types::GameSize;
pub use types::MoveInstruction;
pub use types::MoveResult;
pub use types::Picture;
pub use types::Position;
