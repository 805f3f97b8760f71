//! The basic vocabulary of the game: board sizes, cell positions,
//! pictures, move instructions and move results.

use vstd::prelude::*;

verus! {

/// A cell of the board, as (column, row), both 0-indexed.
pub type Position = (u32, u32);

/// A named board-dimension preset.
#[derive(Clone, Copy, PartialEq, Eq, Structural, Debug)]
pub enum GameSize {
    Tiny,
    Small,
    Medium,
    Large,
}

/// The dimensions (width, height) that a preset stands for.
pub open spec fn spec_dims(size: GameSize) -> (u32, u32) {
    match size {
        GameSize::Tiny => (4u32, 4u32),
        GameSize::Small => (8u32, 8u32),
        GameSize::Medium => (16u32, 16u32),
        GameSize::Large => (32u32, 32u32),
    }
}

/// How many matching pairs a board of the given preset holds:
/// half of its cell count.
pub open spec fn spec_total_pairs(size: GameSize) -> int {
    (spec_dims(size).0 * spec_dims(size).1) as int / 2
}

/// Every preset is at most 32 by 32, covers an even number of cells, and
/// needs exactly half as many pairs as it has cells.
pub proof fn lemma_dims(size: GameSize)
    ensures
        spec_dims(size).0 as int * spec_dims(size).1 as int <= 1024,
        (spec_dims(size).0 as int * spec_dims(size).1 as int) % 2 == 0,
        2 * spec_total_pairs(size) == spec_dims(size).0 as int * spec_dims(size).1 as int,
        spec_total_pairs(size) >= 8,
{
    match size {
        GameSize::Tiny => {}
        GameSize::Small => {}
        GameSize::Medium => {}
        GameSize::Large => {}
    }
}

impl GameSize {
    /// The concrete (width, height) of this preset.
    pub fn into_tuple(&self) -> (r: Position)
        ensures
            r == spec_dims(*self),
    {
        match self {
            GameSize::Tiny => (4, 4),
            GameSize::Small => (8, 8),
            GameSize::Medium => (16, 16),
            GameSize::Large => (32, 32),
        }
    }
}

/// The symbolic identity of a tile. Two cells match exactly when their
/// pictures carry the same identifier.
#[derive(Debug)]
pub struct Picture {
    pub id: String,
}

impl Clone for Picture {
    fn clone(&self) -> (r: Self)
        ensures
            r == *self,
    {
        let r = Picture { id: self.id.clone() };
        proof {
            assert(*self == (Picture { id: self.id }));
        }
        r
    }
}

/// One proposed move: which player plays, and the two cells revealed.
#[derive(Clone, Copy, Debug)]
pub struct MoveInstruction {
    pub player_id: u32,
    pub first_item: Position,
    pub second_item: Position,
}

/// The outcome of one call to `Game::play`.
#[derive(Debug)]
pub enum MoveResult {
    Match { first_item: Picture, second_item: Picture },
    NoMatch { first_item: Picture, second_item: Picture },
    InvalidMove,
    InvalidPlayer,
    InvalidMoveGameOver,
}

} // verus!
