//! The game engine: board state, round-robin turn order, move history,
//! and the move-validation and resolution state machine.

use vstd::prelude::*;
use crate::board::{cells, dims_ok, generate_board, rows_view, well_paired};
use crate::types::{GameSize, MoveInstruction, MoveResult, Picture, Position, spec_dims,
    spec_total_pairs};

verus! {

/// The mathematical state of a game, over which every contract speaks.
#[verifier::ext_equal]
pub ghost struct GameModel {
    pub size: GameSize,
    pub player_count: int,
    pub next_player: int,
    pub history: Seq<(MoveInstruction, MoveResult)>,
    pub board: Seq<Seq<Picture>>,
}

impl GameModel {
    /// How many matched pairs end this game.
    pub open spec fn total_pairs(self) -> int {
        spec_total_pairs(self.size)
    }

    /// The game is over once every pair has been matched: the history
    /// records one entry per resolved match.
    pub open spec fn game_over(self) -> bool {
        self.history.len() == self.total_pairs()
    }

    /// The position lies on the board.
    pub open spec fn in_bounds(self, pos: Position) -> bool {
        pos.0 < spec_dims(self.size).0 && pos.1 < spec_dims(self.size).1
    }

    /// The picture at a (column, row) position.
    pub open spec fn picture_at(self, pos: Position) -> Picture {
        self.board[pos.0 as int][pos.1 as int]
    }

    /// Some history entry was submitted with exactly these two positions,
    /// in this order.
    pub open spec fn pair_in_history(self, first: Position, second: Position) -> bool {
        exists|i: int|
            0 <= i < self.history.len() && (#[trigger] self.history[i]).0.first_item == first
                && self.history[i].0.second_item == second
    }

    /// A proposed pair of cells is acceptable: two different cells, not a
    /// pair submitted before, both on the board.
    pub open spec fn move_valid(self, first: Position, second: Position) -> bool {
        &&& first != second
        &&& !self.pair_in_history(first, second)
        &&& self.in_bounds(first)
        &&& self.in_bounds(second)
    }

    /// A well-formed game: at least one player, the turn pointer inside
    /// the player range, a board of the preset's dimensions, and no more
    /// history entries than the board has pairs.
    pub open spec fn wf(self) -> bool {
        &&& self.player_count > 0
        &&& 0 <= self.next_player < self.player_count
        &&& dims_ok(self.size, self.board)
        &&& self.history.len() <= self.total_pairs()
    }

    /// The complete transition relation of `play`: the state after the
    /// move together with its result.
    pub open spec fn step(self, m: MoveInstruction) -> (GameModel, MoveResult) {
        if self.game_over() {
            (self, MoveResult::InvalidMoveGameOver)
        } else if m.player_id as int != self.next_player {
            (self, MoveResult::InvalidPlayer)
        } else if !self.move_valid(m.first_item, m.second_item) {
            (self, MoveResult::InvalidMove)
        } else {
            let advanced = GameModel {
                next_player: (self.next_player + 1) % self.player_count,
                ..self
            };
            let p = self.picture_at(m.first_item);
            let q = self.picture_at(m.second_item);
            if p.id@ == q.id@ {
                let res = MoveResult::Match { first_item: p, second_item: q };
                (GameModel { history: self.history.push((m, res)), ..advanced }, res)
            } else {
                (advanced, MoveResult::NoMatch { first_item: p, second_item: q })
            }
        }
    }

    /// Some history entry records a match that covers this cell, so the
    /// cell stays revealed.
    pub open spec fn revealed(self, pos: Position) -> bool {
        exists|i: int|
            0 <= i < self.history.len() && #[trigger] entry_reveals(self.history[i], pos)
    }
}

/// A history entry keeps a cell revealed when it covers the cell and
/// records a match.
pub open spec fn entry_reveals(entry: (MoveInstruction, MoveResult), pos: Position) -> bool {
    (entry.0.first_item == pos || entry.0.second_item == pos) && entry.1 is Match
}

/// One running game of pexeso.
pub struct Game {
    size: GameSize,
    player_count: u32,
    history: Vec<(MoveInstruction, MoveResult)>,
    next_player: u32,
    board: Vec<Vec<Picture>>,
}

impl View for Game {
    type V = GameModel;

    closed spec fn view(&self) -> GameModel {
        GameModel {
            size: self.size,
            player_count: self.player_count as int,
            next_player: self.next_player as int,
            history: self.history@,
            board: rows_view(self.board@),
        }
    }
}

impl Game {
    /// Start a game of the given preset for `player_count` players, with a
    /// fresh random board. `None` when the picture pool cannot fill a
    /// board of that preset.
    pub fn new(size: GameSize, player_count: u32) -> (r: Option<Game>)
        requires
            player_count > 0,
        ensures
            r matches Some(g) ==> {
                &&& g@.wf()
                &&& g@.size == size
                &&& g@.player_count == player_count as int
                &&& g@.next_player == 0
                &&& g@.history == Seq::<(MoveInstruction, MoveResult)>::empty()
                &&& well_paired(cells(g@.board))
            },
    {
        match generate_board(size) {
            None => None,
            Some(board) => {
                proof {
                    crate::types::lemma_dims(size);
                }
                Some(
                    Game {
                        size,
                        player_count,
                        history: Vec::new(),
                        next_player: 0,
                        board,
                    },
                )
            },
        }
    }

    /// The grid of pictures, row by row.
    pub fn board(&self) -> (r: &Vec<Vec<Picture>>)
        ensures
            rows_view(r@) == self@.board,
    {
        &self.board
    }

    /// Every accepted, matched move, oldest first.
    pub fn history(&self) -> (r: &Vec<(MoveInstruction, MoveResult)>)
        ensures
            r@ == self@.history,
    {
        &self.history
    }

    /// Whose turn it is, 0-indexed.
    pub fn next_player(&self) -> (r: u32)
        ensures
            r as int == self@.next_player,
    {
        self.next_player
    }

    /// How many players take part.
    pub fn player_count(&self) -> (r: u32)
        ensures
            r as int == self@.player_count,
    {
        self.player_count
    }

    /// The preset this game was created with.
    pub fn size(&self) -> (r: GameSize)
        ensures
            r == self@.size,
    {
        self.size
    }

    /// Whether the pair of cells would be accepted right now: two distinct
    /// in-bounds cells whose exact pair was never submitted before.
    pub fn is_move_valid(&self, first: Position, second: Position) -> (r: bool)
        ensures
            r == self@.move_valid(first, second),
    {
        if first.0 == second.0 && first.1 == second.1 {
            return false;
        }
        let mut i: usize = 0;
        while i < self.history.len()
            invariant
                i <= self.history@.len(),
                forall|j: int|
                    0 <= j < i ==> !((#[trigger] self.history@[j]).0.first_item == first
                        && self.history@[j].0.second_item == second),
            decreases self.history@.len() - i,
        {
            let entry = &self.history[i];
            if entry.0.first_item.0 == first.0 && entry.0.first_item.1 == first.1
                && entry.0.second_item.0 == second.0 && entry.0.second_item.1 == second.1 {
                proof {
                    let k = i as int;
                    assert(self@.history[k].0.first_item =~= first);
                    assert(self@.history[k].0.second_item =~= second);
                    assert(self@.pair_in_history(first, second));
                }
                return false;
            }
            i += 1;
        }
        let (max_x, max_y) = self.size.into_tuple();
        if first.0 >= max_x || first.1 >= max_y || second.0 >= max_x || second.1 >= max_y {
            return false;
        }
        true
    }

    /// Submit one move and resolve it, exactly as `GameModel::step` says:
    /// a finished game only reports that it is over; a move out of turn or
    /// an invalid pair is rejected without any change; an accepted move
    /// advances the turn pointer and, when the two cells match, appends
    /// the match to the history.
    pub fn play(&mut self, move_instruction: MoveInstruction) -> (r: MoveResult)
        requires
            old(self)@.wf(),
        ensures
            final(self)@ == old(self)@.step(move_instruction).0,
            r == old(self)@.step(move_instruction).1,
            final(self)@.wf(),
    {
        proof {
            crate::types::lemma_dims(self.size);
        }
        let (w, h) = self.size.into_tuple();
        let total: u32 = (w * h) / 2;
        if self.history.len() == total as usize {
            return MoveResult::InvalidMoveGameOver;
        }
        if move_instruction.player_id != self.next_player {
            return MoveResult::InvalidPlayer;
        }
        if !self.is_move_valid(move_instruction.first_item, move_instruction.second_item) {
            return MoveResult::InvalidMove;
        }

        self.next_player = (self.next_player + 1) % self.player_count;

        let (f_x, f_y) = move_instruction.first_item;
        let first_picture = self.board[f_x as usize][f_y as usize].clone();

        let (s_x, s_y) = move_instruction.second_item;
        let second_picture = self.board[s_x as usize][s_y as usize].clone();

        if first_picture.id == second_picture.id {
            let entry = MoveResult::Match {
                first_item: first_picture.clone(),
                second_item: second_picture.clone(),
            };
            self.history.push((move_instruction, entry));
            proof {
                assert(self@ =~= old(self)@.step(move_instruction).0);
            }
            MoveResult::Match { first_item: first_picture, second_item: second_picture }
        } else {
            proof {
                assert(self@ =~= old(self)@.step(move_instruction).0);
            }
            MoveResult::NoMatch { first_item: first_picture, second_item: second_picture }
        }
    }

    /// Whether the cell at `pos` has been permanently revealed by a
    /// recorded match.
    pub fn cell_revealed(&self, pos: Position) -> (r: bool)
        ensures
            r == self@.revealed(pos),
    {
        let mut i: usize = 0;
        while i < self.history.len()
            invariant
                i <= self.history@.len(),
                forall|j: int| 0 <= j < i ==> !entry_reveals(#[trigger] self.history@[j], pos),
            decreases self.history@.len() - i,
        {
            let entry = &self.history[i];
            let covers = (entry.0.first_item.0 == pos.0 && entry.0.first_item.1 == pos.1)
                || (entry.0.second_item.0 == pos.0 && entry.0.second_item.1 == pos.1);
            let is_match = match entry.1 {
                MoveResult::Match { .. } => true,
                _ => false,
            };
            if covers && is_match {
                proof {
                    let k = i as int;
                    if self@.history[k].0.first_item.0 == pos.0 && self@.history[k].0.first_item.1
                        == pos.1 {
                        assert(self@.history[k].0.first_item =~= pos);
                    } else {
                        assert(self@.history[k].0.second_item =~= pos);
                    }
                    assert(entry_reveals(self@.history[k], pos));
                    assert(self@.revealed(pos));
                }
                return true;
            }
            i += 1;
        }
        false
    }
}

} // verus!
