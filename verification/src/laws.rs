//! The laws of the move state machine, proved once and for all over
//! `GameModel::step`, which `Game::play` implements exactly.

use vstd::prelude::*;
use crate::game::GameModel;
use crate::types::{MoveInstruction, MoveResult};

verus! {

/// A move whose two cells are the same cell is rejected as an invalid
/// move and changes nothing, whatever the board holds — here stated for a
/// running game whose turn the mover holds, since a finished game and a
/// move out of turn are reported ahead of the validity check.
pub proof fn lemma_same_cell_invalid(g: GameModel, m: MoveInstruction)
    requires
        !g.game_over(),
        m.player_id as int == g.next_player,
        m.first_item == m.second_item,
    ensures
        g.step(m).1 == MoveResult::InvalidMove,
        g.step(m).0 == g,
{
}

/// A move from a player other than `next_player` is rejected as an
/// invalid player and changes nothing: in particular the turn pointer and
/// the history stay as they were. Stated for a running game, since a
/// finished game answers that it is over before looking at the player.
pub proof fn lemma_wrong_player_rejected(g: GameModel, m: MoveInstruction)
    requires
        !g.game_over(),
        m.player_id as int != g.next_player,
    ensures
        g.step(m).1 == MoveResult::InvalidPlayer,
        g.step(m).0 == g,
        g.step(m).0.next_player == g.next_player,
        g.step(m).0.history == g.history,
{
}

/// Resubmitting a pair of positions that already stands in the history,
/// in the same order, is rejected as an invalid move and changes nothing
/// — whether the earlier submission matched or not. Stated for a running
/// game whose turn the mover holds.
pub proof fn lemma_replayed_pair_invalid(g: GameModel, m: MoveInstruction)
    requires
        !g.game_over(),
        m.player_id as int == g.next_player,
        g.pair_in_history(m.first_item, m.second_item),
    ensures
        g.step(m).1 == MoveResult::InvalidMove,
        g.step(m).0 == g,
{
}

/// Once the history holds one match per pair of the board, the game is
/// over: every further move, from any player and with any positions, is
/// answered with `InvalidMoveGameOver` and changes nothing — so the
/// terminal state is idempotent.
pub proof fn lemma_game_over_idempotent(g: GameModel, m: MoveInstruction)
    requires
        g.game_over(),
    ensures
        g.step(m).1 == MoveResult::InvalidMoveGameOver,
        g.step(m).0 == g,
        g.step(m).0.game_over(),
{
}

/// Every accepted move — one resolved as a match or as a no-match —
/// advances the turn pointer by one, modulo the player count, whatever
/// the outcome was.
pub proof fn lemma_turn_advances(g: GameModel, m: MoveInstruction)
    requires
        g.step(m).1 is Match || g.step(m).1 is NoMatch,
    ensures
        g.step(m).0.next_player == (g.next_player + 1) % g.player_count,
{
}

/// A rejected move — for the player, the pair, or a finished game —
/// changes nothing at all.
pub proof fn lemma_rejection_changes_nothing(g: GameModel, m: MoveInstruction)
    requires
        g.step(m).1 is InvalidMove || g.step(m).1 is InvalidPlayer || g.step(m).1
            is InvalidMoveGameOver,
    ensures
        g.step(m).0 == g,
{
}

/// The state invariants survive every move: the turn pointer stays inside
/// the player range, the board keeps its dimensions, and the history
/// never grows past the board's pair count.
pub proof fn lemma_step_preserves_wf(g: GameModel, m: MoveInstruction)
    requires
        g.wf(),
    ensures
        g.step(m).0.wf(),
{
}

} // verus!
