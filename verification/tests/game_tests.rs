use pexeso::Game;
use pexeso::GameSize;
use pexeso::MoveInstruction;
use pexeso::MoveResult;
use pexeso::Position;

fn tiny_game(player_count: u32) -> Game {
    Game::new(GameSize::Tiny, player_count).expect("the pool holds enough pictures")
}

fn mv(player_id: u32, first_item: Position, second_item: Position) -> MoveInstruction {
    MoveInstruction { player_id, first_item, second_item }
}

/// All cell pairs of the board, grouped by picture: one (first, second)
/// entry per picture identifier.
fn matching_pairs(game: &Game) -> Vec<(Position, Position)> {
    let board = game.board();
    let mut seen: Vec<(String, Position)> = Vec::new();
    let mut pairs: Vec<(Position, Position)> = Vec::new();
    for x in 0..board.len() {
        for y in 0..board[x].len() {
            let id = board[x][y].id.clone();
            let pos = (x as u32, y as u32);
            if let Some(i) = seen.iter().position(|(s, _)| *s == id) {
                pairs.push((seen[i].1, pos));
                seen.remove(i);
            } else {
                seen.push((id, pos));
            }
        }
    }
    assert!(seen.is_empty());
    pairs
}

/// Two positions whose pictures differ.
fn mismatched_pair(game: &Game) -> (Position, Position) {
    let board = game.board();
    for y in 1..board[0].len() {
        if board[0][y].id != board[0][0].id {
            return ((0, 0), (0, y as u32));
        }
    }
    unreachable!("a well-paired board cannot repeat one picture on a whole row");
}

#[test]
fn same_cell_is_an_invalid_move() {
    let mut game = tiny_game(1);
    let r = game.play(mv(0, (1, 1), (1, 1)));
    assert!(matches!(r, MoveResult::InvalidMove));
    assert_eq!(game.history().len(), 0);
    assert_eq!(game.next_player(), 0);
}

#[test]
fn out_of_bounds_is_an_invalid_move() {
    let mut game = tiny_game(1);
    let r = game.play(mv(0, (5, 5), (0, 0)));
    assert!(matches!(r, MoveResult::InvalidMove));
    let r = game.play(mv(0, (0, 0), (5, 5)));
    assert!(matches!(r, MoveResult::InvalidMove));
    let r = game.play(mv(0, (0, 4), (0, 0)));
    assert!(matches!(r, MoveResult::InvalidMove));
    assert_eq!(game.history().len(), 0);
    assert_eq!(game.next_player(), 0);
}

#[test]
fn wrong_player_is_rejected_without_any_change() {
    let mut game = tiny_game(2);
    let r = game.play(mv(1, (0, 0), (0, 1)));
    assert!(matches!(r, MoveResult::InvalidPlayer));
    assert_eq!(game.next_player(), 0);
    assert_eq!(game.history().len(), 0);
}

#[test]
fn a_no_match_advances_the_turn_but_leaves_no_trace() {
    let mut game = tiny_game(2);
    let (a, b) = mismatched_pair(&game);
    let r = game.play(mv(0, a, b));
    match r {
        MoveResult::NoMatch { first_item, second_item } => {
            assert_ne!(first_item.id, second_item.id);
        }
        _ => panic!("two different pictures must be a no-match"),
    }
    assert_eq!(game.history().len(), 0);
    assert_eq!(game.next_player(), 1);
}

#[test]
fn a_match_is_recorded_and_reveals_its_cells() {
    let mut game = tiny_game(1);
    let (a, b) = matching_pairs(&game)[0];
    assert!(!game.cell_revealed(a));
    assert!(!game.cell_revealed(b));
    let r = game.play(mv(0, a, b));
    match r {
        MoveResult::Match { first_item, second_item } => {
            assert_eq!(first_item.id, second_item.id);
        }
        _ => panic!("two equal pictures must be a match"),
    }
    assert_eq!(game.history().len(), 1);
    assert!(game.cell_revealed(a));
    assert!(game.cell_revealed(b));
}

#[test]
fn a_resolved_pair_may_not_be_replayed() {
    let mut game = tiny_game(1);
    let (a, b) = matching_pairs(&game)[0];
    assert!(matches!(game.play(mv(0, a, b)), MoveResult::Match { .. }));
    let r = game.play(mv(0, a, b));
    assert!(matches!(r, MoveResult::InvalidMove));
    assert_eq!(game.history().len(), 1);
}

#[test]
fn the_swapped_order_of_a_resolved_pair_is_not_rejected() {
    let mut game = tiny_game(1);
    let (a, b) = matching_pairs(&game)[0];
    assert!(matches!(game.play(mv(0, a, b)), MoveResult::Match { .. }));
    // The history check compares the pair in the submitted order only, so
    // the swapped pair passes validation and matches once more.
    let r = game.play(mv(0, b, a));
    assert!(matches!(r, MoveResult::Match { .. }));
    assert_eq!(game.history().len(), 2);
}

#[test]
fn the_turn_cycles_round_robin() {
    let mut game = tiny_game(3);
    let pairs = matching_pairs(&game);
    assert_eq!(game.next_player(), 0);
    let (a, b) = pairs[0];
    assert!(matches!(game.play(mv(0, a, b)), MoveResult::Match { .. }));
    assert_eq!(game.next_player(), 1);
    let (c, d) = pairs[1];
    assert!(matches!(game.play(mv(1, c, d)), MoveResult::Match { .. }));
    assert_eq!(game.next_player(), 2);
    let (e, f) = pairs[2];
    assert!(matches!(game.play(mv(2, e, f)), MoveResult::Match { .. }));
    assert_eq!(game.next_player(), 0);
}

#[test]
fn a_full_game_ends_and_stays_over() {
    let mut game = tiny_game(1);
    let pairs = matching_pairs(&game);
    assert_eq!(pairs.len(), 8);
    for (i, (a, b)) in pairs.iter().enumerate() {
        let r = game.play(mv(0, *a, *b));
        assert!(matches!(r, MoveResult::Match { .. }));
        assert_eq!(game.history().len(), i + 1);
    }
    for x in 0..4u32 {
        for y in 0..4u32 {
            assert!(game.cell_revealed((x, y)));
        }
    }
    let r = game.play(mv(0, (0, 0), (0, 1)));
    assert!(matches!(r, MoveResult::InvalidMoveGameOver));
    let r = game.play(mv(0, (3, 3), (2, 2)));
    assert!(matches!(r, MoveResult::InvalidMoveGameOver));
    assert_eq!(game.history().len(), 8);
}

#[test]
fn the_board_getters_agree_with_the_preset() {
    let game = tiny_game(1);
    assert!(matches!(game.size(), GameSize::Tiny));
    assert_eq!(game.player_count(), 1);
    assert_eq!(game.board().len(), 4);
    for row in game.board() {
        assert_eq!(row.len(), 4);
    }
}
