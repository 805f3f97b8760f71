use std::collections::HashMap;

use pexeso::board_from_pool;
use pexeso::generate_board;
use pexeso::GameSize;
use pexeso::Picture;

fn id_counts(board: &Vec<Vec<Picture>>) -> HashMap<String, usize> {
    let mut counts: HashMap<String, usize> = HashMap::new();
    for row in board {
        for cell in row {
            *counts.entry(cell.id.clone()).or_insert(0) += 1;
        }
    }
    counts
}

fn assert_well_paired(board: &Vec<Vec<Picture>>, width: usize, height: usize) {
    assert_eq!(board.len(), width);
    for row in board {
        assert_eq!(row.len(), height);
    }
    let counts = id_counts(board);
    assert_eq!(counts.len(), width * height / 2);
    for (_, n) in counts {
        assert_eq!(n, 2);
    }
}

#[test]
fn into_tuple_gives_preset_dimensions() {
    assert_eq!(GameSize::Tiny.into_tuple(), (4, 4));
    assert_eq!(GameSize::Small.into_tuple(), (8, 8));
    assert_eq!(GameSize::Medium.into_tuple(), (16, 16));
    assert_eq!(GameSize::Large.into_tuple(), (32, 32));
}

#[test]
fn generated_tiny_board_is_well_paired() {
    let board = generate_board(GameSize::Tiny).expect("the pool holds enough pictures");
    assert_well_paired(&board, 4, 4);
}

#[test]
fn generated_small_board_is_well_paired() {
    let board = generate_board(GameSize::Small).expect("the pool holds enough pictures");
    assert_well_paired(&board, 8, 8);
}

#[test]
fn generated_medium_board_is_well_paired() {
    let board = generate_board(GameSize::Medium).expect("the pool holds enough pictures");
    assert_well_paired(&board, 16, 16);
}

#[test]
fn large_board_needs_more_pictures_than_the_pool_has() {
    assert!(generate_board(GameSize::Large).is_none());
}

fn pool_of(ids: &[&str]) -> Vec<Picture> {
    ids.iter().map(|id| Picture { id: id.to_string() }).collect()
}

#[test]
fn board_from_pool_drops_duplicates_and_pairs_the_rest() {
    let pool = pool_of(&[
        "apple", "pear", "apple", "plum", "fig", "pear", "lime", "kiwi", "date", "sloe",
    ]);
    let board = board_from_pool(GameSize::Tiny, &pool).expect("eight distinct identifiers");
    assert_well_paired(&board, 4, 4);
    let counts = id_counts(&board);
    for id in ["apple", "pear", "plum", "fig", "lime", "kiwi", "date", "sloe"] {
        assert_eq!(counts.get(id), Some(&2));
    }
}

#[test]
fn board_from_pool_rejects_too_small_a_pool() {
    let pool = pool_of(&["apple", "pear", "apple", "plum", "fig", "pear", "lime"]);
    assert!(board_from_pool(GameSize::Tiny, &pool).is_none());
}

#[test]
fn board_from_pool_takes_the_first_distinct_identifiers() {
    let pool = pool_of(&[
        "apple", "pear", "plum", "fig", "lime", "kiwi", "date", "sloe", "corn", "taco",
    ]);
    let board = board_from_pool(GameSize::Tiny, &pool).expect("enough distinct identifiers");
    let counts = id_counts(&board);
    assert_eq!(counts.get("corn"), None);
    assert_eq!(counts.get("taco"), None);
    assert_eq!(counts.get("apple"), Some(&2));
    assert_eq!(counts.get("sloe"), Some(&2));
}
