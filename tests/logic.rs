use std::ops::Rem;

use game_of_life::board::{Board, Cell};
use game_of_life::logic::{count_live_neighbours, next_state, resize};

#[test]
fn rem_check() {
    let x = 12;
    let x = x.rem(10);
    assert_eq!(x, 2);

    let x = 3;
    let x = x.rem(10);
    assert_eq!(x, 3);

    let x = -3i32;
    let x = x.rem_euclid(10);
    assert_eq!(x, 10 - 3);
}

fn board_with(width: usize, height: usize, live: &[(usize, usize)]) -> Board {
    let mut board = Board::new(width, height);
    for &p in live {
        board.set(p, Cell::Alive);
    }
    board
}

fn live_cells(board: &Board) -> Vec<(usize, usize)> {
    let mut out = Vec::new();
    for y in 0..board.height() {
        for x in 0..board.width() {
            if board.get((x, y)).is_alive() {
                out.push((x, y));
            }
        }
    }
    out
}

#[test]
fn single_cell_counts_on_torus() {
    let board = board_with(3, 3, &[(0, 0)]);
    let wrapped = [(2, 2), (2, 0), (2, 1), (0, 2), (0, 1), (1, 2), (1, 0), (1, 1)];
    for &p in wrapped.iter() {
        assert_eq!(count_live_neighbours(&board, p), 1);
    }
    assert_eq!(count_live_neighbours(&board, (0, 0)), 0);
}

#[test]
fn full_three_by_three_counts_eight() {
    let mut live = Vec::new();
    for x in 0..3 {
        for y in 0..3 {
            live.push((x, y));
        }
    }
    let board = board_with(3, 3, &live);
    for &p in live.iter() {
        assert_eq!(count_live_neighbours(&board, p), 8);
    }
}

#[test]
fn block_is_still_life() {
    let mut board = board_with(4, 4, &[(1, 1), (2, 1), (1, 2), (2, 2)]);
    let before = board.clone();
    let changed = next_state(&mut board);
    assert!(!changed);
    assert_eq!(board, before);
}

#[test]
fn block_on_larger_board_is_still_life() {
    let mut board = board_with(6, 5, &[(0, 0), (1, 0), (0, 1), (1, 1)]);
    let before = board.clone();
    assert!(!next_state(&mut board));
    assert_eq!(board, before);
}

#[test]
fn blinker_oscillates() {
    let mut board = board_with(5, 5, &[(1, 2), (2, 2), (3, 2)]);
    assert!(next_state(&mut board));
    assert_eq!(live_cells(&board), vec![(2, 1), (2, 2), (2, 3)]);
    assert!(next_state(&mut board));
    assert_eq!(live_cells(&board), vec![(1, 2), (2, 2), (3, 2)]);
}

#[test]
fn blinker_marks_births_and_deaths() {
    let mut board = board_with(5, 5, &[(1, 2), (2, 2), (3, 2)]);
    next_state(&mut board);
    assert_eq!(board.get((2, 1)), Cell::Born);
    assert_eq!(board.get((2, 2)), Cell::Alive);
    assert_eq!(board.get((1, 2)), Cell::Died);
    assert_eq!(board.get((0, 0)), Cell::Dead);
}

#[test]
fn still_life_stays_unchanged() {
    let mut board = board_with(5, 5, &[(2, 2), (3, 2), (2, 3), (3, 3)]);
    let first = board.clone();
    for _ in 0..4 {
        assert!(!next_state(&mut board));
        assert_eq!(board, first);
    }
}

#[test]
fn lonely_cell_dies() {
    let mut board = board_with(4, 4, &[(1, 1)]);
    assert!(next_state(&mut board));
    assert_eq!(board.get((1, 1)), Cell::Died);
    assert!(live_cells(&board).is_empty());
    assert!(!next_state(&mut board));
}

#[test]
fn crowded_cell_dies() {
    let mut board = board_with(5, 5, &[(2, 2), (1, 2), (3, 2), (2, 1), (2, 3)]);
    next_state(&mut board);
    assert_eq!(board.get((2, 2)), Cell::Died);
}

#[test]
fn birth_across_the_edge() {
    let mut board = board_with(5, 5, &[(4, 0), (4, 1), (4, 2)]);
    next_state(&mut board);
    assert_eq!(board.get((0, 1)), Cell::Born);
    assert_eq!(board.get((3, 1)), Cell::Born);
}

#[test]
fn resize_keeps_cells_inside() {
    let mut board = board_with(4, 4, &[(0, 0), (1, 2), (3, 3), (2, 1)]);
    resize(&mut board, 3, 3);
    assert_eq!(board.width(), 3);
    assert_eq!(board.height(), 3);
    assert_eq!(live_cells(&board), vec![(0, 0), (2, 1), (1, 2)]);
    assert_eq!(board.get((0, 0)), Cell::Born);
    assert_eq!(board.get((1, 1)), Cell::Dead);
}

#[test]
fn resize_to_larger_board() {
    let mut board = board_with(2, 2, &[(1, 1)]);
    resize(&mut board, 5, 3);
    assert_eq!(board.width(), 5);
    assert_eq!(board.height(), 3);
    assert_eq!(live_cells(&board), vec![(1, 1)]);
    assert!(next_state(&mut board));
    assert!(live_cells(&board).is_empty());
}

#[test]
fn resize_drops_dead_marks() {
    let mut board = board_with(3, 3, &[]);
    board.set((1, 1), Cell::Died);
    resize(&mut board, 3, 3);
    assert_eq!(board.get((1, 1)), Cell::Dead);
}

#[test]
fn marks_last_one_generation() {
    let mut board = board_with(5, 5, &[(1, 2), (2, 2), (3, 2)]);
    next_state(&mut board);
    next_state(&mut board);
    assert_eq!(board.get((1, 2)), Cell::Born);
    assert_eq!(board.get((2, 2)), Cell::Alive);
    assert_eq!(board.get((2, 1)), Cell::Died);
    assert_eq!(board.get((0, 0)), Cell::Dead);
}

#[test]
fn surviving_born_cell_becomes_alive() {
    let mut board = Board::new(4, 4);
    board.set((1, 1), Cell::Born);
    board.set((2, 1), Cell::Born);
    board.set((1, 2), Cell::Alive);
    board.set((2, 2), Cell::Alive);
    board.set((3, 3), Cell::Died);
    assert!(!next_state(&mut board));
    assert_eq!(board.get((1, 1)), Cell::Alive);
    assert_eq!(board.get((2, 1)), Cell::Alive);
    assert_eq!(board.get((3, 3)), Cell::Dead);
    let settled = board.clone();
    assert!(!next_state(&mut board));
    assert_eq!(board, settled);
}

#[test]
fn block_across_corner_is_still_life() {
    let mut board = board_with(5, 4, &[(4, 3), (0, 3), (4, 0), (0, 0)]);
    let before = board.clone();
    assert!(!next_state(&mut board));
    assert_eq!(board, before);
}
