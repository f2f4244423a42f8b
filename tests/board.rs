use game_of_life::board::{Board, Cell, Entry};

#[test]
fn create_board() {
    let board = Board::new(5, 8);
    assert_eq!(board.width(), 5);
    assert_eq!(board.height(), 8);
}

#[test]
fn board_index() {
    let mut board = Board::new(2, 2);
    board.set((1, 1), Cell::Alive);
    assert_eq!(Cell::Alive, board.get((1, 1)));
    assert_eq!(Cell::Dead, board.get((1, 0)));
}

#[test]
fn iterator() {
    let mut board = Board::new(2, 2);
    board.set((0, 0), Cell::Alive);
    board.set((0, 1), Cell::Alive);
    let mut str = String::new();
    let mut entries = board.iter();
    while let Some(entry) = entries.next() {
        str.push_str(entry.cell().to_string().as_str());
    }
    assert_eq!("OOXX", str);
}

#[test]
fn cell_flip() {
    let mut cell = Cell::Alive;
    cell.flip();
    assert_eq!(cell, Cell::Died);
    cell.flip();
    assert_eq!(cell, Cell::Born);
}

#[test]
fn new_board_is_all_dead() {
    let board = Board::new(5, 8);
    for x in 0..5 {
        for y in 0..8 {
            assert_eq!(board.get((x, y)), Cell::Dead);
        }
    }
}

#[test]
fn one_by_one_board() {
    let board = Board::new(1, 1);
    assert_eq!(board.width(), 1);
    assert_eq!(board.height(), 1);
    assert_eq!(board.get((0, 0)), Cell::Dead);
}

#[test]
fn check_index_bounds() {
    let board = Board::new(3, 2);
    assert!(board.check_index((0, 0)));
    assert!(board.check_index((2, 1)));
    assert!(!board.check_index((3, 0)));
    assert!(!board.check_index((0, 2)));
    assert!(!board.check_index((1, 3)));
}

#[test]
fn set_leaves_other_cells() {
    let mut board = Board::new(3, 3);
    board.set((2, 1), Cell::Born);
    assert_eq!(board.get((2, 1)), Cell::Born);
    assert_eq!(board.get((1, 2)), Cell::Dead);
    assert_eq!(board.get((1, 1)), Cell::Dead);
}

#[test]
fn toggle_flips_liveness() {
    let mut board = Board::new(2, 3);
    board.toggle((1, 2));
    assert_eq!(board.get((1, 2)), Cell::Born);
    board.toggle((1, 2));
    assert_eq!(board.get((1, 2)), Cell::Died);
}

#[test]
fn liveness_of_each_state() {
    assert!(Cell::Alive.is_alive());
    assert!(Cell::Born.is_alive());
    assert!(!Cell::Dead.is_alive());
    assert!(!Cell::Died.is_alive());
}

#[test]
fn flip_dead_states() {
    let mut cell = Cell::Dead;
    cell.flip();
    assert_eq!(cell, Cell::Born);
    let mut cell = Cell::Died;
    cell.flip();
    assert_eq!(cell, Cell::Born);
    let mut cell = Cell::Born;
    cell.flip();
    assert_eq!(cell, Cell::Died);
}

#[test]
fn cell_letters() {
    assert_eq!(Cell::Dead.to_string(), "X");
    assert_eq!(Cell::Alive.to_string(), "O");
    assert_eq!(Cell::Died.to_string(), "x");
    assert_eq!(Cell::Born.to_string(), "o");
    assert_eq!(char::from(Cell::Dead), 'X');
    assert_eq!(char::from(Cell::Alive), 'O');
    assert_eq!(char::from(Cell::Died), 'x');
    assert_eq!(char::from(Cell::Born), 'o');
}

#[test]
fn board_text() {
    let mut board = Board::new(3, 2);
    board.set((0, 0), Cell::Alive);
    board.set((2, 1), Cell::Born);
    board.set((1, 1), Cell::Died);
    assert_eq!(board.to_string(), "Board: \nOXX\nXxo\n");
}

#[test]
fn iterator_visits_column_by_column() {
    let mut board = Board::new(2, 3);
    board.set((1, 0), Cell::Alive);
    let mut entries = board.iter();
    let mut seen = Vec::new();
    while let Some(entry) = entries.next() {
        seen.push((entry.x(), entry.y(), entry.cell()));
    }
    assert_eq!(
        seen,
        vec![
            (0, 0, Cell::Dead),
            (0, 1, Cell::Dead),
            (0, 2, Cell::Dead),
            (1, 0, Cell::Alive),
            (1, 1, Cell::Dead),
            (1, 2, Cell::Dead),
        ]
    );
    assert!(entries.next().is_none());
}

#[test]
fn iterator_restarts() {
    let board = Board::new(2, 2);
    let mut first = board.iter();
    let mut n = 0;
    while first.next().is_some() {
        n += 1;
    }
    let mut second = board.iter();
    let mut m = 0;
    while second.next().is_some() {
        m += 1;
    }
    assert_eq!(n, 4);
    assert_eq!(m, 4);
}

#[test]
fn entry_accessors() {
    let entry = Entry::new(Cell::Born, (4, 7));
    assert_eq!(entry.cell(), Cell::Born);
    assert_eq!(entry.index(), (4, 7));
    assert_eq!(entry.x(), 4);
    assert_eq!(entry.y(), 7);
}
