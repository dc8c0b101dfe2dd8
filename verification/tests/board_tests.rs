use tictactoe::board::{Board, BoardCell, BoardError};

#[test]
fn cell_ids_round_trip() {
    for cell in [BoardCell::Empty, BoardCell::X, BoardCell::O] {
        assert_eq!(BoardCell::from_usize(cell.to_usize()), Ok(cell));
    }
    assert_eq!(BoardCell::Empty.to_usize(), 0);
    assert_eq!(BoardCell::X.to_usize(), 1);
    assert_eq!(BoardCell::O.to_usize(), 2);
}

#[test]
fn bad_cell_id_is_refused() {
    assert_eq!(BoardCell::from_usize(3), Err(BoardError::BadCellId { id: 3 }));
    assert_eq!(BoardCell::from_usize(usize::MAX), Err(BoardError::BadCellId { id: usize::MAX }));
}

#[test]
fn default_cell_is_empty() {
    assert_eq!(BoardCell::default(), BoardCell::Empty);
}

#[test]
fn new_board_is_empty() {
    let board = Board::new(3, 4);
    assert_eq!(board.width, 3);
    assert_eq!(board.height, 4);
    assert_eq!(board.teams, 2);
    assert!(board.cells.is_empty());
    for y in 0..6 {
        for x in 0..6 {
            assert_eq!(board.get(x, y), BoardCell::Empty);
            assert!(!board.occupied(x, y));
        }
    }
}

#[test]
fn get_gives_back_what_put_wrote() {
    let mut board = Board::new(3, 3);
    assert_eq!(board.put(2, 1, BoardCell::O), Ok(()));
    assert_eq!(board.get(2, 1), BoardCell::O);
    assert!(board.occupied(2, 1));
    assert_eq!(board.get(1, 1), BoardCell::Empty);
    assert_eq!(board.get(2, 0), BoardCell::Empty);
    assert_eq!(board.put(2, 1, BoardCell::X), Ok(()));
    assert_eq!(board.get(2, 1), BoardCell::X);
}

#[test]
fn put_stores_the_rows_and_squares_before_it() {
    let mut board = Board::new(3, 3);
    assert_eq!(board.put(1, 2, BoardCell::X), Ok(()));
    assert_eq!(board.cells.len(), 3);
    assert!(board.cells[0].is_empty());
    assert!(board.cells[1].is_empty());
    assert_eq!(board.cells[2], vec![BoardCell::Empty, BoardCell::X]);
    assert_eq!(board.put(0, 0, BoardCell::O), Ok(()));
    assert_eq!(board.cells[0], vec![BoardCell::O]);
    assert_eq!(board.cells.len(), 3);
}

#[test]
fn put_outside_the_board_is_refused() {
    let mut board = Board::new(3, 2);
    assert_eq!(board.put(3, 0, BoardCell::X), Err(BoardError::OutOfBounds));
    assert_eq!(board.put(0, 2, BoardCell::X), Err(BoardError::OutOfBounds));
    assert!(board.cells.is_empty());
    let mut none = Board::new(0, 0);
    assert_eq!(none.put(0, 0, BoardCell::X), Err(BoardError::OutOfBounds));
}

#[test]
fn a_grown_board_takes_new_squares() {
    let mut board = Board::new(0, 0);
    board.width = 2;
    board.height = 2;
    assert_eq!(board.put(1, 1, BoardCell::O), Ok(()));
    assert_eq!(board.get(1, 1), BoardCell::O);
}
