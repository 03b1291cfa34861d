use othello_rs::{OthelloBoard, PlacementError};

fn all_squares(board: &OthelloBoard) -> Vec<Option<u8>> {
    let mut cells = Vec::new();
    for rank in 0..8 {
        for file in 0..8 {
            cells.push(board.get_piece_at(rank, file));
        }
    }
    cells
}

#[test]
fn new_board_holds_the_four_centre_pieces() {
    let board = OthelloBoard::new();
    assert_eq!(board.get_piece_at(3, 3), Some(1));
    assert_eq!(board.get_piece_at(3, 4), Some(0));
    assert_eq!(board.get_piece_at(4, 3), Some(0));
    assert_eq!(board.get_piece_at(4, 4), Some(1));
    assert_eq!(board.count_pieces(), (2, 2));
    assert_eq!(board.get_piece_at(0, 0), None);
}

#[test]
fn empty_board_has_no_piece() {
    let board = OthelloBoard::empty();
    assert!(all_squares(&board).iter().all(|c| c.is_none()));
    assert_eq!(board.count_pieces(), (0, 0));
}

#[test]
fn placing_on_every_square_of_an_empty_board_adds_one_piece() {
    for player in 0..2u8 {
        for rank in 0..8 {
            for file in 0..8 {
                let mut board = OthelloBoard::empty();
                let flipped = board.set_piece(rank, file, player).unwrap();
                assert!(flipped.is_empty());
                assert_eq!(board.get_piece_at(rank, file), Some(player));
                let expected = if player == 0 { (1, 0) } else { (0, 1) };
                assert_eq!(board.count_pieces(), expected);
            }
        }
    }
}

#[test]
fn placing_on_an_occupied_square_fails_and_changes_nothing() {
    let mut board = OthelloBoard::new();
    let before = all_squares(&board);
    assert_eq!(board.set_piece(3, 3, 0), Err(PlacementError::OccupiedSquare));
    assert_eq!(board.set_piece(4, 3, 1), Err(PlacementError::OccupiedSquare));
    assert_eq!(all_squares(&board), before);
    board.revert_to_last_state();
    assert_eq!(all_squares(&board), before);
}

#[test]
fn placing_out_of_bounds_fails() {
    let mut board = OthelloBoard::new();
    assert_eq!(board.set_piece(8, 0, 0), Err(PlacementError::OutOfBounds));
    assert_eq!(board.set_piece(0, 8, 1), Err(PlacementError::OutOfBounds));
    assert_eq!(board.set_piece(100, 100, 0), Err(PlacementError::OutOfBounds));
    assert_eq!(board.count_pieces(), (2, 2));
}

#[test]
fn host_opening_move_flips_the_flanked_piece() {
    let mut board = OthelloBoard::new();
    let flipped = board.set_piece(2, 3, 0).unwrap();
    assert_eq!(flipped, vec![(3, 3)]);
    assert_eq!(board.get_piece_at(2, 3), Some(0));
    assert_eq!(board.get_piece_at(3, 3), Some(0));
    assert_eq!(board.count_pieces(), (4, 1));
}

#[test]
fn diagonal_ray_captures() {
    let mut board = OthelloBoard::empty();
    board.set_piece(3, 3, 1).unwrap();
    assert!(board.set_piece(4, 4, 0).unwrap().is_empty());
    let flipped = board.set_piece(2, 2, 0).unwrap();
    assert_eq!(flipped, vec![(3, 3)]);
    assert_eq!(board.get_piece_at(3, 3), Some(0));
    assert_eq!(board.count_pieces(), (3, 0));
}

#[test]
fn all_eight_directions_capture_at_once() {
    let mut board = OthelloBoard::empty();
    // player 0 stands two steps out from (3, 3) on every ray, player 1 rings it
    let rays = [(-1i64, -1i64), (-1, 0), (-1, 1), (0, -1), (0, 1), (1, -1), (1, 0), (1, 1)];
    for (dr, df) in rays {
        board.set_piece((3 + 2 * dr) as usize, (3 + 2 * df) as usize, 0).unwrap();
    }
    for (dr, df) in rays {
        assert!(board.set_piece((3 + dr) as usize, (3 + df) as usize, 1).unwrap().is_empty());
    }
    assert_eq!(board.count_pieces(), (8, 8));
    let flipped = board.set_piece(3, 3, 0).unwrap();
    assert_eq!(
        flipped,
        vec![(2, 2), (2, 3), (2, 4), (3, 2), (3, 4), (4, 2), (4, 3), (4, 4)]
    );
    assert_eq!(board.count_pieces(), (17, 0));
}

#[test]
fn long_run_is_captured_whole() {
    let mut board = OthelloBoard::empty();
    for file in 1..6 {
        board.set_piece(0, file, 1).unwrap();
    }
    board.set_piece(0, 6, 0).unwrap();
    let flipped = board.set_piece(0, 0, 0).unwrap();
    assert_eq!(flipped, vec![(0, 1), (0, 2), (0, 3), (0, 4), (0, 5)]);
    assert_eq!(board.count_pieces(), (7, 0));
}

#[test]
fn run_ending_at_the_edge_is_not_captured() {
    let mut board = OthelloBoard::empty();
    for file in 1..8 {
        board.set_piece(0, file, 1).unwrap();
    }
    assert!(board.set_piece(0, 0, 0).unwrap().is_empty());
    assert_eq!(board.count_pieces(), (1, 7));
}

#[test]
fn run_ending_at_an_empty_square_is_not_captured() {
    let mut board = OthelloBoard::empty();
    board.set_piece(0, 1, 1).unwrap();
    board.set_piece(0, 3, 0).unwrap();
    assert!(board.set_piece(0, 0, 0).unwrap().is_empty());
    assert_eq!(board.get_piece_at(0, 1), Some(1));
}

#[test]
fn same_colour_neighbour_flips_nothing() {
    let mut board = OthelloBoard::empty();
    board.set_piece(0, 1, 0).unwrap();
    board.set_piece(0, 2, 0).unwrap();
    assert!(board.set_piece(0, 0, 0).unwrap().is_empty());
    assert_eq!(board.count_pieces(), (3, 0));
}

#[test]
fn revert_restores_the_grid_before_the_last_placement() {
    let mut board = OthelloBoard::new();
    let start = all_squares(&board);
    board.set_piece(2, 3, 0).unwrap();
    let after_first = all_squares(&board);
    board.set_piece(2, 2, 1).unwrap();
    board.revert_to_last_state();
    assert_eq!(all_squares(&board), after_first);
    board.revert_to_last_state();
    assert_eq!(all_squares(&board), after_first);
    assert_ne!(after_first, start);
}

#[test]
fn placement_error_messages() {
    assert_eq!(
        PlacementError::OccupiedSquare.message(),
        "There already is a piece at the given position. Pieces must be placed on empty squares."
    );
    assert!(PlacementError::OutOfBounds.message().starts_with("Invalid piece position given."));
}
