use peg_solitaire::{
    Board, Cell, ShapeError, ASYMETRIC_BOARD, ENGLISH_BOARD, EUROPEAN_BOARD, WIEGLEB_BOARD,
};

fn board(shape: &str) -> Board {
    Board::new(shape).expect("a well-formed shape")
}

#[test]
fn english_board_dimensions_and_pegs() {
    let b = board(ENGLISH_BOARD);
    assert_eq!(b.width(), 7);
    assert_eq!(b.height(), 7);
    assert_eq!(b.count_peg(), 32);
    assert_eq!(b.get_cell(3, 3), Cell::Hole);
    assert_eq!(b.get_cell(0, 0), Cell::Unusable);
    assert_eq!(b.get_cell(3, 0), Cell::Peg);
}

#[test]
fn other_presets_dimensions_and_pegs() {
    let b = board(EUROPEAN_BOARD);
    assert_eq!((b.width(), b.height(), b.count_peg()), (7, 7, 36));
    let b = board(WIEGLEB_BOARD);
    assert_eq!((b.width(), b.height(), b.count_peg()), (9, 9, 44));
    assert_eq!(b.get_cell(4, 4), Cell::Hole);
    let b = board(ASYMETRIC_BOARD);
    assert_eq!((b.width(), b.height(), b.count_peg()), (8, 8, 38));
}

#[test]
fn construction_counts_each_x() {
    let b = board("XOX\nO X");
    assert_eq!(b.width(), 3);
    assert_eq!(b.height(), 2);
    assert_eq!(b.count_peg(), 3);
}

#[test]
fn empty_shape_is_one_empty_line() {
    let b = board("");
    assert_eq!(b.width(), 0);
    assert_eq!(b.height(), 1);
    assert_eq!(b.count_peg(), 0);
    assert!(!b.has_valid_move_left());
}

#[test]
fn cells_are_addressed_row_plus_column_times_height() {
    // Stored in reading order: X O X O ' ' X
    let b = board("XOX\nO X");
    assert_eq!(b.get_index(0, 0), 0);
    assert_eq!(b.get_index(1, 0), 1);
    assert_eq!(b.get_index(1, 1), 3);
    assert_eq!(b.get_index(2, 1), 4);
    assert_eq!(b.get_cell(1, 0), Cell::Hole);
    assert_eq!(b.get_cell(0, 1), Cell::Peg);
    assert_eq!(b.get_cell(1, 1), Cell::Hole);
    assert_eq!(b.get_cell(2, 1), Cell::Unusable);
}

#[test]
fn shorter_line_is_inconsistent_width() {
    assert_eq!(Board::new("XXX\nXX\nXXX").err(), Some(ShapeError::InconsistentWidth));
}

#[test]
fn longer_line_is_inconsistent_width() {
    assert_eq!(Board::new("XX\nXXX").err(), Some(ShapeError::InconsistentWidth));
}

#[test]
fn trailing_line_break_is_inconsistent_width() {
    assert_eq!(Board::new("XXX\nXXX\n").err(), Some(ShapeError::InconsistentWidth));
}

#[test]
fn empty_first_line_is_inconsistent_width() {
    assert_eq!(Board::new("\nXX\nXX").err(), Some(ShapeError::InconsistentWidth));
}

#[test]
fn unknown_symbol_is_invalid() {
    assert_eq!(Board::new("XXX\nXYX\nXXX").err(), Some(ShapeError::InvalidSymbol));
    assert_eq!(Board::new("Y").err(), Some(ShapeError::InvalidSymbol));
}

#[test]
fn width_is_checked_before_symbols() {
    assert_eq!(Board::new("XYX\nXX").err(), Some(ShapeError::InconsistentWidth));
}

#[test]
fn legal_jumps_in_four_directions() {
    let b = board("XXOXX\nXXXXX\nOXXXX\nXXXXX\nXXXXO");
    // Along the first coordinate, on line 0: (0,0) over (1,0) into (2,0), and back from (4,0).
    assert!(b.is_valid_move((0, 0), (2, 0)));
    assert!(b.is_valid_move((4, 0), (2, 0)));
    // Along the second coordinate: (0,0) over (0,1) into (0,2), and up from (0,4).
    assert!(b.is_valid_move((0, 0), (0, 2)));
    assert!(b.is_valid_move((0, 4), (0, 2)));
}

#[test]
fn illegal_moves_are_refused() {
    let b = board("XXOXX\nXXXXX\nOXXXX\nXXXXX\nXXXXO");
    // Diagonal.
    assert!(!b.is_valid_move((2, 2), (4, 4)));
    // Distance one and three.
    assert!(!b.is_valid_move((1, 0), (2, 0)));
    assert!(!b.is_valid_move((3, 2), (0, 2)));
    // Source is a hole.
    assert!(!b.is_valid_move((2, 0), (0, 0)));
    // Destination is a peg.
    assert!(!b.is_valid_move((0, 1), (2, 1)));
    // Same position.
    assert!(!b.is_valid_move((1, 1), (1, 1)));
}

#[test]
fn jump_over_hole_is_refused() {
    let b = board("XOO");
    assert!(!b.is_valid_move((0, 0), (2, 0)));
}

#[test]
fn out_of_range_moves_are_refused() {
    let b = board("XXO");
    assert!(b.is_valid_move((0, 0), (2, 0)));
    assert!(!b.is_valid_move((1, 0), (3, 0)));
    assert!(!b.is_valid_move((5, 0), (3, 0)));
    assert!(!b.is_valid_move((0, 0), (0, 2)));
    assert!(!b.is_valid_move((u32::MAX, 0), (u32::MAX - 2, 0)));
    assert!(!b.is_valid_move((0, u32::MAX), (0, u32::MAX - 2)));
}

#[test]
fn move_updates_three_cells_and_removes_one_peg() {
    let mut b = board(ENGLISH_BOARD);
    assert!(b.is_valid_move((1, 3), (3, 3)));
    b.make_move((1, 3), (3, 3));
    assert_eq!(b.get_cell(3, 3), Cell::Peg);
    assert_eq!(b.get_cell(1, 3), Cell::Hole);
    assert_eq!(b.get_cell(2, 3), Cell::Hole);
    assert_eq!(b.count_peg(), 31);
    assert_eq!((b.width(), b.height()), (7, 7));
}

#[test]
fn move_backwards_along_second_coordinate() {
    let mut b = board("OOO\nXOO\nXOO");
    assert!(b.is_valid_move((0, 2), (0, 0)));
    b.make_move((0, 2), (0, 0));
    assert_eq!(b.get_cell(0, 0), Cell::Peg);
    assert_eq!(b.get_cell(0, 1), Cell::Hole);
    assert_eq!(b.get_cell(0, 2), Cell::Hole);
    assert_eq!(b.count_peg(), 1);
    assert!(!b.has_valid_move_left());
}

#[test]
fn position_past_the_buffer_is_refused() {
    // One column, three lines: (0, 2) is kept at 0 + 2 * 3, past the three cells.
    let b = board("O\nX\nX");
    assert!(!b.is_valid_move((0, 2), (0, 0)));
    assert!(!b.has_valid_move_left());
}

#[test]
fn single_peg_has_no_move() {
    let b = board("OOO\nOXO\nOOO");
    assert_eq!(b.count_peg(), 1);
    assert!(!b.has_valid_move_left());
}

#[test]
fn scattered_pegs_have_no_move() {
    let b = board("XOX\nOOO\nXOX");
    assert_eq!(b.count_peg(), 4);
    assert!(!b.has_valid_move_left());
}

#[test]
fn start_position_has_moves() {
    assert!(board(ENGLISH_BOARD).has_valid_move_left());
    assert!(board(WIEGLEB_BOARD).has_valid_move_left());
}

#[test]
fn only_move_from_diagonal_position_is_found() {
    // The one legal move is from (2,2) over (1,2) into (0,2).
    let b = board("OOO\nOOO\nOXX");
    assert!(b.is_valid_move((2, 2), (0, 2)));
    assert!(b.has_valid_move_left());
}

#[test]
fn english_board_is_solved() {
    let solution: [((u32, u32), (u32, u32)); 31] = [
        ((1, 3), (3, 3)),
        ((2, 1), (2, 3)),
        ((0, 2), (2, 2)),
        ((0, 4), (0, 2)),
        ((2, 3), (2, 1)),
        ((2, 0), (2, 2)),
        ((2, 4), (0, 4)),
        ((2, 6), (2, 4)),
        ((3, 2), (1, 2)),
        ((0, 2), (2, 2)),
        ((3, 0), (3, 2)),
        ((3, 2), (1, 2)),
        ((3, 4), (1, 4)),
        ((0, 4), (2, 4)),
        ((3, 6), (3, 4)),
        ((3, 4), (1, 4)),
        ((5, 2), (3, 2)),
        ((4, 0), (4, 2)),
        ((4, 2), (2, 2)),
        ((1, 2), (3, 2)),
        ((3, 2), (3, 4)),
        ((4, 4), (2, 4)),
        ((1, 4), (3, 4)),
        ((4, 6), (4, 4)),
        ((4, 3), (4, 5)),
        ((6, 4), (4, 4)),
        ((3, 4), (5, 4)),
        ((6, 2), (6, 4)),
        ((6, 4), (4, 4)),
        ((4, 5), (4, 3)),
        ((4, 3), (6, 3)),
    ];
    let mut b = board(ENGLISH_BOARD);
    assert_eq!(b.count_peg(), 32);
    for (n, &(src, dest)) in solution.iter().enumerate() {
        assert!(b.is_valid_move(src, dest), "move {} from {:?} to {:?}", n, src, dest);
        b.make_move(src, dest);
        assert_eq!(b.count_peg(), 31 - n);
    }
    assert_eq!(b.count_peg(), 1);
    assert_eq!(b.get_cell(6, 3), Cell::Peg);
    assert!(!b.has_valid_move_left());
}
