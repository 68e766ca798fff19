use star_battle::{Board, CellState};

#[test]
fn fresh_board_is_drawn_by_its_tags() {
    let board = Board::new(3, 2, vec![vec![0, 0, 1], vec![2, 1, 1]]).unwrap();
    assert_eq!(board.render(), "0 0 1\n2 1 1\n\n");
}

#[test]
fn stars_and_filled_cells_are_drawn_by_their_symbols() {
    let mut board = Board::new(3, 2, vec![vec![0, 0, 1], vec![2, 1, 1]]).unwrap();
    board.star_coords(0, 0);
    board.shade_coords(1, 2);
    assert_eq!(board.render(), "X 0 1\n2 1 #\n\n");
    assert_eq!(board.state(0, 0).symbol(), 'X');
    assert_eq!(board.state(1, 2), CellState::Filled);
}

#[test]
fn tags_of_several_digits_are_drawn_in_decimal() {
    let tags: Vec<Vec<usize>> = vec![(0..12).collect(), (0..12).map(|t| 11 - t).collect()];
    let board = Board::new(12, 2, tags).unwrap();
    assert_eq!(
        board.render(),
        "0 1 2 3 4 5 6 7 8 9 10 11\n11 10 9 8 7 6 5 4 3 2 1 0\n\n"
    );
}

#[test]
fn tags_of_three_digits_are_drawn_in_decimal() {
    let tags: Vec<Vec<usize>> = vec![(0..101).collect()];
    let board = Board::new(101, 1, tags).unwrap();
    let text = board.render();
    assert!(text.ends_with(" 98 99 100\n\n"));
    assert!(text.starts_with("0 1 2 "));
}

#[test]
fn single_cell_is_drawn_on_one_line() {
    let board = Board::new(1, 1, vec![vec![0]]).unwrap();
    assert_eq!(board.render(), "0\n\n");
}

#[test]
fn reference_board_is_drawn_too() {
    let board = Board::solved(4, 2, vec![(0, 2), (1, 3)]);
    assert_eq!(board.render(), "X # X #\n# X # X\n\n");
}
