use star_battle::{Board, Cell, CellState, InvalidInput};

fn test_board_stolen_1() -> Board {
    Board::new(
        10,
        10,
        vec![
            vec![0, 0, 1, 1, 2, 2, 2, 3, 3, 3],
            vec![0, 0, 1, 2, 2, 2, 2, 3, 2, 3],
            vec![0, 0, 1, 1, 1, 1, 2, 2, 2, 3],
            vec![0, 1, 1, 1, 4, 4, 5, 2, 2, 2],
            vec![0, 1, 1, 1, 4, 5, 5, 5, 5, 2],
            vec![0, 6, 6, 6, 4, 4, 4, 4, 2, 2],
            vec![7, 6, 7, 7, 4, 4, 4, 8, 8, 2],
            vec![7, 7, 7, 7, 4, 9, 9, 9, 8, 2],
            vec![7, 7, 7, 8, 8, 8, 8, 8, 8, 2],
            vec![7, 7, 7, 8, 8, 8, 8, 8, 8, 8],
        ],
    )
    .unwrap()
}

#[test]
fn test_constructor() {
    test_board_stolen_1();
}

#[test]
fn new_board_is_blank_and_keeps_the_tags() {
    let tags = vec![vec![0, 0, 1], vec![2, 1, 1]];
    let board = Board::new(3, 2, tags.clone()).unwrap();
    assert_eq!(board.width(), 3);
    assert_eq!(board.height(), 2);
    assert!(!board.has_solution());
    for row in 0..2 {
        for col in 0..3 {
            assert_eq!(board.state(row, col), CellState::Blank);
            assert_eq!(board.region(row, col), tags[row][col]);
        }
    }
}

#[test]
fn region_lists_are_by_tag_and_row_major() {
    let board = Board::new(3, 3, vec![vec![2, 0, 0], vec![1, 2, 0], vec![1, 1, 2]]).unwrap();
    assert_eq!(board.region_count(), 3);
    assert_eq!(board.region_cells(0), &vec![(0, 1), (0, 2), (1, 2)]);
    assert_eq!(board.region_cells(1), &vec![(1, 0), (2, 0), (2, 1)]);
    assert_eq!(board.region_cells(2), &vec![(0, 0), (1, 1), (2, 2)]);
}

#[test]
fn stolen_board_has_ten_regions_covering_the_grid() {
    let board = test_board_stolen_1();
    assert_eq!(board.region_count(), 10);
    let mut total = 0;
    for tag in 0..10 {
        let cells = board.region_cells(tag);
        assert!(!cells.is_empty());
        total += cells.len();
        for window in cells.windows(2) {
            assert!(window[0] < window[1]);
        }
        for &(row, col) in cells {
            assert_eq!(board.region(row, col), tag);
        }
    }
    assert_eq!(total, 100);
}

#[test]
fn zero_dimensions_are_invalid() {
    assert_eq!(Board::new(0, 0, vec![]).err(), Some(InvalidInput));
    assert_eq!(Board::new(0, 1, vec![vec![]]).err(), Some(InvalidInput));
    assert_eq!(Board::new(1, 0, vec![]).err(), Some(InvalidInput));
}

#[test]
fn wrong_number_of_rows_is_invalid() {
    assert_eq!(
        Board::new(2, 3, vec![vec![0, 0], vec![0, 0]]).err(),
        Some(InvalidInput)
    );
    assert_eq!(
        Board::new(2, 1, vec![vec![0, 0], vec![0, 0]]).err(),
        Some(InvalidInput)
    );
}

#[test]
fn wrong_row_length_is_invalid() {
    assert_eq!(
        Board::new(3, 2, vec![vec![0, 0], vec![0, 0]]).err(),
        Some(InvalidInput)
    );
}

#[test]
fn ragged_matrix_is_invalid() {
    assert_eq!(
        Board::new(2, 2, vec![vec![0, 0], vec![0]]).err(),
        Some(InvalidInput)
    );
    assert_eq!(
        Board::new(2, 2, vec![vec![0, 0, 0], vec![0, 0]]).err(),
        Some(InvalidInput)
    );
}

#[test]
fn tags_with_a_gap_get_one_list_each_in_ascending_order() {
    let board = Board::new(2, 2, vec![vec![0, 0], vec![2, 2]]).unwrap();
    assert_eq!(board.region_count(), 2);
    assert_eq!(board.region_cells(0), &vec![(0, 0), (0, 1)]);
    assert_eq!(board.region_cells(1), &vec![(1, 0), (1, 1)]);
    assert_eq!(board.region(1, 0), 2);
    assert_eq!(board.state(1, 0), CellState::Blank);

    let board = Board::new(2, 1, vec![vec![0, 2]]).unwrap();
    assert_eq!(board.region_count(), 2);
    assert_eq!(board.region_cells(0), &vec![(0, 0)]);
    assert_eq!(board.region_cells(1), &vec![(0, 1)]);
    assert_eq!(board.region(0, 1), 2);
}

#[test]
fn tags_need_not_start_at_zero() {
    let board = Board::new(2, 1, vec![vec![1, 1]]).unwrap();
    assert_eq!(board.region_count(), 1);
    assert_eq!(board.region_cells(0), &vec![(0, 0), (0, 1)]);
    assert_eq!(board.region(0, 0), 1);

    let board = Board::new(3, 2, vec![vec![7, 3, 7], vec![3, 5, 5]]).unwrap();
    assert_eq!(board.region_count(), 3);
    assert_eq!(board.region_cells(0), &vec![(0, 1), (1, 0)]);
    assert_eq!(board.region_cells(1), &vec![(1, 1), (1, 2)]);
    assert_eq!(board.region_cells(2), &vec![(0, 0), (0, 2)]);
    for row in 0..2 {
        for col in 0..3 {
            assert_eq!(board.state(row, col), CellState::Blank);
        }
    }
}

#[test]
fn greatest_tag_is_accepted() {
    let board = Board::new(2, 1, vec![vec![0, usize::MAX]]).unwrap();
    assert_eq!(board.region_count(), 2);
    assert_eq!(board.region_cells(1), &vec![(0, 1)]);
    assert_eq!(board.region(0, 1), usize::MAX);
    assert_eq!(board.render(), format!("0 {}\n\n", usize::MAX));
}

#[test]
fn tags_in_any_order_of_first_appearance_are_valid() {
    let board = Board::new(2, 2, vec![vec![3, 1], vec![0, 2]]).unwrap();
    assert_eq!(board.region_count(), 4);
    assert_eq!(board.region_cells(0), &vec![(1, 0)]);
    assert_eq!(board.region_cells(3), &vec![(0, 0)]);
}

#[test]
fn solved_board_has_the_named_stars_and_is_filled_elsewhere() {
    let stars = vec![(1, 3), (0, 2), (2, 2)];
    let board = Board::solved(4, 3, stars.clone());
    assert_eq!(board.width(), 4);
    assert_eq!(board.height(), 3);
    assert_eq!(board.region_count(), 1);
    assert_eq!(
        board.region_cells(0),
        &vec![(0, 1), (0, 3), (1, 0), (1, 2), (2, 2)]
    );
    for row in 0..3 {
        for col in 0..4 {
            let expected = if col == stars[row].0 || col == stars[row].1 {
                CellState::Star
            } else {
                CellState::Filled
            };
            assert_eq!(board.state(row, col), expected);
            assert_eq!(board.region(row, col), 0);
        }
    }
}

#[test]
fn add_solution_attaches_the_reference_states() {
    let mut board = Board::new(3, 1, vec![vec![0, 0, 0]]).unwrap();
    assert!(!board.has_solution());
    board.add_solution(Board::solved(3, 1, vec![(0, 2)]));
    assert!(board.has_solution());
    assert_eq!(board.solution_state(0, 0), CellState::Star);
    assert_eq!(board.solution_state(0, 1), CellState::Filled);
    assert_eq!(board.solution_state(0, 2), CellState::Star);
    assert_eq!(board.state(0, 0), CellState::Blank);
}

#[test]
fn clone_is_equal_until_one_of_them_changes() {
    let mut board = test_board_stolen_1();
    let copy = board.clone();
    assert!(board == copy);
    board.shade_coords(3, 3);
    assert!(board != copy);
    let mut other = copy.clone();
    other.shade_coords(3, 3);
    assert!(board == other);
    other.regenerate_regions();
    assert!(board != other);
}

#[test]
fn boards_differ_by_their_reference_solution() {
    let plain = Board::new(3, 1, vec![vec![0, 0, 0]]).unwrap();
    let mut checked = plain.clone();
    checked.add_solution(Board::solved(3, 1, vec![(0, 2)]));
    assert!(plain != checked);
    let mut other = plain.clone();
    other.add_solution(Board::solved(3, 1, vec![(0, 1)]));
    assert!(other != checked);
    let mut same = plain.clone();
    same.add_solution(Board::solved(3, 1, vec![(0, 2)]));
    assert!(same == checked);
}

#[test]
fn primitives_change_blank_cells_only() {
    let mut board = Board::new(3, 1, vec![vec![0, 0, 0]]).unwrap();
    board.shade_coords(0, 0);
    assert_eq!(board.state(0, 0), CellState::Filled);
    board.star_coords(0, 0);
    assert_eq!(board.state(0, 0), CellState::Filled);
    board.star_coords(0, 2);
    assert_eq!(board.state(0, 2), CellState::Star);
    board.shade_coords(0, 2);
    assert_eq!(board.state(0, 2), CellState::Star);
    assert_eq!(board.state(0, 1), CellState::Blank);
    assert_eq!(board.region(0, 0), 0);
}

#[test]
fn cell_primitives_change_blank_cells_only() {
    let mut cell = Cell::blank(4);
    assert_eq!(cell.state(), CellState::Blank);
    assert_eq!(cell.region(), 4);
    cell.star();
    assert_eq!(cell.state(), CellState::Star);
    cell.shade();
    assert_eq!(cell.state(), CellState::Star);
    assert_eq!(cell.region(), 4);

    let mut cell = Cell::blank(7);
    cell.shade();
    assert_eq!(cell.state(), CellState::Filled);
    cell.star();
    assert_eq!(cell.state(), CellState::Filled);
    assert_eq!(cell, Cell::new(7, CellState::Filled));
}

#[test]
fn states_have_their_symbols() {
    assert_eq!(CellState::Blank.symbol(), '-');
    assert_eq!(CellState::Star.symbol(), 'X');
    assert_eq!(CellState::Filled.symbol(), '#');
    assert_eq!(CellState::Blank.to_string(), "-");
    assert_eq!(CellState::Star.to_string(), "X");
    assert_eq!(CellState::Filled.to_string(), "#");
}
