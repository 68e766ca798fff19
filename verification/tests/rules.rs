use star_battle::{Board, CellState};

fn plain(width: usize, height: usize) -> Board {
    Board::new(width, height, vec![vec![0; width]; height]).unwrap()
}

fn blank_everywhere_but(board: &Board, decided: &[(usize, usize)]) {
    for row in 0..board.height() {
        for col in 0..board.width() {
            if !decided.contains(&(row, col)) {
                assert_eq!(board.state(row, col), CellState::Blank, "at {row}, {col}");
            }
        }
    }
}

#[test]
fn row_with_two_stars_has_its_blanks_shaded() {
    let mut board = plain(10, 2);
    board.star_coords(0, 2);
    board.star_coords(0, 7);
    board.blackout_rows();
    for col in 0..10 {
        let expected = if col == 2 || col == 7 {
            CellState::Star
        } else {
            CellState::Filled
        };
        assert_eq!(board.state(0, col), expected);
        assert_eq!(board.state(1, col), CellState::Blank);
    }
}

#[test]
fn row_with_one_or_three_stars_is_left_alone() {
    let mut board = plain(10, 2);
    board.star_coords(0, 2);
    board.star_coords(1, 0);
    board.star_coords(1, 4);
    board.star_coords(1, 8);
    let before = board.clone();
    board.blackout_rows();
    assert!(board == before);
}

#[test]
fn column_with_two_stars_has_its_blanks_shaded() {
    let mut board = Board::new(3, 3, vec![vec![0, 0, 1], vec![0, 1, 1], vec![0, 1, 1]]).unwrap();
    board.star_coords(0, 0);
    board.star_coords(2, 0);
    board.blackout_cols();
    assert_eq!(board.render(), "X 0 1\n# 1 1\nX 1 1\n\n");
}

#[test]
fn region_with_two_stars_has_its_blanks_shaded() {
    let mut board = Board::new(3, 3, vec![vec![0, 0, 1], vec![0, 1, 1], vec![0, 1, 1]]).unwrap();
    board.star_coords(0, 0);
    board.star_coords(2, 0);
    board.blackout_regions();
    assert_eq!(board.render(), "X # 1\n# 1 1\nX 1 1\n\n");
}

#[test]
fn neighbours_of_a_star_are_shaded() {
    let mut board = plain(10, 10);
    board.star_coords(4, 4);
    board.blackout_star_adjacencies();
    let around = [
        (3, 3),
        (3, 4),
        (3, 5),
        (4, 3),
        (4, 5),
        (5, 3),
        (5, 4),
        (5, 5),
    ];
    for (row, col) in around {
        assert_eq!(board.state(row, col), CellState::Filled);
    }
    assert_eq!(board.state(4, 4), CellState::Star);
    let mut decided = around.to_vec();
    decided.push((4, 4));
    blank_everywhere_but(&board, &decided);
}

#[test]
fn neighbours_of_a_star_in_a_corner_are_shaded() {
    let mut board = plain(3, 3);
    board.star_coords(2, 2);
    board.star_coords(0, 0);
    board.blackout_star_adjacencies();
    assert_eq!(board.render(), "X # 0\n# # #\n0 # X\n\n");
}

#[test]
fn horizontal_strip_of_three_has_its_middle_shaded() {
    let mut board = Board::new(
        5,
        3,
        vec![
            vec![1, 1, 1, 1, 1],
            vec![1, 0, 0, 0, 1],
            vec![1, 1, 1, 1, 1],
        ],
    )
    .unwrap();
    board.eliminate_middle_of_small_empty_regions();
    assert_eq!(board.state(1, 2), CellState::Filled);
    assert_eq!(board.state(1, 1), CellState::Blank);
    assert_eq!(board.state(1, 3), CellState::Blank);
    assert_eq!(board.render(), "1 1 1 1 1\n# 0 # 0 #\n1 1 1 1 1\n\n");
}

#[test]
fn vertical_strip_of_three_has_its_middle_shaded() {
    let mut board = Board::new(
        3,
        5,
        vec![
            vec![1, 1, 1],
            vec![1, 0, 1],
            vec![1, 0, 1],
            vec![1, 0, 1],
            vec![1, 1, 1],
        ],
    )
    .unwrap();
    board.eliminate_middle_of_small_empty_regions();
    assert_eq!(board.render(), "1 # 1\n1 0 1\n1 # 1\n1 0 1\n1 # 1\n\n");
}

#[test]
fn strip_at_the_border_has_no_band_outside_the_grid() {
    let mut board = Board::new(3, 2, vec![vec![0, 0, 0], vec![1, 1, 1]]).unwrap();
    board.eliminate_middle_of_region(0);
    assert_eq!(board.render(), "0 # 0\n1 1 1\n\n");
}

#[test]
fn box_of_two_by_three_has_its_middle_column_shaded() {
    let mut board = Board::new(
        5,
        4,
        vec![
            vec![1, 1, 1, 1, 1],
            vec![1, 0, 0, 0, 1],
            vec![1, 0, 0, 0, 1],
            vec![1, 1, 1, 1, 1],
        ],
    )
    .unwrap();
    board.eliminate_middle_of_small_empty_regions();
    assert_eq!(
        board.render(),
        "1 1 1 1 1\n# 0 # 0 #\n# 0 # 0 #\n1 1 1 1 1\n\n"
    );
}

#[test]
fn regions_of_one_or_two_cells_are_left_alone() {
    let mut board = Board::new(
        4,
        4,
        vec![
            vec![0, 2, 2, 2],
            vec![2, 2, 1, 1],
            vec![2, 2, 2, 2],
            vec![2, 2, 2, 3],
        ],
    )
    .unwrap();
    let before = board.clone();
    board.eliminate_middle_of_region(0);
    assert!(board == before);
    board.eliminate_middle_of_region(1);
    assert!(board == before);
    board.eliminate_middle_of_region(3);
    assert!(board == before);
    board.eliminate_middle_of_small_empty_regions();
    assert!(board == before);
}

#[test]
fn region_with_a_star_or_with_two_blanks_left_is_left_alone() {
    let tags = vec![
        vec![1, 1, 1, 1, 1],
        vec![1, 0, 0, 0, 1],
        vec![1, 1, 1, 1, 1],
    ];
    let mut board = Board::new(5, 3, tags.clone()).unwrap();
    board.star_coords(1, 1);
    let before = board.clone();
    board.eliminate_middle_of_small_empty_regions();
    assert!(board == before);

    let mut board = Board::new(5, 3, tags).unwrap();
    board.shade_coords(1, 3);
    let before = board.clone();
    board.eliminate_middle_of_small_empty_regions();
    assert!(board == before);
}

#[test]
fn region_in_a_box_of_nine_is_left_alone() {
    let mut board = plain(3, 3);
    let before = board.clone();
    board.eliminate_middle_of_small_empty_regions();
    assert!(board == before);
}

#[test]
fn two_adjacent_blanks_beside_a_star_shade_above_and_below() {
    let mut board = plain(5, 3);
    board.star_coords(1, 0);
    board.shade_coords(1, 1);
    board.shade_coords(1, 2);
    board.blackout_next_to_contiguity();
    assert_eq!(board.render(), "0 0 0 # #\nX # # 0 0\n0 0 0 # #\n\n");
}

#[test]
fn three_consecutive_blanks_beside_a_star_shade_their_middle() {
    let mut board = plain(5, 3);
    board.star_coords(1, 0);
    board.shade_coords(1, 1);
    board.blackout_next_to_contiguity();
    assert_eq!(board.render(), "0 0 0 # 0\nX # 0 0 0\n0 0 0 # 0\n\n");
}

#[test]
fn four_blanks_in_two_pairs_shade_both_pairs() {
    let mut board = plain(5, 3);
    board.shade_coords(1, 2);
    board.blackout_next_to_contiguity();
    assert_eq!(board.render(), "# # 0 # #\n0 0 # 0 0\n# # 0 # #\n\n");
}

#[test]
fn four_blanks_with_one_pair_shade_that_pair() {
    let mut board = plain(5, 3);
    board.shade_coords(1, 1);
    board.blackout_next_to_contiguity();
    assert_eq!(board.render(), "0 0 0 # #\n0 # 0 0 0\n0 0 0 # #\n\n");
}

#[test]
fn contiguity_in_a_column_shades_left_and_right() {
    let mut board = plain(3, 5);
    board.star_coords(0, 1);
    board.shade_coords(1, 1);
    board.shade_coords(2, 1);
    board.blackout_next_to_contiguity();
    assert_eq!(board.render(), "0 X 0\n0 # 0\n0 # 0\n# 0 #\n# 0 #\n\n");
}

#[test]
fn contiguity_of_one_line_reaches_only_its_two_neighbours() {
    let mut board = plain(5, 5);
    board.shade_coords(2, 2);
    board.blackout_beside_line(true, 2);
    assert_eq!(
        board.render(),
        "0 0 0 0 0\n# # 0 # #\n0 0 # 0 0\n# # 0 # #\n0 0 0 0 0\n\n"
    );
}

#[test]
fn filled_cells_leave_the_region_lists_in_order() {
    let mut board = Board::new(3, 3, vec![vec![2, 0, 0], vec![1, 2, 0], vec![1, 1, 2]]).unwrap();
    board.shade_coords(0, 2);
    board.shade_coords(2, 0);
    board.star_coords(1, 1);
    assert_eq!(board.region_cells(0), &vec![(0, 1), (0, 2), (1, 2)]);
    board.regenerate_regions();
    assert_eq!(board.region_cells(0), &vec![(0, 1), (1, 2)]);
    assert_eq!(board.region_cells(1), &vec![(1, 0), (2, 1)]);
    assert_eq!(board.region_cells(2), &vec![(0, 0), (1, 1), (2, 2)]);
    let once = board.clone();
    board.regenerate_regions();
    assert!(board == once);
}

#[test]
fn counts_along_a_region() {
    let mut board = Board::new(3, 3, vec![vec![2, 0, 0], vec![1, 2, 0], vec![1, 1, 2]]).unwrap();
    board.star_coords(0, 1);
    board.shade_coords(1, 2);
    let cells = vec![(0, 1), (0, 2), (1, 2)];
    assert_eq!(board.regional_stars(&cells), 1);
    assert_eq!(board.regional_blanks(&cells), 1);
    assert_eq!(board.regional_stars(&[]), 0);
}

#[test]
fn scan_of_a_line_gives_blanks_and_stars() {
    let mut board = plain(5, 2);
    board.star_coords(0, 1);
    board.shade_coords(0, 3);
    board.star_coords(1, 1);
    assert_eq!(board.scan_line(true, 0), (vec![0, 2, 4], 1));
    assert_eq!(board.scan_line(false, 1), (vec![], 2));
    assert_eq!(board.scan_line(false, 3), (vec![1], 0));
}

#[test]
fn first_two_blanks_adjacent_force_the_third() {
    let mut board = plain(5, 1);
    board.shade_coords(0, 2);
    board.shade_coords(0, 3);
    board.add_required_stars_slice(true, 0);
    assert_eq!(board.state(0, 4), CellState::Star);
    assert_eq!(board.render(), "0 0 # # X\n\n");
}

#[test]
fn last_two_blanks_adjacent_force_the_first() {
    let mut board = plain(5, 1);
    board.shade_coords(0, 1);
    board.shade_coords(0, 2);
    board.add_required_stars_slice(true, 0);
    assert_eq!(board.render(), "X # # 0 0\n\n");
}

#[test]
fn three_blanks_apart_force_nothing() {
    let mut board = plain(5, 1);
    board.shade_coords(0, 1);
    board.shade_coords(0, 3);
    let before = board.clone();
    board.add_required_stars_slice(true, 0);
    assert!(board == before);

    let mut board = plain(7, 1);
    board.shade_coords(0, 1);
    board.shade_coords(0, 3);
    board.shade_coords(0, 5);
    board.star_coords(0, 6);
    let before = board.clone();
    board.add_required_stars_slice(true, 0);
    assert!(board == before);
}

#[test]
fn three_blanks_in_a_row_force_the_third() {
    let mut board = plain(3, 1);
    board.add_required_stars_slice(true, 0);
    assert_eq!(board.render(), "0 0 X\n\n");
}

#[test]
fn at_most_two_blanks_without_a_star_are_all_starred() {
    let mut board = plain(5, 1);
    board.shade_coords(0, 0);
    board.shade_coords(0, 2);
    board.shade_coords(0, 3);
    board.add_required_stars_slice(true, 0);
    assert_eq!(board.render(), "# X # # X\n\n");

    let mut board = plain(3, 1);
    board.shade_coords(0, 0);
    board.shade_coords(0, 2);
    board.add_required_stars_slice(true, 0);
    assert_eq!(board.render(), "# X #\n\n");
}

#[test]
fn last_blank_beside_one_star_is_starred() {
    let mut board = plain(5, 1);
    board.star_coords(0, 0);
    board.shade_coords(0, 1);
    board.shade_coords(0, 2);
    board.shade_coords(0, 3);
    board.add_required_stars_slice(true, 0);
    assert_eq!(board.render(), "X # # # X\n\n");
}

#[test]
fn lines_with_more_blanks_or_two_stars_force_nothing() {
    let mut board = plain(5, 1);
    board.shade_coords(0, 2);
    let before = board.clone();
    board.add_required_stars_slice(true, 0);
    assert!(board == before);

    let mut board = plain(5, 1);
    board.star_coords(0, 0);
    board.star_coords(0, 2);
    let before = board.clone();
    board.add_required_stars_slice(true, 0);
    assert!(board == before);

    let mut board = plain(5, 1);
    board.star_coords(0, 0);
    board.shade_coords(0, 1);
    let before = board.clone();
    board.add_required_stars_slice(true, 0);
    assert!(board == before);
}

#[test]
fn forced_stars_of_all_rows_and_of_all_columns() {
    let mut board = plain(3, 2);
    board.shade_coords(1, 0);
    board.add_required_stars_rows();
    assert_eq!(board.render(), "0 0 X\n# X X\n\n");

    let mut board = plain(2, 3);
    board.shade_coords(0, 1);
    board.add_required_stars_cols();
    assert_eq!(board.render(), "0 #\n0 X\nX X\n\n");
}

#[test]
fn region_of_three_blanks_with_a_touching_pair_gets_its_third_starred() {
    let mut board = Board::new(
        4,
        3,
        vec![vec![0, 1, 0, 0], vec![1, 1, 1, 1], vec![1, 1, 1, 1]],
    )
    .unwrap();
    assert_eq!(board.add_required_stars_region(), Ok(()));
    assert_eq!(board.render(), "X # 0 0\n# # # #\n1 1 1 1\n\n");
    assert_eq!(board.region_cells(0), &vec![(0, 0), (0, 2), (0, 3)]);
    assert_eq!(board.region_cells(1), &vec![(2, 0), (2, 1), (2, 2), (2, 3)]);
}

#[test]
fn region_pairs_touch_by_king_moves() {
    let mut board = Board::new(
        4,
        3,
        vec![vec![0, 1, 0, 1], vec![1, 0, 1, 1], vec![1, 1, 1, 1]],
    )
    .unwrap();
    assert_eq!(board.add_required_stars_region(), Ok(()));
    assert_eq!(board.render(), "X # 0 1\n# # # #\n1 1 1 1\n\n");
    assert_eq!(board.region_cells(0), &vec![(0, 0), (0, 2)]);
}

#[test]
fn region_of_three_blanks_apart_gets_no_star() {
    let mut board = Board::new(
        5,
        3,
        vec![
            vec![0, 1, 1, 1, 0],
            vec![1, 1, 1, 1, 1],
            vec![1, 1, 0, 1, 1],
        ],
    )
    .unwrap();
    let before = board.clone();
    assert_eq!(board.add_required_stars_region(), Ok(()));
    assert!(board == before);
}

#[test]
fn star_and_enforce_shades_around_the_star() {
    let mut board = plain(4, 4);
    assert_eq!(board.add_star_coords(0, 0), Ok(()));
    assert_eq!(board.state(0, 0), CellState::Star);
    assert_eq!(board.state(0, 1), CellState::Filled);
    assert_eq!(board.state(1, 0), CellState::Filled);
    assert_eq!(board.state(1, 1), CellState::Filled);
    for &(row, col) in board.region_cells(0) {
        assert_ne!(board.state(row, col), CellState::Filled);
    }
}

#[test]
fn enforcement_of_the_fresh_puzzle() {
    let mut board = Board::new(
        10,
        10,
        vec![
            vec![0, 0, 1, 1, 2, 2, 2, 3, 3, 3],
            vec![0, 0, 1, 2, 2, 2, 2, 3, 2, 3],
            vec![0, 0, 1, 1, 1, 1, 2, 2, 2, 3],
            vec![0, 1, 1, 1, 4, 4, 5, 2, 2, 2],
            vec![0, 1, 1, 1, 4, 5, 5, 5, 5, 2],
            vec![0, 6, 6, 6, 4, 4, 4, 4, 2, 2],
            vec![7, 6, 7, 7, 4, 4, 4, 8, 8, 2],
            vec![7, 7, 7, 7, 4, 9, 9, 9, 8, 2],
            vec![7, 7, 7, 8, 8, 8, 8, 8, 8, 2],
            vec![7, 7, 7, 8, 8, 8, 8, 8, 8, 8],
        ],
    )
    .unwrap();
    board.enforce_rules();
    assert_eq!(
        board.render(),
        "0 0 1 1 2 2 2 3 3 3\n\
         0 0 1 2 2 2 2 3 2 3\n\
         0 0 1 1 1 1 2 2 2 3\n\
         0 1 1 1 4 4 5 2 2 2\n\
         0 1 1 1 4 5 5 5 5 2\n\
         # 6 # 6 # 4 4 4 2 2\n\
         # 6 # 7 # 4 4 8 8 2\n\
         7 7 7 7 # 9 # 9 # 2\n\
         7 7 7 8 8 8 8 8 8 2\n\
         7 7 7 8 8 8 8 8 8 8\n\n"
    );
    let once = board.clone();
    board.enforce_rules();
    assert!(board == once);
}

#[test]
fn region_of_two_blanks_without_a_star_gets_both_starred() {
    let mut board = Board::new(
        4,
        3,
        vec![vec![0, 1, 1, 0], vec![1, 1, 1, 1], vec![1, 1, 1, 1]],
    )
    .unwrap();
    assert_eq!(board.add_required_stars_region(), Ok(()));
    assert_eq!(board.state(0, 0), CellState::Star);
    assert_eq!(board.state(0, 3), CellState::Star);
    assert_eq!(board.render(), "X # # X\n# # # #\n1 1 1 1\n\n");
}

#[test]
fn last_blank_of_a_region_with_one_star_is_starred() {
    let mut board = Board::new(
        4,
        3,
        vec![vec![0, 1, 0, 0], vec![1, 1, 1, 1], vec![1, 1, 1, 1]],
    )
    .unwrap();
    board.star_coords(0, 0);
    board.shade_coords(0, 2);
    let cells = vec![(0, 0), (0, 2), (0, 3)];
    assert_eq!(board.add_required_stars_of_region(&cells), Ok(()));
    assert_eq!(board.state(0, 3), CellState::Star);
    assert_eq!(board.state(0, 2), CellState::Filled);
    assert_eq!(board.state(1, 3), CellState::Filled);
}

#[test]
fn region_whose_two_blanks_touch_gets_only_the_first_starred() {
    let mut board = Board::new(
        4,
        3,
        vec![vec![0, 0, 1, 1], vec![1, 1, 1, 1], vec![1, 1, 1, 1]],
    )
    .unwrap();
    assert_eq!(board.add_required_stars_region(), Ok(()));
    assert_eq!(board.state(0, 0), CellState::Star);
    assert_eq!(board.state(0, 1), CellState::Filled);
}

#[test]
fn forced_stars_never_fill_their_own_line_beyond_two() {
    for shaded in 0..32usize {
        let mut board = plain(5, 1);
        for col in 0..5 {
            if shaded & (1 << col) != 0 {
                board.shade_coords(0, col);
            }
        }
        board.add_required_stars_rows();
        let stars = (0..5)
            .filter(|&col| board.state(0, col) == CellState::Star)
            .count();
        assert!(stars <= 2, "with shaded columns {shaded:05b}");
    }
}

#[test]
fn copies_of_region_lists_match_the_board() {
    let mut board = Board::new(3, 3, vec![vec![2, 0, 0], vec![1, 2, 0], vec![1, 1, 2]]).unwrap();
    board.shade_coords(0, 1);
    board.regenerate_regions();
    assert_eq!(board.region_snapshot(0), vec![(0, 2), (1, 2)]);
    assert_eq!(
        board.regions_snapshot(),
        vec![
            vec![(0, 2), (1, 2)],
            vec![(1, 0), (2, 0), (2, 1)],
            vec![(0, 0), (1, 1), (2, 2)]
        ]
    );
}

#[test]
fn board_neighbours_are_clipped_to_the_board() {
    let board = plain(3, 2);
    let mut around = board.adjacencies(1, 2);
    around.sort();
    assert_eq!(around, vec![(0, 1), (0, 2), (1, 1)]);
    assert!(board.adjacencies(2, 0).is_empty());
}

#[test]
fn blanks_are_reported_until_all_cells_are_decided() {
    let mut board = plain(2, 1);
    assert!(board.has_blanks());
    board.shade_coords(0, 0);
    assert!(board.has_blanks());
    board.star_coords(0, 1);
    assert!(!board.has_blanks());
}
