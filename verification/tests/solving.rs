use star_battle::{adjacencies, Board, CellState, InvariantViolation};

fn test_board_sample() -> Board {
    Board::new(
        10,
        10,
        vec![
            vec![0, 0, 0, 1, 1, 1, 1, 2, 2, 3],
            vec![0, 0, 0, 1, 2, 2, 1, 2, 2, 3],
            vec![0, 0, 0, 1, 2, 2, 2, 2, 2, 3],
            vec![0, 0, 0, 0, 2, 2, 4, 4, 3, 3],
            vec![5, 5, 4, 4, 4, 4, 4, 4, 3, 3],
            vec![5, 5, 5, 5, 4, 6, 6, 6, 6, 3],
            vec![5, 5, 7, 5, 5, 6, 6, 6, 6, 3],
            vec![8, 8, 7, 7, 6, 6, 6, 6, 6, 3],
            vec![8, 9, 9, 7, 7, 7, 7, 6, 6, 3],
            vec![8, 9, 9, 9, 9, 7, 6, 6, 6, 6],
        ],
    )
    .unwrap()
}

fn sample_with_wider_seventh_region() -> Board {
    Board::new(
        10,
        10,
        vec![
            vec![0, 0, 0, 1, 1, 1, 1, 2, 2, 3],
            vec![0, 0, 0, 1, 2, 2, 1, 2, 2, 3],
            vec![0, 0, 0, 1, 2, 2, 2, 2, 2, 3],
            vec![0, 0, 0, 0, 2, 2, 4, 4, 3, 3],
            vec![5, 5, 4, 4, 4, 4, 4, 4, 3, 3],
            vec![5, 5, 5, 5, 4, 6, 6, 6, 6, 3],
            vec![5, 5, 7, 7, 5, 6, 6, 6, 6, 3],
            vec![8, 8, 7, 7, 6, 6, 6, 6, 6, 3],
            vec![8, 9, 9, 7, 7, 7, 7, 6, 6, 3],
            vec![8, 9, 9, 9, 9, 7, 6, 6, 6, 6],
        ],
    )
    .unwrap()
}

fn test_board_stolen_1() -> Board {
    Board::new(
        10,
        10,
        vec![
            vec![0, 0, 1, 1, 2, 2, 2, 3, 3, 3],
            vec![0, 0, 1, 2, 2, 2, 2, 3, 2, 3],
            vec![0, 0, 1, 1, 1, 1, 2, 2, 2, 3],
            vec![0, 1, 1, 1, 4, 4, 5, 2, 2, 2],
            vec![0, 1, 1, 1, 4, 5, 5, 5, 5, 2],
            vec![0, 6, 6, 6, 4, 4, 4, 4, 2, 2],
            vec![7, 6, 7, 7, 4, 4, 4, 8, 8, 2],
            vec![7, 7, 7, 7, 4, 9, 9, 9, 8, 2],
            vec![7, 7, 7, 8, 8, 8, 8, 8, 8, 2],
            vec![7, 7, 7, 8, 8, 8, 8, 8, 8, 8],
        ],
    )
    .unwrap()
}

fn solved_board_stolen_1() -> Board {
    Board::solved(
        10,
        10,
        vec![
            (1, 3),
            (5, 7),
            (2, 9),
            (4, 6),
            (0, 8),
            (3, 6),
            (1, 9),
            (5, 7),
            (0, 2),
            (4, 8),
        ],
    )
}

fn stars_are_apart(board: &Board) -> bool {
    for row in 0..board.height() {
        for col in 0..board.width() {
            if board.state(row, col) == CellState::Star {
                for (r, c) in adjacencies(board.width(), board.height(), row, col) {
                    if board.state(r, c) == CellState::Star {
                        return false;
                    }
                }
            }
        }
    }
    true
}

fn no_line_has_more_than_two_stars(board: &Board) -> bool {
    let star = |row: usize, col: usize| board.state(row, col) == CellState::Star;
    for row in 0..board.height() {
        if (0..board.width()).filter(|&col| star(row, col)).count() > 2 {
            return false;
        }
    }
    for col in 0..board.width() {
        if (0..board.height()).filter(|&row| star(row, col)).count() > 2 {
            return false;
        }
    }
    for tag in 0..board.region_count() {
        let mut count = 0;
        for row in 0..board.height() {
            for col in 0..board.width() {
                if board.region(row, col) == tag && star(row, col) {
                    count += 1;
                }
            }
        }
        if count > 2 {
            return false;
        }
    }
    true
}

fn region_lists_are_exact(board: &Board) -> bool {
    for tag in 0..board.region_count() {
        let mut expected = Vec::new();
        for row in 0..board.height() {
            for col in 0..board.width() {
                if board.region(row, col) == tag && board.state(row, col) != CellState::Filled {
                    expected.push((row, col));
                }
            }
        }
        if board.region_cells(tag) != &expected {
            return false;
        }
    }
    true
}

fn only_blanks_changed(before: &Board, after: &Board) -> bool {
    for row in 0..before.height() {
        for col in 0..before.width() {
            if before.region(row, col) != after.region(row, col) {
                return false;
            }
            if before.state(row, col) != CellState::Blank
                && before.state(row, col) != after.state(row, col)
            {
                return false;
            }
        }
    }
    true
}

#[test]
fn test_solve() {
    let mut board = test_board_stolen_1();
    let solution = solved_board_stolen_1();
    board.add_solution(solution);
    board.solve().unwrap();
    println!("{}", board.render());
}

#[test]
fn solved_puzzle_agrees_with_its_reference() {
    let mut board = test_board_stolen_1();
    let reference = solved_board_stolen_1();
    board.add_solution(solved_board_stolen_1());
    assert_eq!(board.solve(), Ok(()));
    assert_eq!(board.find_solution_mismatch(), None);
    for row in 0..10 {
        for col in 0..10 {
            let state = board.state(row, col);
            if state != CellState::Blank {
                assert_eq!(state, reference.state(row, col));
            }
        }
    }
    assert_eq!(
        board.render(),
        "0 0 1 1 2 2 2 3 3 3\n\
         0 0 1 2 2 2 2 3 2 3\n\
         0 0 1 1 1 1 2 2 2 3\n\
         0 1 1 1 4 4 5 2 2 2\n\
         0 1 # # # 5 # 5 5 2\n\
         # # # X # 4 4 4 # #\n\
         # X # # # # # # # X\n\
         # # # # # X # X # #\n\
         7 # 7 # # # # # # 2\n\
         7 # 7 # 8 8 8 8 8 8\n\n"
    );
}

#[test]
fn sample_puzzle_keeps_the_invariants() {
    let mut board = test_board_sample();
    let fresh = board.clone();
    assert_eq!(board.solve(), Ok(()));
    assert!(stars_are_apart(&board));
    assert!(no_line_has_more_than_two_stars(&board));
    assert!(region_lists_are_exact(&board));
    assert!(only_blanks_changed(&fresh, &board));
    assert_eq!(board.find_adjacent_stars(), None);
    assert_eq!(
        board.render(),
        "# 0 # 1 # 1 1 2 2 3\n\
         # 0 # 1 # 2 1 2 2 3\n\
         # 0 # 1 # 2 2 2 2 3\n\
         # # # 0 # 2 4 4 3 3\n\
         # X # 4 # 4 # # # #\n\
         # # # # # # 6 6 6 3\n\
         # # X # X # # # # #\n\
         X # # # # # # # 6 3\n\
         # # X # # # X # # #\n\
         X # # # X # # # # #\n\n"
    );
}

#[test]
fn second_sample_puzzle_keeps_the_invariants() {
    let mut board = sample_with_wider_seventh_region();
    let fresh = board.clone();
    assert_eq!(board.solve(), Ok(()));
    assert!(stars_are_apart(&board));
    assert!(no_line_has_more_than_two_stars(&board));
    assert!(region_lists_are_exact(&board));
    assert!(only_blanks_changed(&fresh, &board));
    assert_eq!(board.find_adjacent_stars(), None);
    assert_eq!(
        board.render(),
        "# 0 0 1 1 1 1 2 2 3\n\
         # 0 0 1 2 2 1 2 2 3\n\
         # 0 0 1 2 2 2 2 2 3\n\
         # 0 0 0 2 2 4 4 3 3\n\
         # 5 4 4 4 4 4 4 3 3\n\
         # 5 5 5 4 6 6 6 6 3\n\
         # # 7 7 5 6 6 6 # #\n\
         X # # # 6 # # # 6 3\n\
         # # X # # # X # # #\n\
         X # # # X # # # # #\n\n"
    );
}

#[test]
fn stolen_puzzle_keeps_the_invariants() {
    let mut board = test_board_stolen_1();
    let fresh = board.clone();
    assert_eq!(board.solve(), Ok(()));
    assert!(stars_are_apart(&board));
    assert!(no_line_has_more_than_two_stars(&board));
    assert!(region_lists_are_exact(&board));
    assert!(only_blanks_changed(&fresh, &board));
    assert_eq!(board.region_cells(7), &vec![(8, 0), (8, 2), (9, 0), (9, 2)]);
    assert_eq!(
        board.region_cells(4),
        &vec![(3, 4), (3, 5), (5, 5), (5, 6), (5, 7)]
    );
}

#[test]
fn solving_twice_changes_nothing_more() {
    let mut board = test_board_sample();
    assert_eq!(board.solve(), Ok(()));
    let once = board.clone();
    assert_eq!(board.solve(), Ok(()));
    assert!(board == once);
}

#[test]
fn equal_boards_are_solved_alike() {
    let mut first = test_board_stolen_1();
    let mut second = test_board_stolen_1();
    assert!(first == second);
    assert_eq!(first.solve(), second.solve());
    assert!(first == second);
    assert_eq!(first.render(), second.render());

    let mut first = Board::new(2, 1, vec![vec![0, 0]]).unwrap();
    let mut second = first.clone();
    assert_eq!(first.solve(), second.solve());
    assert!(first == second);
}

#[test]
fn stars_side_by_side_end_the_run() {
    let mut board = Board::new(2, 1, vec![vec![0, 0]]).unwrap();
    assert_eq!(
        board.solve(),
        Err(InvariantViolation::AdjacentStars { row: 0, col: 0 })
    );
    assert_eq!(board.render(), "X X\n\n");
    assert_eq!(board.find_adjacent_stars(), Some((0, 0)));
}

#[test]
fn board_given_with_stars_side_by_side_is_not_touched() {
    let mut board = Board::new(4, 4, vec![vec![0; 4]; 4]).unwrap();
    board.star_coords(2, 2);
    board.star_coords(1, 3);
    board.star_coords(3, 0);
    let before = board.clone();
    assert_eq!(
        board.solve(),
        Err(InvariantViolation::AdjacentStars { row: 1, col: 3 })
    );
    assert!(board == before);
}

#[test]
fn star_placed_beside_a_star_is_reported_where_it_stands() {
    let mut board = Board::new(4, 4, vec![vec![0; 4]; 4]).unwrap();
    board.star_coords(1, 1);
    assert_eq!(
        board.add_star_coords(2, 2),
        Err(InvariantViolation::AdjacentStars { row: 2, col: 2 })
    );
    assert_eq!(board.state(2, 2), CellState::Star);
    assert_eq!(board.state(0, 0), CellState::Blank);
    assert_eq!(board.find_adjacent_stars(), Some((1, 1)));
    assert!(board.has_star_neighbour(1, 1));
    assert!(board.has_star_neighbour(1, 2));
    assert!(!board.has_star_neighbour(3, 0));
}

#[test]
fn contradicted_reference_ends_the_run() {
    let mut board = test_board_stolen_1();
    board.add_solution(Board::solved(
        10,
        10,
        vec![
            (1, 3),
            (5, 7),
            (2, 9),
            (4, 6),
            (0, 8),
            (0, 9),
            (1, 9),
            (5, 7),
            (0, 2),
            (4, 8),
        ],
    ));
    assert_eq!(
        board.solve(),
        Err(InvariantViolation::SolutionMismatch { row: 5, col: 0 })
    );
    assert_eq!(board.find_solution_mismatch(), Some((5, 0)));
}

#[test]
fn mismatch_is_found_in_row_major_order() {
    let mut board = Board::new(3, 2, vec![vec![0, 0, 0], vec![1, 1, 1]]).unwrap();
    board.add_solution(Board::solved(3, 2, vec![(0, 2), (0, 2)]));
    assert_eq!(board.find_solution_mismatch(), None);
    board.star_coords(1, 1);
    assert_eq!(board.find_solution_mismatch(), Some((1, 1)));
    board.shade_coords(0, 2);
    assert_eq!(board.find_solution_mismatch(), Some((0, 2)));
    board.star_coords(0, 0);
    board.shade_coords(0, 1);
    assert_eq!(board.find_solution_mismatch(), Some((0, 2)));
}

#[test]
fn board_without_reference_has_no_mismatch() {
    let mut board = Board::new(3, 1, vec![vec![0, 0, 0]]).unwrap();
    board.star_coords(0, 0);
    board.shade_coords(0, 1);
    assert_eq!(board.find_solution_mismatch(), None);
}

#[test]
fn strip_of_three_is_solved() {
    let mut board = Board::new(3, 1, vec![vec![0, 0, 0]]).unwrap();
    assert_eq!(board.solve(), Ok(()));
    assert_eq!(board.render(), "X # X\n\n");
    assert_eq!(board.region_cells(0), &vec![(0, 0), (0, 2)]);
}

fn renumbered(tags: Vec<Vec<usize>>, number: fn(usize) -> usize) -> Vec<Vec<usize>> {
    tags.into_iter()
        .map(|row| row.into_iter().map(number).collect())
        .collect()
}

fn stolen_tags() -> Vec<Vec<usize>> {
    vec![
        vec![0, 0, 1, 1, 2, 2, 2, 3, 3, 3],
        vec![0, 0, 1, 2, 2, 2, 2, 3, 2, 3],
        vec![0, 0, 1, 1, 1, 1, 2, 2, 2, 3],
        vec![0, 1, 1, 1, 4, 4, 5, 2, 2, 2],
        vec![0, 1, 1, 1, 4, 5, 5, 5, 5, 2],
        vec![0, 6, 6, 6, 4, 4, 4, 4, 2, 2],
        vec![7, 6, 7, 7, 4, 4, 4, 8, 8, 2],
        vec![7, 7, 7, 7, 4, 9, 9, 9, 8, 2],
        vec![7, 7, 7, 8, 8, 8, 8, 8, 8, 2],
        vec![7, 7, 7, 8, 8, 8, 8, 8, 8, 8],
    ]
}

#[test]
fn puzzle_numbered_with_gaps_is_solved_like_the_one_numbered_from_zero() {
    let mut plain = Board::new(10, 10, stolen_tags()).unwrap();
    assert_eq!(plain.solve(), Ok(()));
    for number in [
        (|t| t + 1) as fn(usize) -> usize,
        |t| 10 * t + 3,
        |t| t * t,
    ] {
        let mut board = Board::new(10, 10, renumbered(stolen_tags(), number)).unwrap();
        assert_eq!(board.region_count(), 10);
        assert_eq!(board.solve(), Ok(()));
        assert!(stars_are_apart(&board));
        for row in 0..10 {
            for col in 0..10 {
                assert_eq!(board.state(row, col), plain.state(row, col));
                assert_eq!(board.region(row, col), number(plain.region(row, col)));
            }
        }
        for index in 0..10 {
            assert_eq!(board.region_cells(index), plain.region_cells(index));
        }
    }
}

#[test]
fn solved_cells_of_a_puzzle_with_gaps_leave_their_lists() {
    let mut board = Board::new(3, 1, vec![vec![4, 4, 4]]).unwrap();
    assert_eq!(board.solve(), Ok(()));
    assert_eq!(board.render(), "X # X\n\n");
    assert_eq!(board.region_count(), 1);
    assert_eq!(board.region_cells(0), &vec![(0, 0), (0, 2)]);
}
