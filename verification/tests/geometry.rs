use star_battle::adjacencies;

fn unordered_eq<T: Eq + Clone + Ord + core::fmt::Debug>(vec1: Vec<T>, vec2: Vec<T>) {
    let (mut v1, mut v2) = (vec1.clone(), vec2.clone());
    v1.sort();
    v2.sort();

    assert_eq!(v1, v2);
}

#[test]
fn test_adjacencies() {
    unordered_eq(adjacencies(10, 10, 10, 10), vec![]);
    unordered_eq(adjacencies(10, 10, 0, 0), vec![(1, 0), (0, 1), (1, 1)]);
    unordered_eq(adjacencies(10, 10, 9, 9), vec![(8, 9), (9, 8), (8, 8)]);
    unordered_eq(
        adjacencies(10, 10, 0, 5),
        vec![(0, 6), (0, 4), (1, 6), (1, 4), (1, 5)],
    );
    unordered_eq(
        adjacencies(10, 10, 5, 0),
        vec![(6, 0), (4, 0), (6, 1), (4, 1), (5, 1)],
    );
    unordered_eq(
        adjacencies(10, 10, 5, 5),
        vec![
            (4, 4),
            (4, 5),
            (4, 6),
            (5, 4),
            (5, 6),
            (6, 4),
            (6, 5),
            (6, 6),
        ],
    );
}

#[test]
fn neighbour_counts_by_position() {
    for (row, col) in [(0, 0), (0, 9), (9, 0), (9, 9)] {
        assert_eq!(adjacencies(10, 10, row, col).len(), 3);
    }
    for (row, col) in [(0, 5), (9, 5), (5, 0), (5, 9)] {
        assert_eq!(adjacencies(10, 10, row, col).len(), 5);
    }
    for (row, col) in [(1, 1), (5, 5), (8, 8)] {
        assert_eq!(adjacencies(10, 10, row, col).len(), 8);
    }
    for (row, col) in [(10, 0), (0, 10), (10, 10), (usize::MAX, usize::MAX)] {
        assert_eq!(adjacencies(10, 10, row, col).len(), 0);
    }
}

#[test]
fn neighbours_never_include_the_cell_and_never_repeat() {
    for row in 0..4 {
        for col in 0..6 {
            let mut around = adjacencies(6, 4, row, col);
            assert!(!around.contains(&(row, col)));
            let len = around.len();
            around.sort();
            around.dedup();
            assert_eq!(around.len(), len);
            for (r, c) in around {
                assert!(r < 4 && c < 6);
                assert!(r.abs_diff(row) <= 1 && c.abs_diff(col) <= 1);
            }
        }
    }
}

#[test]
fn narrow_grids_have_fewer_neighbours() {
    assert_eq!(adjacencies(1, 1, 0, 0).len(), 0);
    unordered_eq(adjacencies(3, 1, 0, 1), vec![(0, 0), (0, 2)]);
    unordered_eq(adjacencies(1, 3, 0, 0), vec![(1, 0)]);
    unordered_eq(adjacencies(2, 2, 1, 1), vec![(0, 0), (0, 1), (1, 0)]);
}
