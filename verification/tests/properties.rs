use nonogram::interactive::NonogramView;
use nonogram::{Nonogram, Tile};

fn small_nonogram() -> Nonogram {
    Nonogram::new(
        vec![vec![2], vec![1, 1], vec![3]],
        vec![vec![3], vec![1, 1], vec![1], vec![1]],
    )
}

fn solved_small_nonogram() -> Nonogram {
    let mut non = small_nonogram();
    let pattern = [
        [true, true, false, false],
        [true, false, false, true],
        [true, true, true, false],
    ];
    for (r, row) in pattern.iter().enumerate() {
        for (c, filled) in row.iter().enumerate() {
            let tile = if *filled { Tile::Filled } else { Tile::NotFilled };
            non.set_tile(r, c, tile);
        }
    }
    non
}

#[test]
fn blank_grid_with_empty_clues_is_correct() {
    let non = Nonogram::new(vec![vec![], vec![]], vec![vec![], vec![], vec![]]);
    assert!(non.is_correct_solution());
}

#[test]
fn blank_grid_with_nonempty_clues_is_not_correct() {
    let non = Nonogram::new(vec![vec![1], vec![]], vec![vec![], vec![1], vec![]]);
    assert!(!non.is_correct_solution());
}

#[test]
fn full_solution_is_correct() {
    let non = solved_small_nonogram();
    assert!(non.is_correct_solution());
}

#[test]
fn flipping_any_single_cell_breaks_the_solution() {
    for r in 0..3 {
        for c in 0..4 {
            let mut non = solved_small_nonogram();
            let flipped = match non.get_tile(r, c) {
                Some(Tile::NotFilled) => Tile::Filled,
                _ => Tile::NotFilled,
            };
            non.set_tile(r, c, flipped);
            assert!(!non.is_correct_solution());
        }
    }
}

#[test]
fn clearing_any_single_filled_cell_breaks_the_solution() {
    for r in 0..3 {
        for c in 0..4 {
            let mut non = solved_small_nonogram();
            if non.get_tile(r, c) == Some(Tile::Filled) {
                non.unset_tile(r, c);
                assert!(!non.is_correct_solution());
            }
        }
    }
}

#[test]
fn zero_column_grid_is_handled() {
    let non = Nonogram::new(vec![vec![], vec![]], vec![]);
    assert_eq!(non.num_rows(), 2);
    assert_eq!(non.num_cols(), 0);
    assert_eq!(non.get_row(0), Vec::<Option<Tile>>::new());
    assert_eq!(non.rows().len(), 2);
    assert!(non.is_correct_solution());
}

#[test]
fn zero_column_grid_with_a_clue_is_not_correct() {
    let non = Nonogram::new(vec![vec![1]], vec![]);
    assert!(!non.is_correct_solution());
}

#[test]
fn zero_row_grid_is_handled() {
    let non = Nonogram::new(vec![], vec![vec![], vec![]]);
    assert_eq!(non.num_rows(), 0);
    assert_eq!(non.num_cols(), 2);
    assert_eq!(non.get_column(0), Vec::<Option<Tile>>::new());
    assert_eq!(non.cols().len(), 2);
    assert!(non.is_correct_solution());
}

#[test]
fn two_marked_cells_are_not_yet_a_solution() {
    let mut non = small_nonogram();
    non.set_tile(1, 2, Tile::Filled);
    non.set_tile(2, 2, Tile::NotFilled);
    assert!(!non.is_correct_solution());
}

#[test]
fn run_order_matters() {
    // One row with clue [2,1]: the arrangement F N F F produces runs [1,2],
    // which has the same multiset of lengths but the wrong order.
    let wrong = Nonogram::new(vec![vec![2, 1]], vec![vec![1], vec![], vec![1], vec![1]]);
    let mut wrong = wrong;
    wrong.set_tile(0, 0, Tile::Filled);
    wrong.set_tile(0, 1, Tile::NotFilled);
    wrong.set_tile(0, 2, Tile::Filled);
    wrong.set_tile(0, 3, Tile::Filled);
    assert!(!wrong.is_correct_solution());

    // The arrangement F F N F produces runs [2,1] and matches.
    let mut right = Nonogram::new(vec![vec![2, 1]], vec![vec![1], vec![1], vec![], vec![1]]);
    right.set_tile(0, 0, Tile::Filled);
    right.set_tile(0, 1, Tile::Filled);
    right.set_tile(0, 2, Tile::NotFilled);
    right.set_tile(0, 3, Tile::Filled);
    assert!(right.is_correct_solution());
}

#[test]
fn unset_of_unknown_cell_is_a_noop() {
    let mut non = small_nonogram();
    non.unset_tile(0, 0);
    for r in 0..non.num_rows() {
        for c in 0..non.num_cols() {
            assert_eq!(non.get_tile(r, c), None);
        }
    }
}

#[test]
fn set_then_unset_restores_the_unknown_state() {
    let mut non = small_nonogram();
    non.set_tile(1, 2, Tile::Filled);
    non.unset_tile(1, 2);
    for r in 0..non.num_rows() {
        for c in 0..non.num_cols() {
            assert_eq!(non.get_tile(r, c), None);
        }
    }
}

#[test]
fn row_and_column_agree_after_set() {
    let mut non = small_nonogram();
    non.set_tile(1, 2, Tile::Filled);
    assert_eq!(non.get_row(1)[2], Some(Tile::Filled));
    assert_eq!(non.get_column(2)[1], Some(Tile::Filled));
}

#[test]
fn rows_and_cols_cover_the_grid() {
    let mut non = small_nonogram();
    non.set_tile(2, 3, Tile::NotFilled);
    let rows = non.rows();
    let cols = non.cols();
    assert_eq!(rows.len(), 3);
    assert_eq!(cols.len(), 4);
    assert_eq!(rows[2][3], Some(Tile::NotFilled));
    assert_eq!(cols[3][2], Some(Tile::NotFilled));
    assert_eq!(rows[0], vec![None; 4]);
}

#[test]
fn clue_accessors_return_the_construction_clues() {
    let non = small_nonogram();
    assert_eq!(non.row_clues(), &vec![vec![2], vec![1, 1], vec![3]]);
    assert_eq!(
        non.column_clues(),
        &vec![vec![3], vec![1, 1], vec![1], vec![1]]
    );
    assert_eq!(non.row_clues_at(1), &vec![1, 1]);
    assert_eq!(non.column_clues_at(0), &vec![3]);
}

#[test]
fn tile_is_filled_queries() {
    assert!(Tile::Filled.is_filled());
    assert!(Tile::FilledWithColor('a').is_filled());
    assert!(!Tile::NotFilled.is_filled());
    assert!(Tile::NotFilled.is_not_filled());
    assert!(!Tile::Filled.is_not_filled());
}

#[test]
fn sequence_lengths_groups_filled_runs() {
    let line = vec![
        Some(Tile::Filled),
        Some(Tile::Filled),
        None,
        Some(Tile::NotFilled),
        Some(Tile::FilledWithColor('a')),
        Some(Tile::Filled),
        Some(Tile::Filled),
        None,
        Some(Tile::Filled),
    ];
    assert_eq!(Nonogram::sequence_lengths(&line), vec![2, 3, 1]);
    assert_eq!(Nonogram::sequence_lengths(&vec![None; 5]), Vec::<usize>::new());
}

#[test]
fn view_solves_a_single_row_puzzle() {
    // A 1 x 2 grid whose single row needs both cells filled.
    let non = Nonogram::new(vec![vec![2]], vec![vec![1], vec![1]]);
    let mut view = NonogramView::new(non);
    assert!(!view.is_correct_solution());
    view.toggle_filled_focused();
    assert!(!view.is_correct_solution());
    view.move_focus_right();
    view.toggle_filled_focused();
    assert!(view.is_correct_solution());
    // Toggling a filled cell clears it again.
    view.toggle_filled_focused();
    assert!(!view.is_correct_solution());
}

#[test]
fn view_focus_clamps_at_the_edges() {
    let non = Nonogram::new(vec![vec![2]], vec![vec![1], vec![1]]);
    let mut view = NonogramView::new(non);
    // Already on the top-left cell: these must stay put.
    view.move_focus_up();
    view.move_focus_left();
    view.toggle_filled_focused();
    view.move_focus_right();
    // On the last column: moving further right stays put.
    view.move_focus_right();
    view.move_focus_down();
    view.toggle_filled_focused();
    assert!(view.is_correct_solution());
}

#[test]
fn view_toggle_not_filled_and_clear() {
    let non = Nonogram::new(vec![vec![1]], vec![vec![1]]);
    let mut view = NonogramView::new(non);
    view.toggle_not_filled_focused();
    assert!(!view.is_correct_solution());
    // Toggling not-filled on a not-filled cell clears it back to unknown.
    view.toggle_not_filled_focused();
    assert!(!view.is_correct_solution());
    view.toggle_filled_focused();
    assert!(view.is_correct_solution());
    view.clear_focused();
    assert!(!view.is_correct_solution());
}
