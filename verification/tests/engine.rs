use aquarium::encoder::encode;
use aquarium::error::PuzzleError;
use aquarium::formula::{count_selected, Constraint, Formula};
use aquarium::puzzle::Puzzle;
use aquarium::regions::Regions;
use aquarium::render::render;
use aquarium::solver::{conclude, formulate, SolverOutcome};
use aquarium::walls::Walls;

fn walls(top: bool, left: bool) -> Walls {
    let mut w = Walls::new();
    if top {
        w.set_top();
    }
    if left {
        w.set_left();
    }
    w
}

fn open_grid(cells: usize) -> Vec<Walls> {
    (0..cells).map(|_| Walls::new()).collect()
}

/// All assignments of `cells` cells that satisfy the formula.
fn models(formula: &Formula, cells: usize) -> Vec<Vec<bool>> {
    let mut found = Vec::new();
    for bits in 0..(1u32 << cells) {
        let candidate: Vec<bool> = (0..cells).map(|k| bits & (1 << k) != 0).collect();
        if formula.is_satisfied_by(&candidate) {
            found.push(candidate);
        }
    }
    found
}

/// What an engine that tries every assignment reports.
fn search(formula: &Formula, cells: usize) -> SolverOutcome {
    match models(formula, cells).into_iter().next() {
        Some(model) => SolverOutcome::Satisfiable(model),
        None => SolverOutcome::Unsatisfiable,
    }
}

#[test]
fn walls_start_without_walls() {
    let w = Walls::new();
    assert!(!w.top());
    assert!(!w.left());
}

#[test]
fn setting_one_wall_leaves_the_other() {
    let mut w = Walls::new();
    w.set_left();
    assert!(w.left());
    assert!(!w.top());
    let mut v = Walls::new();
    v.set_top();
    assert!(v.top());
    assert!(!v.left());
    v.set_left();
    assert!(v.top() && v.left());
}

#[test]
fn puzzle_needs_one_wall_pair_per_cell() {
    let made = Puzzle::new(open_grid(3), vec![1, 1], vec![1, 1]);
    assert_eq!(made.unwrap_err(), PuzzleError::MalformedInput);
    let made = Puzzle::new(open_grid(4), vec![1, 1], vec![1, 1]).unwrap();
    assert_eq!(made.width, 2);
    assert_eq!(made.height, 2);
}

#[test]
fn puzzle_needs_rows_and_columns() {
    assert_eq!(
        Puzzle::new(Vec::new(), Vec::new(), Vec::new()).unwrap_err(),
        PuzzleError::MalformedInput
    );
    assert_eq!(
        Puzzle::new(Vec::new(), vec![1], Vec::new()).unwrap_err(),
        PuzzleError::MalformedInput
    );
}

#[test]
fn clues_out_of_range_are_found() {
    let fine = Puzzle::new(open_grid(2), vec![1, 0], vec![1]).unwrap();
    assert_eq!(fine.check_clues(), Ok(()));
    let negative = Puzzle::new(open_grid(2), vec![-1, 0], vec![1]).unwrap();
    assert_eq!(negative.check_clues(), Err(PuzzleError::OutOfRangeClue));
    let too_big = Puzzle::new(open_grid(2), vec![1, 0], vec![3]).unwrap();
    assert_eq!(too_big.check_clues(), Err(PuzzleError::OutOfRangeClue));
    let row_too_big = Puzzle::new(open_grid(2), vec![2, 0], vec![1]).unwrap();
    assert_eq!(row_too_big.check_clues(), Err(PuzzleError::OutOfRangeClue));
}

#[test]
fn out_of_range_clue_has_no_solution() {
    let puzzle = Puzzle::new(open_grid(2), vec![2, 0], vec![2]).unwrap();
    let formula = formulate(&puzzle);
    assert!(models(&formula, 2).is_empty());
}

#[test]
fn regions_without_walls_are_one() {
    let puzzle = Puzzle::new(open_grid(4), vec![2, 2], vec![2, 2]).unwrap();
    let regions = Regions::build(&puzzle);
    assert_eq!(regions.len(), 4);
    for a in 0..4 {
        for b in 0..4 {
            assert!(regions.equiv(a, b));
        }
    }
    let rep = regions.region(0);
    assert!(rep < 4);
    assert_eq!(regions.region(rep), rep);
    assert_eq!(regions.region(3), rep);
}

#[test]
fn regions_follow_the_walls() {
    // 2 x 3 grid, three columns:
    //   0 | 1   2
    //   -       -
    //   3   4 | 5
    let cells = vec![
        walls(false, false),
        walls(false, true),
        walls(false, false),
        walls(true, false),
        walls(false, false),
        walls(true, true),
    ];
    let puzzle = Puzzle::new(cells, vec![0, 0], vec![0, 0, 0]).unwrap();
    let regions = Regions::build(&puzzle);
    let groups = [vec![0], vec![1, 2, 3, 4], vec![5]];
    for a in 0..6 {
        for b in 0..6 {
            let together = groups.iter().any(|g| g.contains(&a) && g.contains(&b));
            assert_eq!(regions.equiv(a, b), together, "cells {} and {}", a, b);
            assert_eq!(regions.region(a) == regions.region(b), together);
        }
        assert!(regions.equiv(a, regions.region(a)));
        assert_eq!(regions.region(regions.region(a)), regions.region(a));
    }
}

#[test]
fn no_wraparound_between_rows() {
    // 2 x 2 grid in which every cell has a top wall and the right column a
    // left wall: the last cell of a row never joins the first of the next.
    let cells = vec![walls(true, false), walls(true, true), walls(true, false), walls(true, true)];
    let puzzle = Puzzle::new(cells, vec![0, 0], vec![0, 0]).unwrap();
    let regions = Regions::build(&puzzle);
    for a in 0..4 {
        for b in 0..4 {
            assert_eq!(regions.equiv(a, b), a == b);
        }
    }
}

#[test]
fn left_wall_of_first_column_is_ignored() {
    // cell 2 opens to the left, but it is the first cell of its row
    let cells = vec![walls(true, true), walls(true, true), walls(true, false), walls(true, true)];
    let puzzle = Puzzle::new(cells, vec![0, 0], vec![0, 0]).unwrap();
    let regions = Regions::build(&puzzle);
    assert!(!regions.equiv(2, 1));
    assert!(!regions.equiv(2, 0));
}

#[test]
fn building_regions_twice_groups_alike() {
    let cells = vec![
        walls(false, false),
        walls(false, true),
        walls(false, false),
        walls(true, false),
        walls(false, false),
        walls(true, true),
    ];
    let puzzle = Puzzle::new(cells, vec![0, 0], vec![0, 0, 0]).unwrap();
    let first = Regions::build(&puzzle);
    let second = Regions::build(&puzzle);
    for a in 0..6 {
        for b in 0..6 {
            assert_eq!(first.equiv(a, b), second.equiv(a, b));
        }
    }
}

#[test]
fn counting_selected_cells() {
    let cells = vec![true, false, true];
    assert_eq!(count_selected(&cells, &vec![0, 1, 2]), Some(2));
    assert_eq!(count_selected(&cells, &vec![0, 0]), Some(2));
    assert_eq!(count_selected(&cells, &vec![]), Some(0));
    assert_eq!(count_selected(&cells, &vec![0, 3]), None);
}

#[test]
fn constraints_are_evaluated() {
    let cells = vec![true, false, true];
    assert!(Constraint::Exactly { vars: vec![0, 1, 2], count: 2 }.check(&cells));
    assert!(!Constraint::Exactly { vars: vec![0, 1, 2], count: 3 }.check(&cells));
    assert!(!Constraint::Exactly { vars: vec![0, 1], count: -1 }.check(&cells));
    assert!(!Constraint::Exactly { vars: vec![5], count: 0 }.check(&cells));
    assert!(Constraint::Implies { premise: 1, conclusion: 0 }.check(&cells));
    assert!(Constraint::Implies { premise: 0, conclusion: 2 }.check(&cells));
    assert!(!Constraint::Implies { premise: 0, conclusion: 1 }.check(&cells));
    assert!(!Constraint::Implies { premise: 0, conclusion: 3 }.check(&cells));
}

#[test]
fn formula_asks_for_one_value_per_variable() {
    let formula = Formula { variables: 2, constraints: Vec::new() };
    assert!(formula.is_satisfied_by(&vec![true, false]));
    assert!(!formula.is_satisfied_by(&vec![true]));
    assert!(!formula.is_satisfied_by(&vec![true, false, true]));
}

#[test]
fn single_cell_is_filled() {
    let puzzle = Puzzle::new(open_grid(1), vec![1], vec![1]).unwrap();
    let formula = formulate(&puzzle);
    assert_eq!(formula.variables, 1);
    assert_eq!(models(&formula, 1), vec![vec![true]]);
    let solution = conclude(&formula, search(&formula, 1)).unwrap();
    assert_eq!(solution, vec![true]);
    let lines = render(puzzle.width, puzzle.height, &solution).unwrap();
    assert_eq!(lines, vec!["┌───┐", "│ █ │", "└───┘"]);
}

#[test]
fn two_aquariums_in_one_column() {
    let cells = vec![walls(false, false), walls(true, false)];
    let puzzle = Puzzle::new(cells, vec![1, 0], vec![1]).unwrap();
    let regions = Regions::build(&puzzle);
    assert!(!regions.equiv(0, 1));
    let formula = encode(&puzzle, &regions);
    assert_eq!(models(&formula, 2), vec![vec![true, false]]);
    let solution = conclude(&formula, search(&formula, 2)).unwrap();
    assert_eq!(solution, vec![true, false]);
    let lines = render(puzzle.width, puzzle.height, &solution).unwrap();
    assert_eq!(lines, vec!["┌───┐", "│ █ │", "├───┤", "│   │", "└───┘"]);
}

#[test]
fn water_cannot_float_in_one_aquarium() {
    // the same column without the wall: the top cell cannot be the filled one
    let puzzle = Puzzle::new(open_grid(2), vec![1, 0], vec![1]).unwrap();
    let formula = formulate(&puzzle);
    assert!(models(&formula, 2).is_empty());
    let settled = Puzzle::new(open_grid(2), vec![0, 1], vec![1]).unwrap();
    let formula = formulate(&settled);
    assert_eq!(models(&formula, 2), vec![vec![false, true]]);
}

#[test]
fn mismatched_totals_are_unsatisfiable() {
    let puzzle = Puzzle::new(open_grid(4), vec![2, 2], vec![1, 3]).unwrap();
    let formula = formulate(&puzzle);
    assert_eq!(formula.variables, 4);
    assert!(!formula.constraints.is_empty());
    assert!(models(&formula, 4).is_empty());
    let result = conclude(&formula, search(&formula, 4));
    assert_eq!(result, Err(PuzzleError::Unsatisfiable));
}

#[test]
fn cells_level_with_a_filled_cell_are_filled() {
    // one aquarium of 2 x 2 cells: a row is filled as a whole or not at all
    let puzzle = Puzzle::new(open_grid(4), vec![0, 2], vec![1, 1]).unwrap();
    let formula = formulate(&puzzle);
    assert_eq!(models(&formula, 4), vec![vec![false, false, true, true]]);
    let half = Puzzle::new(open_grid(4), vec![0, 1], vec![1, 0]).unwrap();
    assert!(models(&formulate(&half), 4).is_empty());
}

#[test]
fn solutions_meet_clues_and_gravity() {
    // 3 x 3 grid with a tall aquarium on the left and a wide one on the right
    //   0 | 1   2
    //   3 | 4   5
    //   6 | 7   8
    let cells = vec![
        walls(false, false),
        walls(false, true),
        walls(false, false),
        walls(false, false),
        walls(false, true),
        walls(false, false),
        walls(false, false),
        walls(false, true),
        walls(false, false),
    ];
    let row_fill = vec![0, 1, 3];
    let col_fill = vec![2, 1, 1];
    let puzzle = Puzzle::new(cells, row_fill.clone(), col_fill.clone()).unwrap();
    let regions = Regions::build(&puzzle);
    let formula = encode(&puzzle, &regions);
    let found = models(&formula, 9);
    assert_eq!(found.len(), 1);
    let solution = &found[0];
    assert_eq!(
        solution,
        &vec![false, false, false, true, false, false, true, true, true]
    );
    for r in 0..3 {
        let filled = (0..3).filter(|c| solution[3 * r + c]).count();
        assert_eq!(filled as i32, row_fill[r]);
    }
    for c in 0..3 {
        let filled = (0..3).filter(|r| solution[3 * r + c]).count();
        assert_eq!(filled as i32, col_fill[c]);
    }
    for a in 0..9 {
        for b in 0..9 {
            if regions.equiv(a, b) && a / 3 <= b / 3 && solution[a] {
                assert!(solution[b]);
            }
        }
    }
}

#[test]
fn unique_solution_is_found_again() {
    let cells = vec![walls(false, false), walls(true, false)];
    let first_puzzle = Puzzle::new(cells.clone(), vec![1, 0], vec![1]).unwrap();
    let second_puzzle = Puzzle::new(cells, vec![1, 0], vec![1]).unwrap();
    let first_formula = formulate(&first_puzzle);
    let second_formula = formulate(&second_puzzle);
    let first = conclude(&first_formula, search(&first_formula, 2)).unwrap();
    let second = conclude(&second_formula, SolverOutcome::Satisfiable(vec![true, false])).unwrap();
    assert_eq!(first, second);
    assert_eq!(render(1, 2, &first), render(1, 2, &second));
}

#[test]
fn conclusion_follows_the_report() {
    let puzzle = Puzzle::new(open_grid(1), vec![1], vec![1]).unwrap();
    let formula = formulate(&puzzle);
    assert_eq!(conclude(&formula, SolverOutcome::Satisfiable(vec![true])), Ok(vec![true]));
    assert_eq!(
        conclude(&formula, SolverOutcome::Satisfiable(vec![false])),
        Err(PuzzleError::SolverIndeterminate)
    );
    assert_eq!(
        conclude(&formula, SolverOutcome::Satisfiable(vec![true, true])),
        Err(PuzzleError::SolverIndeterminate)
    );
    assert_eq!(conclude(&formula, SolverOutcome::Unsatisfiable), Err(PuzzleError::Unsatisfiable));
    assert_eq!(conclude(&formula, SolverOutcome::Unknown), Err(PuzzleError::SolverIndeterminate));
}

#[test]
fn rendering_a_grid() {
    let lines = render(2, 2, &vec![true, false, true, true]).unwrap();
    assert_eq!(
        lines,
        vec!["┌───┬───┐", "│ █ │   │", "├───┼───┤", "│ █ │ █ │", "└───┴───┘"]
    );
    let wide = render(3, 1, &vec![false, true, false]).unwrap();
    assert_eq!(wide, vec!["┌───┬───┬───┐", "│   │ █ │   │", "└───┴───┴───┘"]);
}

#[test]
fn rendering_refuses_a_wrong_length() {
    assert_eq!(render(2, 2, &vec![true, false, true]), Err(PuzzleError::RenderingPrecondition));
    assert_eq!(render(1, 1, &vec![]), Err(PuzzleError::RenderingPrecondition));
    assert_eq!(
        render(usize::MAX, 2, &vec![true]),
        Err(PuzzleError::RenderingPrecondition)
    );
}

#[test]
fn rendering_an_empty_grid() {
    assert_eq!(render(0, 0, &vec![]).unwrap(), vec!["┌───┐", "└───┘"]);
    assert_eq!(render(0, 1, &vec![]).unwrap(), vec!["┌───┐", "│", "└───┘"]);
    assert_eq!(render(2, 0, &vec![]).unwrap(), vec!["┌───┬───┐", "└───┴───┘"]);
}

#[test]
fn every_failure_has_a_message() {
    assert_eq!(PuzzleError::MalformedInput.message(), "malformed puzzle description");
    assert_eq!(PuzzleError::OutOfRangeClue.message(), "a clue is out of range");
    assert_eq!(PuzzleError::Unsatisfiable.message(), "the puzzle has no solution");
    assert_eq!(
        PuzzleError::SolverIndeterminate.message(),
        "the solver could not decide the puzzle"
    );
    assert_eq!(
        PuzzleError::RenderingPrecondition.message(),
        "the assignment does not fit the grid"
    );
}

#[test]
fn well_formedness_is_tested() {
    let mut puzzle = Puzzle::new(open_grid(2), vec![1, 0], vec![1]).unwrap();
    assert!(puzzle.is_well_formed());
    puzzle.width = 2;
    assert!(!puzzle.is_well_formed());
    puzzle.col_fill.push(0);
    assert!(!puzzle.is_well_formed());
    puzzle.walls.push(Walls::new());
    puzzle.walls.push(Walls::new());
    assert!(puzzle.is_well_formed());
    puzzle.height = 0;
    assert!(!puzzle.is_well_formed());
}
