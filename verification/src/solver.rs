//! The boundary to the satisfiability engine.
//!
//! The engine itself lives outside this library. It is handed a [`Formula`]
//! and reports a [`SolverOutcome`]; what the report means for the puzzle is
//! decided here. A model is accepted only after it has been evaluated against
//! the formula, so that no grid is ever shown that breaks a rule.

use crate::encoder::encode;
use crate::error::PuzzleError;
use crate::formula::Formula;
use crate::puzzle::{count_true, Grid, Puzzle};
use crate::regions::Regions;
use vstd::prelude::*;

verus! {

/// What a satisfiability engine reports about a formula.
#[derive(Debug)]
pub enum SolverOutcome {
    /// The formula is satisfiable, with a value for every variable.
    Satisfiable(Vec<bool>),
    /// The formula has no satisfying assignment.
    Unsatisfiable,
    /// The engine could not decide within its limits.
    Unknown,
}

/// What a report of the engine amounts to: the model if it satisfies the
/// formula, and otherwise the failure to report.
pub open spec fn concluded(formula: Formula, outcome: SolverOutcome) -> Result<
    Seq<bool>,
    PuzzleError,
> {
    match outcome {
        SolverOutcome::Satisfiable(model) => if formula.satisfied_by(model@) {
            Ok(model@)
        } else {
            Err(PuzzleError::SolverIndeterminate)
        },
        SolverOutcome::Unsatisfiable => Err(PuzzleError::Unsatisfiable),
        SolverOutcome::Unknown => Err(PuzzleError::SolverIndeterminate),
    }
}

/// Builds the formula of a puzzle: discovers its regions and encodes its
/// rules. The satisfying assignments of the formula are exactly the
/// solutions of the puzzle.
pub fn formulate(puzzle: &Puzzle) -> (formula: Formula)
    requires
        puzzle@.wf(),
    ensures
        formula.encodes(puzzle@),
{
    let regions = Regions::build(puzzle);
    encode(puzzle, &regions)
}

/// Turns the report of the engine into the solution or into a failure.
///
/// A model that satisfies the formula is the solution. A model that does not
/// is refused, and counts as the engine having reached no verdict, as does
/// its own report of that. A report that the formula is unsatisfiable means
/// that the puzzle has no solution.
pub fn conclude(formula: &Formula, outcome: SolverOutcome) -> (result: Result<
    Vec<bool>,
    PuzzleError,
>)
    ensures
        result matches Ok(cells) ==> concluded(*formula, outcome) == Ok::<Seq<bool>, PuzzleError>(
            cells@,
        ),
        result matches Err(e) ==> concluded(*formula, outcome) == Err::<Seq<bool>, PuzzleError>(e),
{
    match outcome {
        SolverOutcome::Satisfiable(model) => {
            if formula.is_satisfied_by(&model) {
                Ok(model)
            } else {
                Err(PuzzleError::SolverIndeterminate)
            }
        },
        SolverOutcome::Unsatisfiable => Err(PuzzleError::Unsatisfiable),
        SolverOutcome::Unknown => Err(PuzzleError::SolverIndeterminate),
    }
}

/// In every solved puzzle, each row and each column holds exactly as many
/// filled cells as its clue asks for, and within every aquarium a filled cell
/// has only filled cells level with it or below it.
///
/// A puzzle is solved when the engine's model has been accepted for a formula
/// that encodes the puzzle.
pub proof fn lemma_accepted_model_obeys_rules(
    grid: Grid,
    formula: Formula,
    outcome: SolverOutcome,
    cells: Seq<bool>,
)
    requires
        formula.encodes(grid),
        concluded(formula, outcome) == Ok::<Seq<bool>, PuzzleError>(cells),
    ensures
        grid.is_solution(cells),
        cells.len() == grid.cells(),
        forall|row: int|
            0 <= row < grid.height ==> count_true(#[trigger] grid.row_cells(cells, row))
                == grid.row_fill[row],
        forall|col: int|
            0 <= col < grid.width ==> count_true(#[trigger] grid.col_cells(cells, col))
                == grid.col_fill[col],
        forall|a: int, b: int|
            0 <= a < grid.cells() && 0 <= b < grid.cells() && #[trigger] grid.connected(a, b)
                && grid.row_of(a) <= grid.row_of(b) && cells[a] ==> cells[b],
{
    assert(formula.satisfied_by(cells));
}

/// The engine is only told that a puzzle has no solution if that is what it
/// found, and every solution of the puzzle is a model that would have been
/// accepted.
pub proof fn lemma_solutions_are_accepted(grid: Grid, formula: Formula, model: Vec<bool>)
    requires
        formula.encodes(grid),
        grid.is_solution(model@),
    ensures
        concluded(formula, SolverOutcome::Satisfiable(model)) == Ok::<Seq<bool>, PuzzleError>(
            model@,
        ),
{
    assert(formula.satisfied_by(model@));
}

/// If a puzzle has only one solution, every solve of it that succeeds yields
/// that solution: neither the representatives chosen for the regions, nor
/// the formula built from them, nor the engine's choice of model can change
/// the answer.
pub proof fn lemma_unique_solution_is_stable(
    grid: Grid,
    first_formula: Formula,
    first_outcome: SolverOutcome,
    first: Seq<bool>,
    second_formula: Formula,
    second_outcome: SolverOutcome,
    second: Seq<bool>,
)
    requires
        forall|x: Seq<bool>, y: Seq<bool>|
            #[trigger] grid.is_solution(x) && #[trigger] grid.is_solution(y) ==> x == y,
        first_formula.encodes(grid),
        second_formula.encodes(grid),
        concluded(first_formula, first_outcome) == Ok::<Seq<bool>, PuzzleError>(first),
        concluded(second_formula, second_outcome) == Ok::<Seq<bool>, PuzzleError>(second),
    ensures
        first == second,
{
    lemma_accepted_model_obeys_rules(grid, first_formula, first_outcome, first);
    lemma_accepted_model_obeys_rules(grid, second_formula, second_outcome, second);
}

} // verus!
