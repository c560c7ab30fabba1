//! The ways in which handling a puzzle can fail.

use vstd::prelude::*;

verus! {

/// A failure of one stage of the pipeline. Every failure is final for the
/// puzzle at hand: nothing is retried and no partial grid is produced.
#[derive(Clone, Copy, Debug, PartialEq, Eq, Structural)]
pub enum PuzzleError {
    /// The puzzle description lacks required parts, or the numbers of rows,
    /// columns and cells do not fit together.
    MalformedInput,
    /// A clue is negative or larger than the length of its row or column.
    OutOfRangeClue,
    /// No assignment of water satisfies the rules.
    Unsatisfiable,
    /// The solving engine gave no usable verdict.
    SolverIndeterminate,
    /// An assignment was handed to the renderer whose length is not the
    /// number of cells.
    RenderingPrecondition,
}

impl PuzzleError {
    /// The text of the message for each failure.
    pub open spec fn message_text(self) -> Seq<char> {
        match self {
            PuzzleError::MalformedInput => "malformed puzzle description"@,
            PuzzleError::OutOfRangeClue => "a clue is out of range"@,
            PuzzleError::Unsatisfiable => "the puzzle has no solution"@,
            PuzzleError::SolverIndeterminate => "the solver could not decide the puzzle"@,
            PuzzleError::RenderingPrecondition => "the assignment does not fit the grid"@,
        }
    }

    /// A one-line description of the failure, naming the stage that failed.
    pub fn message(&self) -> (text: String)
        ensures
            text@ == self.message_text(),
    {
        match self {
            PuzzleError::MalformedInput => "malformed puzzle description".to_owned(),
            PuzzleError::OutOfRangeClue => "a clue is out of range".to_owned(),
            PuzzleError::Unsatisfiable => "the puzzle has no solution".to_owned(),
            PuzzleError::SolverIndeterminate => "the solver could not decide the puzzle".to_owned(),
            PuzzleError::RenderingPrecondition => "the assignment does not fit the grid".to_owned(),
        }
    }
}

} // verus!
