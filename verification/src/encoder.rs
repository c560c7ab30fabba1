//! The rules of a puzzle, written as a formula.
//!
//! The formula has one variable per cell, true where the cell is filled. It
//! asks that every row and every column hold exactly as many filled cells as
//! their clue says, and that within every aquarium a filled cell implies
//! every cell that is level with it or below it. Its satisfying assignments
//! are exactly the solutions of the puzzle.

use crate::formula::{all_assigned, all_hold, lemma_all_hold_push, selected, Constraint, Formula};
use crate::puzzle::{count_true, lemma_index_of, Grid, Puzzle};
use crate::regions::{lemma_connected_symmetric, Regions};
use vstd::prelude::*;

verus! {

/// The first `upto` rows meet their clues.
spec fn rows_filled_upto(grid: Grid, cells: Seq<bool>, upto: int) -> bool {
    forall|row: int|
        0 <= row < upto ==> count_true(#[trigger] grid.row_cells(cells, row)) == grid.row_fill[row]
}

/// The first `upto` columns meet their clues.
spec fn cols_filled_upto(grid: Grid, cells: Seq<bool>, upto: int) -> bool {
    forall|col: int|
        0 <= col < upto ==> count_true(#[trigger] grid.col_cells(cells, col)) == grid.col_fill[col]
}

/// If `a` and `b` share an aquarium and `a` is level with `b` or below it,
/// then `a` is filled whenever `b` is.
spec fn settled_onto(grid: Grid, cells: Seq<bool>, a: int, b: int) -> bool {
    grid.connected(a, b) && grid.row_of(a) >= grid.row_of(b) && cells[b] ==> cells[a]
}

/// If `a` and `b` share an aquarium and `b` is level with `a` or below it,
/// then `b` is filled whenever `a` is.
spec fn settled_from(grid: Grid, cells: Seq<bool>, a: int, b: int) -> bool {
    grid.connected(a, b) && grid.row_of(a) <= grid.row_of(b) && cells[a] ==> cells[b]
}

/// Gravity holds between `a` and `b`, whichever of them is the lower one.
spec fn pair_settled(grid: Grid, cells: Seq<bool>, a: int, b: int) -> bool {
    settled_onto(grid, cells, a, b) && settled_from(grid, cells, a, b)
}

/// Gravity holds for every pair of cells that comes before the pair
/// `(a_end, b_end)` in row-major order of pairs.
spec fn settled_upto(grid: Grid, cells: Seq<bool>, a_end: int, b_end: int) -> bool {
    forall|a: int, b: int|
        0 <= a < grid.cells() && 0 <= b < grid.cells() && (a < a_end || (a == a_end && b < b_end))
            ==> #[trigger] pair_settled(grid, cells, a, b)
}

/// How far the encoding has come: which rows, columns and pairs of cells
/// it has covered, and whether it is halfway through the pair at hand.
struct Progress {
    rows: int,
    cols: int,
    a_end: int,
    b_end: int,
    half: bool,
}

/// The rules covered so far hold of `cells`.
spec fn covered(grid: Grid, cells: Seq<bool>, at: Progress) -> bool {
    &&& rows_filled_upto(grid, cells, at.rows)
    &&& cols_filled_upto(grid, cells, at.cols)
    &&& settled_upto(grid, cells, at.a_end, at.b_end)
    &&& at.half ==> settled_onto(grid, cells, at.a_end, at.b_end)
}

/// The constraints say exactly what the rules covered so far say.
spec fn encodes_upto(constraints: Seq<Constraint>, grid: Grid, at: Progress) -> bool {
    forall|cells: Seq<bool>|
        cells.len() == grid.cells() ==> (#[trigger] all_hold(constraints, cells) <==> covered(
            grid,
            cells,
            at,
        ))
}

/// Adding a constraint that says what lies between two stages of progress
/// moves the encoding from the one to the other.
proof fn lemma_advance_with(
    constraints: Seq<Constraint>,
    added: Constraint,
    grid: Grid,
    from: Progress,
    to: Progress,
)
    requires
        encodes_upto(constraints, grid, from),
        forall|cells: Seq<bool>|
            #![trigger added.holds_for(cells)]
            cells.len() == grid.cells() ==> ((added.holds_for(cells) && covered(grid, cells, from))
                <==> covered(grid, cells, to)),
    ensures
        encodes_upto(constraints.push(added), grid, to),
{
    assert forall|cells: Seq<bool>| cells.len() == grid.cells() implies (#[trigger] all_hold(
        constraints.push(added),
        cells,
    ) <==> covered(grid, cells, to)) by {
        lemma_all_hold_push(constraints, added, cells);
        assert(all_hold(constraints, cells) <==> covered(grid, cells, from));
        let held = added.holds_for(cells);
        assert((held && covered(grid, cells, from)) <==> covered(grid, cells, to));
    }
}

/// Where two stages of progress cover the same rules, the encoding is at
/// both.
proof fn lemma_advance_without(constraints: Seq<Constraint>, grid: Grid, from: Progress, to: Progress)
    requires
        encodes_upto(constraints, grid, from),
        forall|cells: Seq<bool>|
            cells.len() == grid.cells() ==> (#[trigger] covered(grid, cells, from) <==> covered(
                grid,
                cells,
                to,
            )),
    ensures
        encodes_upto(constraints, grid, to),
{
    assert forall|cells: Seq<bool>| cells.len() == grid.cells() implies (#[trigger] all_hold(
        constraints,
        cells,
    ) <==> covered(grid, cells, to)) by {
        assert(covered(grid, cells, from) <==> covered(grid, cells, to));
    }
}

/// The cardinality constraint over the cells of a row says that the row
/// meets its clue.
proof fn lemma_row_constraint(grid: Grid, added: Constraint, row: int, cells: Seq<bool>)
    requires
        grid.wf(),
        0 <= row < grid.height,
        cells.len() == grid.cells(),
        added matches Constraint::Exactly { vars, count } && count == grid.row_fill[row]
            && vars@.len() == grid.width && forall|col: int|
            0 <= col < grid.width ==> (#[trigger] vars@[col]) == grid.index_of(row, col),
    ensures
        added.holds_for(cells) <==> count_true(grid.row_cells(cells, row)) == grid.row_fill[row],
{
    let vars = added->vars@;
    assert forall|col: int| 0 <= col < vars.len() implies (#[trigger] vars[col]) < cells.len() by {
        lemma_index_of(grid, row, col);
    }
    assert(all_assigned(cells, vars));
    assert(selected(cells, vars) =~= grid.row_cells(cells, row));
}

/// The cardinality constraint over the cells of a column says that the
/// column meets its clue.
proof fn lemma_col_constraint(grid: Grid, added: Constraint, col: int, cells: Seq<bool>)
    requires
        grid.wf(),
        0 <= col < grid.width,
        cells.len() == grid.cells(),
        added matches Constraint::Exactly { vars, count } && count == grid.col_fill[col]
            && vars@.len() == grid.height && forall|row: int|
            0 <= row < grid.height ==> (#[trigger] vars@[row]) == grid.index_of(row, col),
    ensures
        added.holds_for(cells) <==> count_true(grid.col_cells(cells, col)) == grid.col_fill[col],
{
    let vars = added->vars@;
    assert forall|row: int| 0 <= row < vars.len() implies (#[trigger] vars[row]) < cells.len() by {
        lemma_index_of(grid, row, col);
    }
    assert(all_assigned(cells, vars));
    assert(selected(cells, vars) =~= grid.col_cells(cells, col));
}

/// Once all rows, all columns and all pairs of cells are covered, the rules
/// covered are those of the puzzle.
proof fn lemma_covered_all(grid: Grid, cells: Seq<bool>)
    requires
        grid.wf(),
        cells.len() == grid.cells(),
    ensures
        covered(
            grid,
            cells,
            Progress {
                rows: grid.height,
                cols: grid.width,
                a_end: grid.cells(),
                b_end: 0,
                half: false,
            },
        ) <==> grid.is_solution(cells),
{
    let all = Progress {
        rows: grid.height,
        cols: grid.width,
        a_end: grid.cells(),
        b_end: 0,
        half: false,
    };
    if covered(grid, cells, all) {
        assert forall|a: int, b: int|
            0 <= a < grid.cells() && 0 <= b < grid.cells() && #[trigger] grid.connected(a, b)
                && grid.row_of(a) <= grid.row_of(b) && cells[a] implies cells[b] by {
            assert(pair_settled(grid, cells, a, b));
        }
    }
    if grid.is_solution(cells) {
        assert forall|a: int, b: int|
            0 <= a < grid.cells() && 0 <= b < grid.cells() implies #[trigger] pair_settled(
            grid,
            cells,
            a,
            b,
        ) by {
            if grid.connected(a, b) {
                lemma_connected_symmetric(grid, a, b);
            }
        }
    }
}

/// Builds the formula of a puzzle whose regions are known.
///
/// The formula has one variable per cell. For every row and every column it
/// asks that exactly as many of its cells are filled as the clue says; a clue
/// that no assignment can meet is encoded like any other. For every ordered
/// pair of cells of one region in which the second cell is level with the
/// first or below it, it asks that the first being filled implies the second
/// being filled.
pub fn encode(puzzle: &Puzzle, regions: &Regions) -> (formula: Formula)
    requires
        puzzle@.wf(),
        regions.partitions(puzzle@),
    ensures
        formula.encodes(puzzle@),
{
    let ghost grid = puzzle@;
    let width = puzzle.width;
    let height = puzzle.height;
    let total = puzzle.walls.len();
    let mut constraints: Vec<Constraint> = Vec::new();
    let mut row: usize = 0;
    while row < height
        invariant
            grid == puzzle@,
            grid.wf(),
            width == puzzle.width,
            height == puzzle.height,
            total == grid.cells(),
            row <= height,
            encodes_upto(
                constraints@,
                grid,
                Progress { rows: row as int, cols: 0, a_end: 0, b_end: 0, half: false },
            ),
        decreases height - row,
    {
        let mut vars: Vec<usize> = Vec::new();
        let mut col: usize = 0;
        while col < width
            invariant
                grid == puzzle@,
                grid.wf(),
                width == puzzle.width,
                height == puzzle.height,
                total == grid.cells(),
                row < height,
                col <= width,
                vars@.len() == col,
                forall|c: int| 0 <= c < col ==> (#[trigger] vars@[c]) == grid.index_of(row as int, c),
            decreases width - col,
        {
            proof {
                lemma_index_of(grid, row as int, col as int);
                assert(0 <= width * row) by (nonlinear_arith);
            }
            vars.push(width * row + col);
            col += 1;
        }
        let added = Constraint::Exactly { vars, count: puzzle.row_fill[row] };
        proof {
            let from = Progress { rows: row as int, cols: 0, a_end: 0, b_end: 0, half: false };
            let to = Progress { rows: row + 1, cols: 0, a_end: 0, b_end: 0, half: false };
            assert forall|cells: Seq<bool>| cells.len() == grid.cells() implies ((
            #[trigger] added.holds_for(cells) && covered(grid, cells, from)) <==> covered(
                grid,
                cells,
                to,
            )) by {
                lemma_row_constraint(grid, added, row as int, cells);
            }
            lemma_advance_with(constraints@, added, grid, from, to);
        }
        constraints.push(added);
        row += 1;
    }
    let mut col: usize = 0;
    while col < width
        invariant
            grid == puzzle@,
            grid.wf(),
            width == puzzle.width,
            height == puzzle.height,
            total == grid.cells(),
            col <= width,
            encodes_upto(
                constraints@,
                grid,
                Progress { rows: height as int, cols: col as int, a_end: 0, b_end: 0, half: false },
            ),
        decreases width - col,
    {
        let mut vars: Vec<usize> = Vec::new();
        let mut row: usize = 0;
        while row < height
            invariant
                grid == puzzle@,
                grid.wf(),
                width == puzzle.width,
                height == puzzle.height,
                total == grid.cells(),
                col < width,
                row <= height,
                vars@.len() == row,
                forall|r: int| 0 <= r < row ==> (#[trigger] vars@[r]) == grid.index_of(r, col as int),
            decreases height - row,
        {
            proof {
                lemma_index_of(grid, row as int, col as int);
                assert(0 <= width * row) by (nonlinear_arith);
            }
            vars.push(width * row + col);
            row += 1;
        }
        let added = Constraint::Exactly { vars, count: puzzle.col_fill[col] };
        proof {
            let from = Progress {
                rows: height as int,
                cols: col as int,
                a_end: 0,
                b_end: 0,
                half: false,
            };
            let to = Progress { rows: height as int, cols: col + 1, a_end: 0, b_end: 0, half: false };
            assert forall|cells: Seq<bool>| cells.len() == grid.cells() implies ((
            #[trigger] added.holds_for(cells) && covered(grid, cells, from)) <==> covered(
                grid,
                cells,
                to,
            )) by {
                lemma_col_constraint(grid, added, col as int, cells);
            }
            lemma_advance_with(constraints@, added, grid, from, to);
        }
        constraints.push(added);
        col += 1;
    }
    let mut a: usize = 0;
    while a < total
        invariant
            grid == puzzle@,
            grid.wf(),
            regions.partitions(grid),
            width == puzzle.width,
            height == puzzle.height,
            total == grid.cells(),
            a <= total,
            encodes_upto(
                constraints@,
                grid,
                Progress {
                    rows: height as int,
                    cols: width as int,
                    a_end: a as int,
                    b_end: 0,
                    half: false,
                },
            ),
        decreases total - a,
    {
        let mut b: usize = 0;
        while b < total
            invariant
                grid == puzzle@,
                grid.wf(),
                regions.partitions(grid),
                width == puzzle.width,
                height == puzzle.height,
                total == grid.cells(),
                a < total,
                b <= total,
                encodes_upto(
                    constraints@,
                    grid,
                    Progress {
                        rows: height as int,
                        cols: width as int,
                        a_end: a as int,
                        b_end: b as int,
                        half: false,
                    },
                ),
            decreases total - b,
        {
            let ghost start = Progress {
                rows: height as int,
                cols: width as int,
                a_end: a as int,
                b_end: b as int,
                half: false,
            };
            let ghost halfway = Progress {
                rows: height as int,
                cols: width as int,
                a_end: a as int,
                b_end: b as int,
                half: true,
            };
            let ghost done = Progress {
                rows: height as int,
                cols: width as int,
                a_end: a as int,
                b_end: b + 1,
                half: false,
            };
            proof {
                assert forall|cells: Seq<bool>| cells.len() == grid.cells() implies ((covered(
                    grid,
                    cells,
                    halfway,
                ) && settled_from(grid, cells, a as int, b as int)) <==> #[trigger] covered(
                    grid,
                    cells,
                    done,
                )) by {
                    if covered(grid, cells, done) {
                        assert(pair_settled(grid, cells, a as int, b as int));
                    }
                }
            }
            if regions.equiv(a, b) {
                assert(grid.connected(a as int, b as int));
                if a / width >= b / width {
                    let added = Constraint::Implies { premise: b, conclusion: a };
                    proof {
                        lemma_advance_with(constraints@, added, grid, start, halfway);
                    }
                    constraints.push(added);
                } else {
                    proof {
                        lemma_advance_without(constraints@, grid, start, halfway);
                    }
                }
                if a / width <= b / width {
                    let added = Constraint::Implies { premise: a, conclusion: b };
                    proof {
                        lemma_advance_with(constraints@, added, grid, halfway, done);
                    }
                    constraints.push(added);
                } else {
                    proof {
                        lemma_advance_without(constraints@, grid, halfway, done);
                    }
                }
            } else {
                assert(!grid.connected(a as int, b as int));
                proof {
                    lemma_advance_without(constraints@, grid, start, halfway);
                    lemma_advance_without(constraints@, grid, halfway, done);
                }
            }
            b += 1;
        }
        proof {
            let from = Progress {
                rows: height as int,
                cols: width as int,
                a_end: a as int,
                b_end: total as int,
                half: false,
            };
            let to = Progress {
                rows: height as int,
                cols: width as int,
                a_end: a + 1,
                b_end: 0,
                half: false,
            };
            lemma_advance_without(constraints@, grid, from, to);
        }
        a += 1;
    }
    let formula = Formula { variables: total, constraints };
    proof {
        assert forall|cells: Seq<bool>| #[trigger]
            formula.satisfied_by(cells) <==> grid.is_solution(cells) by {
            if cells.len() == grid.cells() {
                lemma_covered_all(grid, cells);
            }
        }
    }
    formula
}

impl Formula {
    /// The formula says what the rules of `grid` say: it has one variable per
    /// cell, and the assignments that satisfy it are exactly the solutions.
    pub open spec fn encodes(&self, grid: Grid) -> bool {
        &&& self.variables == grid.cells()
        &&& forall|cells: Seq<bool>| #[trigger]
            self.satisfied_by(cells) <==> grid.is_solution(cells)
    }
}

} // verus!
