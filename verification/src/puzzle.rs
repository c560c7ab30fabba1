//! The puzzle, its mathematical model, and what it means to solve it.

use crate::error::PuzzleError;
use crate::walls::Walls;
use vstd::prelude::*;

verus! {

/// An Aquarium puzzle: a grid of `width * height` cells in row-major order,
/// the walls of every cell, and the number of filled cells asked of every row
/// and every column.
#[derive(Debug)]
pub struct Puzzle {
    pub width: usize,
    pub height: usize,
    pub walls: Vec<Walls>,
    pub row_fill: Vec<i32>,
    pub col_fill: Vec<i32>,
}

/// The mathematical model of a [`Puzzle`].
pub struct Grid {
    pub width: int,
    pub height: int,
    pub walls: Seq<Walls>,
    pub row_fill: Seq<i32>,
    pub col_fill: Seq<i32>,
}

/// The number of `true` entries of `cells`.
pub open spec fn count_true(cells: Seq<bool>) -> nat
    decreases cells.len(),
{
    if cells.len() == 0 {
        0
    } else {
        count_true(cells.drop_last()) + if cells.last() {
            1nat
        } else {
            0nat
        }
    }
}

/// Counting the `true` entries of a sequence with one more entry.
pub proof fn lemma_count_true_push(cells: Seq<bool>, last: bool)
    ensures
        count_true(cells.push(last)) == count_true(cells) + if last {
            1nat
        } else {
            0nat
        },
{
    assert(cells.push(last).drop_last() =~= cells);
}

/// A sequence holds no more `true` entries than it has entries.
pub proof fn lemma_count_true_bound(cells: Seq<bool>)
    ensures
        count_true(cells) <= cells.len(),
    decreases cells.len(),
{
    if cells.len() > 0 {
        lemma_count_true_bound(cells.drop_last());
    }
}

impl Grid {
    /// The number of cells.
    pub open spec fn cells(self) -> int {
        self.width * self.height
    }

    /// Both dimensions are positive, and there is one pair of walls per cell,
    /// one clue per row and one clue per column.
    pub open spec fn wf(self) -> bool {
        &&& self.width > 0
        &&& self.height > 0
        &&& self.walls.len() == self.cells()
        &&& self.row_fill.len() == self.height
        &&& self.col_fill.len() == self.width
    }

    /// The row of the cell with index `idx`.
    pub open spec fn row_of(self, idx: int) -> int {
        idx / self.width
    }

    /// The column of the cell with index `idx`.
    pub open spec fn col_of(self, idx: int) -> int {
        idx % self.width
    }

    /// The index of the cell in row `row` and column `col`.
    pub open spec fn index_of(self, row: int, col: int) -> int {
        self.width * row + col
    }

    /// Cell `idx` is not in the first row and has no wall towards the cell
    /// directly above it.
    pub open spec fn open_above(self, idx: int) -> bool {
        &&& 0 <= idx < self.cells()
        &&& self.row_of(idx) > 0
        &&& !self.walls[idx].has_top_wall
    }

    /// Cell `idx` is not in the first column and has no wall towards the cell
    /// directly to its left.
    pub open spec fn open_left(self, idx: int) -> bool {
        &&& 0 <= idx < self.cells()
        &&& self.col_of(idx) > 0
        &&& !self.walls[idx].has_left_wall
    }

    /// Cells `a` and `b` are neighbours in the grid, vertically or
    /// horizontally, with no wall between them.
    pub open spec fn adjoining(self, a: int, b: int) -> bool {
        ||| self.open_above(a) && b == a - self.width
        ||| self.open_left(a) && b == a - 1
        ||| self.open_above(b) && a == b - self.width
        ||| self.open_left(b) && a == b - 1
    }

    /// `path` is a walk through the grid: a non-empty sequence of cells in
    /// which every cell adjoins the next.
    pub open spec fn is_path(self, path: Seq<int>) -> bool {
        &&& path.len() > 0
        &&& forall|k: int| 0 <= k < path.len() ==> 0 <= #[trigger] path[k] < self.cells()
        &&& forall|k: int|
            0 <= k < path.len() - 1 ==> self.adjoining(#[trigger] path[k], path[k + 1])
    }

    /// Cells `a` and `b` lie in the same aquarium: some walk leads from one to
    /// the other without crossing a wall.
    pub open spec fn connected(self, a: int, b: int) -> bool {
        exists|path: Seq<int>| #[trigger]
            self.is_path(path) && path.first() == a && path.last() == b
    }

    /// The cells of row `row` of an assignment, from left to right.
    pub open spec fn row_cells(self, cells: Seq<bool>, row: int) -> Seq<bool> {
        Seq::new(self.width as nat, |col: int| cells[self.index_of(row, col)])
    }

    /// The cells of column `col` of an assignment, from top to bottom.
    pub open spec fn col_cells(self, cells: Seq<bool>, col: int) -> Seq<bool> {
        Seq::new(self.height as nat, |row: int| cells[self.index_of(row, col)])
    }

    /// Every row holds as many filled cells as its clue asks for.
    pub open spec fn rows_filled(self, cells: Seq<bool>) -> bool {
        forall|row: int|
            0 <= row < self.height ==> count_true(#[trigger] self.row_cells(cells, row))
                == self.row_fill[row]
    }

    /// Every column holds as many filled cells as its clue asks for.
    pub open spec fn cols_filled(self, cells: Seq<bool>) -> bool {
        forall|col: int|
            0 <= col < self.width ==> count_true(#[trigger] self.col_cells(cells, col))
                == self.col_fill[col]
    }

    /// Water obeys gravity: below or level with a filled cell, every cell of
    /// the same aquarium is filled.
    pub open spec fn settled(self, cells: Seq<bool>) -> bool {
        forall|a: int, b: int|
            0 <= a < self.cells() && 0 <= b < self.cells() && #[trigger] self.connected(a, b)
                && self.row_of(a) <= self.row_of(b) && cells[a] ==> cells[b]
    }

    /// `cells` solves the puzzle: it assigns filled or empty to every cell,
    /// meets every row and column clue, and obeys gravity in every aquarium.
    pub open spec fn is_solution(self, cells: Seq<bool>) -> bool {
        &&& cells.len() == self.cells()
        &&& self.rows_filled(cells)
        &&& self.cols_filled(cells)
        &&& self.settled(cells)
    }

    /// Every clue lies between zero and the length of its row or column.
    pub open spec fn clues_in_range(self) -> bool {
        &&& forall|row: int|
            0 <= row < self.row_fill.len() ==> 0 <= #[trigger] self.row_fill[row] <= self.width
        &&& forall|col: int|
            0 <= col < self.col_fill.len() ==> 0 <= #[trigger] self.col_fill[col] <= self.height
    }
}

impl View for Puzzle {
    type V = Grid;

    open spec fn view(&self) -> Grid {
        Grid {
            width: self.width as int,
            height: self.height as int,
            walls: self.walls@,
            row_fill: self.row_fill@,
            col_fill: self.col_fill@,
        }
    }
}

/// In a grid of positive width, the cell in row `row` and column `col` has an
/// index below the number of cells, and its row and column are recovered from
/// the index by division.
pub proof fn lemma_index_of(grid: Grid, row: int, col: int)
    requires
        grid.width > 0,
        0 <= row < grid.height,
        0 <= col < grid.width,
    ensures
        0 <= grid.index_of(row, col) < grid.cells(),
        grid.row_of(grid.index_of(row, col)) == row,
        grid.col_of(grid.index_of(row, col)) == col,
{
    let w = grid.width;
    let h = grid.height;
    assert(0 <= w * row && w * row + w <= w * h) by (nonlinear_arith)
        requires
            w > 0,
            0 <= row < h,
    ;
    assert(w * row == row * w) by (nonlinear_arith);
    vstd::arithmetic::div_mod::lemma_fundamental_div_mod_converse(w * row + col, w, row, col);
}

/// In a grid of positive width, every index below the number of cells names
/// the cell in its row and column, and its row is one of the grid's.
pub proof fn lemma_row_col_of(grid: Grid, idx: int)
    requires
        grid.width > 0,
        0 <= idx < grid.cells(),
    ensures
        0 <= grid.row_of(idx) < grid.height,
        0 <= grid.col_of(idx) < grid.width,
        grid.index_of(grid.row_of(idx), grid.col_of(idx)) == idx,
{
    let w = grid.width;
    let h = grid.height;
    vstd::arithmetic::div_mod::lemma_fundamental_div_mod(idx, w);
    let q = idx / w;
    assert(0 <= idx % w < w);
    assert(0 <= q < h) by (nonlinear_arith)
        requires
            w > 0,
            0 <= idx < w * h,
            idx == w * q + (idx % w),
            0 <= idx % w < w,
    ;
}

/// A puzzle with a clue that is negative or larger than its row or column is
/// long has no solution.
pub proof fn lemma_out_of_range_clue_has_no_solution(grid: Grid, cells: Seq<bool>)
    requires
        grid.wf(),
        !grid.clues_in_range(),
    ensures
        !grid.is_solution(cells),
{
    if grid.is_solution(cells) {
        assert forall|row: int| 0 <= row < grid.row_fill.len() implies 0
            <= #[trigger] grid.row_fill[row] <= grid.width by {
            lemma_count_true_bound(grid.row_cells(cells, row));
        }
        assert forall|col: int| 0 <= col < grid.col_fill.len() implies 0
            <= #[trigger] grid.col_fill[col] <= grid.height by {
            lemma_count_true_bound(grid.col_cells(cells, col));
        }
    }
}

impl Puzzle {
    /// Whether the dimensions are positive and fit the numbers of walls and
    /// clues.
    pub fn is_well_formed(&self) -> (fits: bool)
        ensures
            fits == self@.wf(),
    {
        if self.width == 0 || self.height == 0 || self.row_fill.len() != self.height
            || self.col_fill.len() != self.width {
            return false;
        }
        let cells = self.walls.len();
        match self.width.checked_mul(self.height) {
            Some(total) => total == cells,
            None => false,
        }
    }

    /// Builds a puzzle from the walls of its cells in row-major order and its
    /// clues. The grid has one row per entry of `row_fill` and one column per
    /// entry of `col_fill`. The input is malformed, and refused, if there is
    /// no row, no column, or not exactly one pair of walls per cell.
    pub fn new(walls: Vec<Walls>, row_fill: Vec<i32>, col_fill: Vec<i32>) -> (made: Result<
        Puzzle,
        PuzzleError,
    >)
        ensures
            made is Ok <==> row_fill.len() > 0 && col_fill.len() > 0 && walls.len()
                == row_fill.len() * col_fill.len(),
            made matches Ok(puzzle) ==> puzzle@.wf() && puzzle.width == col_fill.len()
                && puzzle.height == row_fill.len() && puzzle.walls == walls && puzzle.row_fill
                == row_fill && puzzle.col_fill == col_fill,
            made matches Err(e) ==> e == PuzzleError::MalformedInput,
    {
        let height = row_fill.len();
        let width = col_fill.len();
        if width == 0 || height == 0 {
            return Err(PuzzleError::MalformedInput);
        }
        assert(height * width == width * height) by (nonlinear_arith);
        match width.checked_mul(height) {
            Some(cells) => {
                if cells == walls.len() {
                    Ok(Puzzle { width, height, walls, row_fill, col_fill })
                } else {
                    Err(PuzzleError::MalformedInput)
                }
            },
            None => Err(PuzzleError::MalformedInput),
        }
    }

    /// Tells whether some clue cannot possibly be met because it is negative
    /// or exceeds the length of its row or column. Such a puzzle has no
    /// solution, so this check only finds early what solving would find.
    pub fn check_clues(&self) -> (checked: Result<(), PuzzleError>)
        requires
            self@.wf(),
        ensures
            checked is Ok <==> self@.clues_in_range(),
            checked matches Err(e) ==> e == PuzzleError::OutOfRangeClue,
    {
        let mut row: usize = 0;
        while row < self.row_fill.len()
            invariant
                row <= self.row_fill.len(),
                forall|r: int| 0 <= r < row ==> 0 <= #[trigger] self.row_fill[r] <= self.width,
            decreases self.row_fill.len() - row,
        {
            let clue = self.row_fill[row];
            if clue < 0 || clue as usize > self.width {
                assert(!(0 <= self@.row_fill[row as int] <= self@.width));
                return Err(PuzzleError::OutOfRangeClue);
            }
            row += 1;
        }
        let mut col: usize = 0;
        while col < self.col_fill.len()
            invariant
                col <= self.col_fill.len(),
                forall|r: int|
                    0 <= r < self.row_fill.len() ==> 0 <= #[trigger] self.row_fill[r]
                        <= self.width,
                forall|c: int| 0 <= c < col ==> 0 <= #[trigger] self.col_fill[c] <= self.height,
            decreases self.col_fill.len() - col,
        {
            let clue = self.col_fill[col];
            if clue < 0 || clue as usize > self.height {
                assert(!(0 <= self@.col_fill[col as int] <= self@.height));
                return Err(PuzzleError::OutOfRangeClue);
            }
            col += 1;
        }
        Ok(())
    }
}

} // verus!
