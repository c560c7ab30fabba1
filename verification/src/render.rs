//! The picture of a solved grid.
//!
//! The grid is drawn as a box of cells three characters wide: a top border,
//! one line per row with a rule between every two rows, and a bottom border.
//! A filled cell shows a full block, an empty cell shows nothing.

use crate::error::PuzzleError;
use vstd::prelude::*;

verus! {

/// `unit` written `times` times in a row.
pub open spec fn repeated(unit: Seq<char>, times: nat) -> Seq<char>
    decreases times,
{
    if times == 0 {
        Seq::empty()
    } else {
        repeated(unit, (times - 1) as nat) + unit
    }
}

/// A horizontal rule across `width` cells: `left` over the first cell,
/// `joint` over each further cell, and `right` to close it. A grid without
/// columns gets the rule of a grid with one.
pub open spec fn rule(width: int, left: Seq<char>, joint: Seq<char>, right: Seq<char>) -> Seq<char> {
    left + repeated(
        joint,
        if width > 1 {
            (width - 1) as nat
        } else {
            0
        },
    ) + right
}

/// The top border.
pub open spec fn top_border(width: int) -> Seq<char> {
    rule(width, "┌───"@, "┬───"@, "┐"@)
}

/// The rule between two rows.
pub open spec fn separator(width: int) -> Seq<char> {
    rule(width, "├───"@, "┼───"@, "┤"@)
}

/// The bottom border.
pub open spec fn bottom_border(width: int) -> Seq<char> {
    rule(width, "└───"@, "┴───"@, "┘"@)
}

/// One cell with the bar to its left.
pub open spec fn cell_text(filled: bool) -> Seq<char> {
    if filled {
        "│ █ "@
    } else {
        "│   "@
    }
}

/// The first `upto` cells of row `row`.
pub open spec fn row_start(width: int, cells: Seq<bool>, row: int, upto: int) -> Seq<char>
    decreases upto,
{
    if upto <= 0 {
        Seq::empty()
    } else {
        row_start(width, cells, row, upto - 1) + cell_text(cells[width * row + upto - 1])
    }
}

/// The line of row `row`: its cells, and the bar that closes it.
pub open spec fn row_text(width: int, cells: Seq<bool>, row: int) -> Seq<char> {
    row_start(width, cells, row, width) + "│"@
}

/// The number of lines of the picture: the two borders, one line per row,
/// and one rule between every two rows.
pub open spec fn line_count(height: int) -> int {
    if height <= 0 {
        2
    } else {
        2 * height + 1
    }
}

/// Line `k` of the picture.
pub open spec fn line(width: int, height: int, cells: Seq<bool>, k: int) -> Seq<char> {
    if k == 0 {
        top_border(width)
    } else if k == line_count(height) - 1 {
        bottom_border(width)
    } else if k % 2 == 1 {
        row_text(width, cells, (k - 1) / 2)
    } else {
        separator(width)
    }
}

/// Writes a horizontal rule.
fn write_rule(width: usize, left: &str, joint: &str, right: &str) -> (text: String)
    ensures
        text@ == rule(width as int, left@, joint@, right@),
{
    let mut text = String::new();
    text.append(left);
    let ghost head = text@;
    assert(head =~= left@);
    assert(text@ =~= head + repeated(joint@, 0));
    let mut col: usize = 1;
    while col < width
        invariant
            1 <= col,
            col <= width || col == 1,
            head == left@,
            text@ == head + repeated(joint@, (col - 1) as nat),
        decreases width - col,
    {
        text.append(joint);
        assert(text@ == head + repeated(joint@, col as nat)) by {
            assert(repeated(joint@, col as nat) == repeated(joint@, (col - 1) as nat) + joint@);
            assert(text@ =~= head + (repeated(joint@, (col - 1) as nat) + joint@));
        }
        col += 1;
    }
    text.append(right);
    assert(text@ =~= rule(width as int, left@, joint@, right@));
    text
}

/// Writes the line of one row.
fn write_row(width: usize, cells: &Vec<bool>, row: usize) -> (text: String)
    requires
        width * row + width <= cells.len(),
    ensures
        text@ == row_text(width as int, cells@, row as int),
{
    let mut text = String::new();
    let mut col: usize = 0;
    assert(0 <= width * row) by (nonlinear_arith);
    while col < width
        invariant
            col <= width,
            0 <= width * row,
            width * row + width <= cells.len(),
            text@ == row_start(width as int, cells@, row as int, col as int),
        decreases width - col,
    {
        if cells[width * row + col] {
            text.append("│ █ ");
        } else {
            text.append("│   ");
        }
        assert(text@ == row_start(width as int, cells@, row as int, col + 1));
        col += 1;
    }
    text.append("│");
    text
}

/// Draws an assignment as a bordered grid, one string per line.
///
/// The assignment must hold one value per cell; if it does not, nothing is
/// drawn.
pub fn render(width: usize, height: usize, cells: &Vec<bool>) -> (drawn: Result<
    Vec<String>,
    PuzzleError,
>)
    ensures
        drawn is Ok <==> cells.len() == width * height,
        drawn matches Ok(lines) ==> lines@.len() == line_count(height as int) && forall|k: int|
            0 <= k < lines@.len() ==> (#[trigger] lines@[k])@ == line(
                width as int,
                height as int,
                cells@,
                k,
            ),
        drawn matches Err(e) ==> e == PuzzleError::RenderingPrecondition,
{
    match width.checked_mul(height) {
        Some(total) => {
            if total != cells.len() {
                return Err(PuzzleError::RenderingPrecondition);
            }
        },
        None => {
            return Err(PuzzleError::RenderingPrecondition);
        },
    }
    let mut lines: Vec<String> = Vec::new();
    lines.push(write_rule(width, "┌───", "┬───", "┐"));
    let mut row: usize = 0;
    while row < height
        invariant
            row <= height,
            cells.len() == width * height,
            lines@.len() == if row < height || height == 0 {
                1 + 2 * row
            } else {
                2 * row
            },
            forall|k: int|
                0 <= k < lines@.len() ==> (#[trigger] lines@[k])@ == line(
                    width as int,
                    height as int,
                    cells@,
                    k,
                ),
        decreases height - row,
    {
        assert(width * row + width <= width * height) by (nonlinear_arith)
            requires
                row < height,
        ;
        let text = write_row(width, cells, row);
        let ghost at = lines@.len() as int;
        assert(at % 2 == 1 && (at - 1) / 2 == row);
        lines.push(text);
        if row != height - 1 {
            lines.push(write_rule(width, "├───", "┼───", "┤"));
        }
        row += 1;
    }
    lines.push(write_rule(width, "└───", "┴───", "┘"));
    Ok(lines)
}

} // verus!
