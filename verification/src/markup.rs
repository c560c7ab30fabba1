//! Reading a puzzle out of the markup of a puzzle page.
//!
//! The page holds one element per clue, whose class tells whether the clue
//! belongs to a row or to a column, and one element per cell, whose class
//! tells which walls the cell has. Both kinds of element are found with
//! regular expressions; what is done with the matches is decided here.

use crate::error::PuzzleError;
use crate::matching::{captures, find, occurs, occurs_at, pattern_captures, pattern_compiles};
use crate::puzzle::{Grid, Puzzle};
use crate::walls::Walls;
use vstd::prelude::*;

verus! {

/// The groups of one match of a pattern: the bytes of each group that took
/// part in the match, the whole match first.
pub type Groups = Seq<Option<Seq<u8>>>;

/// Group `index` of a match, if the pattern has such a group and it took part.
pub open spec fn group(found: Groups, index: int) -> Option<Seq<u8>> {
    if 0 <= index < found.len() {
        found[index]
    } else {
        None
    }
}

/// The byte is one of the decimal digits `0` to `9`.
pub open spec fn is_digit(byte: u8) -> bool {
    48 <= byte <= 57
}

/// The number that a sequence of decimal digits denotes in base ten. The
/// empty sequence denotes zero.
pub open spec fn digits_value(bytes: Seq<u8>) -> int
    decreases bytes.len(),
{
    if bytes.len() == 0 {
        0
    } else {
        10 * digits_value(bytes.drop_last()) + (bytes.last() - 48)
    }
}

/// Every byte is a decimal digit, and the number denoted fits in an `i32`.
pub open spec fn is_number(bytes: Seq<u8>) -> bool {
    &&& forall|k: int| 0 <= k < bytes.len() ==> is_digit(#[trigger] bytes[k])
    &&& digits_value(bytes) <= i32::MAX
}

/// A sequence of digits denotes no negative number.
proof fn lemma_digits_value_not_negative(bytes: Seq<u8>)
    requires
        forall|k: int| 0 <= k < bytes.len() ==> is_digit(#[trigger] bytes[k]),
    ensures
        0 <= digits_value(bytes),
    decreases bytes.len(),
{
    if bytes.len() > 0 {
        lemma_digits_value_not_negative(bytes.drop_last());
    }
}

/// Reading more digits never makes the number smaller.
proof fn lemma_digits_value_grows(bytes: Seq<u8>, upto: int)
    requires
        forall|k: int| 0 <= k < bytes.len() ==> is_digit(#[trigger] bytes[k]),
        0 <= upto <= bytes.len(),
    ensures
        0 <= digits_value(bytes.take(upto)) <= digits_value(bytes),
    decreases bytes.len() - upto,
{
    if upto == bytes.len() {
        assert(bytes.take(upto) =~= bytes);
        lemma_digits_value_not_negative(bytes);
    } else {
        lemma_digits_value_grows(bytes, upto + 1);
        let longer = bytes.take(upto + 1);
        assert(longer.drop_last() =~= bytes.take(upto));
        lemma_digits_value_not_negative(bytes.take(upto));
    }
}

/// Reads a number written in decimal digits. The text must hold nothing but
/// digits, and the number must fit in an `i32`.
pub fn parse(bytes: &[u8]) -> (value: i32)
    requires
        is_number(bytes@),
    ensures
        value == digits_value(bytes@),
{
    let mut val: i64 = 0;
    let mut k: usize = 0;
    while k < bytes.len()
        invariant
            k <= bytes.len(),
            is_number(bytes@),
            val == digits_value(bytes@.take(k as int)),
            0 <= val <= i32::MAX,
        decreases bytes.len() - k,
    {
        proof {
            lemma_digits_value_grows(bytes@, k + 1);
            assert(bytes@.take(k + 1).drop_last() =~= bytes@.take(k as int));
            assert(is_digit(bytes@[k as int]));
        }
        val = 10 * val + (bytes[k] - 48) as i64;
        k += 1;
    }
    assert(bytes@.take(k as int) =~= bytes@);
    val as i32
}

/// Reads a number written in decimal digits, if that is what `bytes` holds:
/// a byte that is no digit, or a number too large for an `i32`, gives
/// nothing.
pub fn parse_checked(bytes: &[u8]) -> (value: Option<i32>)
    ensures
        value is Some <==> is_number(bytes@),
        value matches Some(v) ==> v == digits_value(bytes@),
{
    let mut val: i64 = 0;
    let mut k: usize = 0;
    while k < bytes.len()
        invariant
            k <= bytes.len(),
            forall|m: int| 0 <= m < k ==> is_digit(#[trigger] bytes@[m]),
            val == digits_value(bytes@.take(k as int)),
            0 <= val <= i32::MAX,
        decreases bytes.len() - k,
    {
        let byte = bytes[k];
        if byte < 48 || byte > 57 {
            assert(!is_digit(bytes@[k as int]));
            return None;
        }
        proof {
            assert(bytes@.take(k + 1).drop_last() =~= bytes@.take(k as int));
        }
        val = 10 * val + (byte - 48) as i64;
        if val > 2147483647 {
            proof {
                if is_number(bytes@) {
                    lemma_digits_value_grows(bytes@, k + 1);
                }
            }
            return None;
        }
        k += 1;
    }
    assert(bytes@.take(k as int) =~= bytes@);
    Some(parse(bytes))
}

/// Group `index` of a match, if the pattern has such a group and it took part.
fn group_of(found: &Vec<Option<Vec<u8>>>, index: usize) -> (bytes: Option<&Vec<u8>>)
    ensures
        bytes matches Some(part) ==> group(found.deep_view(), index as int) == Some(part@),
        bytes is None ==> group(found.deep_view(), index as int) is None,
{
    if index < found.len() {
        match &found[index] {
            Some(part) => {
                assert(part.deep_view() =~= part@);
                Some(part)
            },
            None => None,
        }
    } else {
        None
    }
}

/// Whether `needle` stands somewhere in `haystack`.
fn contains(haystack: &Vec<u8>, needle: &Vec<u8>) -> (found: bool)
    ensures
        found == occurs(haystack@, needle@),
{
    match find(haystack.as_slice(), needle.as_slice()) {
        Some(at) => {
            assert(occurs_at(haystack@, needle@, at as int));
            true
        },
        None => false,
    }
}

/// The pattern that finds the clue elements: its first group is what
/// follows the words `cell task` in the class, its second group the text of
/// the element.
pub open spec fn clue_pattern() -> Seq<char> {
    r#"<div class="cell task (.*?)".*?>(.*?)</div>"#@
}

/// The pattern that finds the cell elements: its first group is what follows
/// the words `cell selectable` in the class.
pub open spec fn cell_pattern() -> Seq<char> {
    r#"<div tabindex="1" class="cell selectable (.*?)""#@
}

/// The letter `h`, which marks the clue of a row.
pub open spec fn row_mark() -> Seq<u8> {
    seq![104u8]
}

/// The letter `v`, which marks the clue of a column.
pub open spec fn col_mark() -> Seq<u8> {
    seq![118u8]
}

/// The letters `bt`, which mark a wall on the top edge of a cell.
pub open spec fn top_mark() -> Seq<u8> {
    seq![98u8, 116u8]
}

/// The letters `bl`, which mark a wall on the left edge of a cell.
pub open spec fn left_mark() -> Seq<u8> {
    seq![98u8, 108u8]
}

/// A match of the clue pattern that can be read: it has a class, and its
/// text is a number.
pub open spec fn is_clue(found: Groups) -> bool {
    &&& group(found, 1) is Some
    &&& group(found, 2) matches Some(text)
    &&& is_number(text)
}

/// The clue belongs to a row.
pub open spec fn marks_row(found: Groups) -> bool {
    occurs(group(found, 1)->0, row_mark())
}

/// The clue belongs to a column: it is not marked for a row, but for a
/// column.
pub open spec fn marks_col(found: Groups) -> bool {
    !marks_row(found) && occurs(group(found, 1)->0, col_mark())
}

/// The number of filled cells that the clue asks for.
pub open spec fn clue_value(found: Groups) -> i32 {
    digits_value(group(found, 2)->0) as i32
}

/// The clues of the rows among the matches, from first to last.
pub open spec fn row_clues(all: Seq<Groups>) -> Seq<i32>
    decreases all.len(),
{
    if all.len() == 0 {
        Seq::empty()
    } else if marks_row(all.last()) {
        row_clues(all.drop_last()).push(clue_value(all.last()))
    } else {
        row_clues(all.drop_last())
    }
}

/// The clues of the columns among the matches, from first to last.
pub open spec fn col_clues(all: Seq<Groups>) -> Seq<i32>
    decreases all.len(),
{
    if all.len() == 0 {
        Seq::empty()
    } else if marks_col(all.last()) {
        col_clues(all.drop_last()).push(clue_value(all.last()))
    } else {
        col_clues(all.drop_last())
    }
}

/// Every match of the clue pattern can be read.
pub open spec fn all_clues(all: Seq<Groups>) -> bool {
    forall|k: int| 0 <= k < all.len() ==> is_clue(#[trigger] all[k])
}

/// A match of the cell pattern that can be read: it has a class.
pub open spec fn is_cell(found: Groups) -> bool {
    group(found, 1) is Some
}

/// The walls that the class of a cell names.
pub open spec fn cell_walls(found: Groups) -> Walls {
    Walls {
        has_top_wall: occurs(group(found, 1)->0, top_mark()),
        has_left_wall: occurs(group(found, 1)->0, left_mark()),
    }
}

/// Every match of the cell pattern can be read.
pub open spec fn all_cells(all: Seq<Groups>) -> bool {
    forall|k: int| 0 <= k < all.len() ==> is_cell(#[trigger] all[k])
}

/// The walls of all cells, in the order of the matches.
pub open spec fn all_walls(all: Seq<Groups>) -> Seq<Walls> {
    Seq::new(all.len(), |k: int| cell_walls(all[k]))
}

/// The clues of a page, for its rows and for its columns.
#[derive(Debug)]
pub struct Clues {
    pub rows: Vec<i32>,
    pub cols: Vec<i32>,
}

/// Reads the clues out of the matches of the clue pattern.
///
/// Every match must have a class and a number as its text, or the page is
/// malformed. A clue whose class holds the letter `h` belongs to a row; one
/// whose class holds no `h` but a `v` belongs to a column; any other is
/// passed over.
pub fn read_clues(found: &Vec<Vec<Option<Vec<u8>>>>) -> (read: Result<Clues, PuzzleError>)
    ensures
        read is Ok <==> all_clues(found.deep_view()),
        read matches Ok(clues) ==> clues.rows@ == row_clues(found.deep_view()) && clues.cols@
            == col_clues(found.deep_view()),
        read matches Err(e) ==> e == PuzzleError::MalformedInput,
{
    let ghost all = found.deep_view();
    let mut rows: Vec<i32> = Vec::new();
    let mut cols: Vec<i32> = Vec::new();
    let mut row_needle: Vec<u8> = Vec::new();
    row_needle.push(104u8);
    let mut col_needle: Vec<u8> = Vec::new();
    col_needle.push(118u8);
    assert(row_needle@ =~= row_mark());
    assert(col_needle@ =~= col_mark());
    let mut k: usize = 0;
    while k < found.len()
        invariant
            k <= found.len(),
            all == found.deep_view(),
            row_needle@ == row_mark(),
            col_needle@ == col_mark(),
            forall|m: int| 0 <= m < k ==> is_clue(#[trigger] all[m]),
            rows@ == row_clues(all.take(k as int)),
            cols@ == col_clues(all.take(k as int)),
        decreases found.len() - k,
    {
        let one = &found[k];
        assert(all[k as int] == one.deep_view());
        assert(all.take(k + 1).drop_last() =~= all.take(k as int));
        assert(all.take(k + 1).last() == all[k as int]);
        let class = match group_of(one, 1) {
            Some(class) => class,
            None => {
                assert(!is_clue(all[k as int]));
                return Err(PuzzleError::MalformedInput);
            },
        };
        let text = match group_of(one, 2) {
            Some(text) => text,
            None => {
                assert(!is_clue(all[k as int]));
                return Err(PuzzleError::MalformedInput);
            },
        };
        let num = match parse_checked(text.as_slice()) {
            Some(num) => num,
            None => {
                assert(!is_clue(all[k as int]));
                return Err(PuzzleError::MalformedInput);
            },
        };
        if contains(class, &row_needle) {
            rows.push(num);
        } else if contains(class, &col_needle) {
            cols.push(num);
        }
        k += 1;
    }
    assert(all.take(k as int) =~= all);
    Ok(Clues { rows, cols })
}

/// Reads the walls of the cells out of the matches of the cell pattern.
///
/// Every match must have a class, or the page is malformed. A cell has a
/// wall on its top edge if its class holds the letters `bt`, and one on its
/// left edge if its class holds the letters `bl`.
pub fn read_walls(found: &Vec<Vec<Option<Vec<u8>>>>) -> (read: Result<Vec<Walls>, PuzzleError>)
    ensures
        read is Ok <==> all_cells(found.deep_view()),
        read matches Ok(walls) ==> walls@ == all_walls(found.deep_view()),
        read matches Err(e) ==> e == PuzzleError::MalformedInput,
{
    let ghost all = found.deep_view();
    let mut walls: Vec<Walls> = Vec::new();
    let mut top_needle: Vec<u8> = Vec::new();
    top_needle.push(98u8);
    top_needle.push(116u8);
    let mut left_needle: Vec<u8> = Vec::new();
    left_needle.push(98u8);
    left_needle.push(108u8);
    assert(top_needle@ =~= top_mark());
    assert(left_needle@ =~= left_mark());
    let mut k: usize = 0;
    while k < found.len()
        invariant
            k <= found.len(),
            all == found.deep_view(),
            top_needle@ == top_mark(),
            left_needle@ == left_mark(),
            forall|m: int| 0 <= m < k ==> is_cell(#[trigger] all[m]),
            walls@.len() == k,
            forall|m: int| 0 <= m < k ==> (#[trigger] walls@[m]) == cell_walls(all[m]),
        decreases found.len() - k,
    {
        let one = &found[k];
        assert(all[k as int] == one.deep_view());
        let class = match group_of(one, 1) {
            Some(class) => class,
            None => {
                assert(!is_cell(all[k as int]));
                return Err(PuzzleError::MalformedInput);
            },
        };
        let mut cell_walls = Walls::new();
        if contains(class, &top_needle) {
            cell_walls.set_top();
        }
        if contains(class, &left_needle) {
            cell_walls.set_left();
        }
        walls.push(cell_walls);
        k += 1;
    }
    assert(walls@ =~= all_walls(all));
    Ok(walls)
}

/// The puzzle that the matches of the two patterns describe, if they describe
/// one: every match can be read, there is a row and a column, and there is
/// one cell for every crossing of a row and a column.
pub open spec fn described(clues: Seq<Groups>, cells: Seq<Groups>) -> Option<Grid> {
    let grid = Grid {
        width: col_clues(clues).len() as int,
        height: row_clues(clues).len() as int,
        walls: all_walls(cells),
        row_fill: row_clues(clues),
        col_fill: col_clues(clues),
    };
    if all_clues(clues) && all_cells(cells) && grid.wf() {
        Some(grid)
    } else {
        None
    }
}

/// The puzzle that a page describes, if both patterns are accepted and
/// their matches describe one.
pub open spec fn page_puzzle(page: Seq<u8>) -> Option<Grid> {
    if pattern_compiles(clue_pattern()) && pattern_compiles(cell_pattern()) {
        described(pattern_captures(clue_pattern(), page), pattern_captures(cell_pattern(), page))
    } else {
        None
    }
}

/// Builds the puzzle from the matches of the clue pattern and of the cell
/// pattern. The page is malformed if a match cannot be read, if it names no
/// row or no column, or if the number of its cells is not the number of rows
/// times the number of columns.
pub fn assemble(
    clue_matches: &Vec<Vec<Option<Vec<u8>>>>,
    cell_matches: &Vec<Vec<Option<Vec<u8>>>>,
) -> (made: Result<Puzzle, PuzzleError>)
    ensures
        made matches Ok(puzzle) ==> described(clue_matches.deep_view(), cell_matches.deep_view())
            == Some(puzzle@),
        made matches Err(e) ==> e == PuzzleError::MalformedInput && described(
            clue_matches.deep_view(),
            cell_matches.deep_view(),
        ) is None,
{
    let clues = match read_clues(clue_matches) {
        Ok(clues) => clues,
        Err(e) => {
            return Err(e);
        },
    };
    let walls = match read_walls(cell_matches) {
        Ok(walls) => walls,
        Err(e) => {
            return Err(e);
        },
    };
    assert(clues.rows@.len() * clues.cols@.len() == clues.cols@.len() * clues.rows@.len())
        by (nonlinear_arith);
    Puzzle::new(walls, clues.rows, clues.cols)
}

/// Reads the puzzle out of the markup of a page.
pub fn read_puzzle(page: &[u8]) -> (made: Result<Puzzle, PuzzleError>)
    ensures
        made matches Ok(puzzle) ==> page_puzzle(page@) == Some(puzzle@),
        made matches Err(e) ==> e == PuzzleError::MalformedInput && page_puzzle(page@) is None,
{
    let clue_matches = match captures(r#"<div class="cell task (.*?)".*?>(.*?)</div>"#, page) {
        Ok(found) => found,
        Err(_) => {
            return Err(PuzzleError::MalformedInput);
        },
    };
    let cell_matches = match captures(r#"<div tabindex="1" class="cell selectable (.*?)""#, page) {
        Ok(found) => found,
        Err(_) => {
            return Err(PuzzleError::MalformedInput);
        },
    };
    assemble(&clue_matches, &cell_matches)
}

} // verus!
