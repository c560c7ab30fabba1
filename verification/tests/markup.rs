use aquarium::error::PuzzleError;
use aquarium::markup::{assemble, parse, parse_checked, read_clues, read_puzzle, read_walls};
use aquarium::solver::{conclude, formulate, SolverOutcome};

fn found(groups: &[Option<&str>]) -> Vec<Option<Vec<u8>>> {
    groups.iter().map(|g| g.map(|text| text.as_bytes().to_vec())).collect()
}

const PAGE: &str = "<html><div class=\"cell task v\">1</div>\n\
     <div class=\"cell task h\" style=\"top: 3px\">1</div>\n\
     <div class=\"cell task h\">0</div>\n\
     <div tabindex=\"1\" class=\"cell selectable bl br bb\"></div>\n\
     <div tabindex=\"1\" class=\"cell selectable bl bt br\"></div></html>";

#[test]
fn parse_reads_decimal_numbers() {
    assert_eq!(parse(b"0"), 0);
    assert_eq!(parse(b"7"), 7);
    assert_eq!(parse(b"12"), 12);
    assert_eq!(parse(b"255"), 255);
    assert_eq!(parse(b"300"), 300);
    assert_eq!(parse(b"007"), 7);
    assert_eq!(parse(b"2147483647"), 2147483647);
    assert_eq!(parse(b""), 0);
}

#[test]
fn parse_checked_reads_what_fits() {
    assert_eq!(parse_checked(b"12"), Some(12));
    assert_eq!(parse_checked(b""), Some(0));
    assert_eq!(parse_checked(b"255"), Some(255));
    assert_eq!(parse_checked(b"256"), Some(256));
    assert_eq!(parse_checked(b"300"), Some(300));
    assert_eq!(parse_checked(b"1000"), Some(1000));
    assert_eq!(parse_checked(b"2147483647"), Some(2147483647));
    assert_eq!(parse_checked(b"0000000000000042"), Some(42));
}

#[test]
fn parse_checked_refuses_what_is_too_large() {
    assert_eq!(parse_checked(b"2147483648"), None);
    assert_eq!(parse_checked(b"4294967296"), None);
    assert_eq!(parse_checked(b"99999999999999999999999999"), None);
}

#[test]
fn parse_checked_refuses_what_is_no_digit() {
    assert_eq!(parse_checked(b" 1"), None);
    assert_eq!(parse_checked(b"-1"), None);
    assert_eq!(parse_checked(b"1."), None);
    assert_eq!(parse_checked(b"/"), None);
    assert_eq!(parse_checked(b":"), None);
    assert_eq!(parse_checked(b"a"), None);
    assert_eq!(parse_checked(b"1a"), None);
    assert_eq!(parse_checked(b"a1"), None);
    assert_eq!(parse_checked(b" 3"), None);
    assert_eq!(parse_checked(&[49, 255]), None);
}

#[test]
fn clues_are_sorted_by_their_mark() {
    let matches = vec![
        found(&[Some("x"), Some("v"), Some("3")]),
        found(&[Some("x"), Some("h"), Some("1")]),
        found(&[Some("x"), Some("other"), Some("9")]),
        found(&[Some("x"), Some("plain"), Some("8")]),
        found(&[Some("x"), Some("v h"), Some("2")]),
        found(&[Some("x"), Some(" v"), Some("4")]),
    ];
    let clues = read_clues(&matches).unwrap();
    // `other` holds an `h`; `plain` holds neither letter
    assert_eq!(clues.rows, vec![1, 9, 2]);
    assert_eq!(clues.cols, vec![3, 4]);
}

#[test]
fn large_clues_are_read() {
    let matches = vec![
        found(&[Some("x"), Some("h"), Some("300")]),
        found(&[Some("x"), Some("v"), Some("2147483647")]),
    ];
    let clues = read_clues(&matches).unwrap();
    assert_eq!(clues.rows, vec![300]);
    assert_eq!(clues.cols, vec![2147483647]);
}

#[test]
fn unreadable_clues_are_malformed() {
    let no_number = vec![found(&[Some("x"), Some("h"), Some("one")])];
    assert_eq!(read_clues(&no_number).unwrap_err(), PuzzleError::MalformedInput);
    let ignored_but_bad = vec![found(&[Some("x"), Some("plain"), Some("-")])];
    assert_eq!(read_clues(&ignored_but_bad).unwrap_err(), PuzzleError::MalformedInput);
    let no_text = vec![found(&[Some("x"), Some("h"), None])];
    assert_eq!(read_clues(&no_text).unwrap_err(), PuzzleError::MalformedInput);
    let no_class = vec![found(&[Some("x"), None, Some("1")])];
    assert_eq!(read_clues(&no_class).unwrap_err(), PuzzleError::MalformedInput);
    let too_short = vec![found(&[Some("x"), Some("h")])];
    assert_eq!(read_clues(&too_short).unwrap_err(), PuzzleError::MalformedInput);
    let letter = vec![found(&[Some("x"), Some("h"), Some("a")])];
    assert_eq!(read_clues(&letter).unwrap_err(), PuzzleError::MalformedInput);
    let too_large = vec![found(&[Some("x"), Some("h"), Some("2147483648")])];
    assert_eq!(read_clues(&too_large).unwrap_err(), PuzzleError::MalformedInput);
}

#[test]
fn walls_are_read_from_the_class() {
    let matches = vec![
        found(&[Some("x"), Some("bt bl")]),
        found(&[Some("x"), Some("br bb")]),
        found(&[Some("x"), Some("bl")]),
        found(&[Some("x"), Some("xbtx")]),
        found(&[Some("x"), Some("b t")]),
        found(&[Some("x"), Some("")]),
    ];
    let walls = read_walls(&matches).unwrap();
    let flags: Vec<(bool, bool)> = walls.iter().map(|w| (w.top(), w.left())).collect();
    assert_eq!(
        flags,
        vec![(true, true), (false, false), (false, true), (true, false), (false, false), (false, false)]
    );
    let no_class = vec![found(&[Some("x")])];
    assert_eq!(read_walls(&no_class).unwrap_err(), PuzzleError::MalformedInput);
    let missing = vec![found(&[Some("x"), None])];
    assert_eq!(read_walls(&missing).unwrap_err(), PuzzleError::MalformedInput);
}

#[test]
fn counts_must_fit_together() {
    let clues = vec![
        found(&[Some("x"), Some("v"), Some("1")]),
        found(&[Some("x"), Some("h"), Some("1")]),
        found(&[Some("x"), Some("h"), Some("0")]),
    ];
    let two_cells = vec![found(&[Some("x"), Some("bt")]), found(&[Some("x"), Some("bl")])];
    let puzzle = assemble(&clues, &two_cells).unwrap();
    assert_eq!((puzzle.width, puzzle.height), (1, 2));
    assert_eq!(puzzle.row_fill, vec![1, 0]);
    assert_eq!(puzzle.col_fill, vec![1]);
    let one_cell = vec![found(&[Some("x"), Some("bt")])];
    assert_eq!(assemble(&clues, &one_cell).unwrap_err(), PuzzleError::MalformedInput);
    let nothing: Vec<Vec<Option<Vec<u8>>>> = Vec::new();
    assert_eq!(assemble(&nothing, &nothing).unwrap_err(), PuzzleError::MalformedInput);
}

#[test]
fn page_is_read() {
    let puzzle = read_puzzle(PAGE.as_bytes()).unwrap();
    assert_eq!(puzzle.width, 1);
    assert_eq!(puzzle.height, 2);
    assert_eq!(puzzle.row_fill, vec![1, 0]);
    assert_eq!(puzzle.col_fill, vec![1]);
    let flags: Vec<(bool, bool)> = puzzle.walls.iter().map(|w| (w.top(), w.left())).collect();
    assert_eq!(flags, vec![(false, true), (true, true)]);
}

#[test]
fn page_is_solved() {
    let puzzle = read_puzzle(PAGE.as_bytes()).unwrap();
    let formula = formulate(&puzzle);
    let solution = conclude(&formula, SolverOutcome::Satisfiable(vec![true, false])).unwrap();
    assert_eq!(solution, vec![true, false]);
    assert_eq!(
        conclude(&formula, SolverOutcome::Satisfiable(vec![false, true])),
        Err(PuzzleError::SolverIndeterminate)
    );
}

#[test]
fn page_without_a_puzzle_is_malformed() {
    assert_eq!(read_puzzle(b"").unwrap_err(), PuzzleError::MalformedInput);
    assert_eq!(read_puzzle(b"<html></html>").unwrap_err(), PuzzleError::MalformedInput);
    let no_cells = b"<div class=\"cell task v\">1</div><div class=\"cell task h\">1</div>";
    assert_eq!(read_puzzle(no_cells).unwrap_err(), PuzzleError::MalformedInput);
    let bad_clue = b"<div class=\"cell task v\">-</div><div class=\"cell task h\">1</div>\
        <div tabindex=\"1\" class=\"cell selectable bl\"";
    assert_eq!(read_puzzle(bad_clue).unwrap_err(), PuzzleError::MalformedInput);
    let letter_clue = b"<div class=\"cell task v\">x</div><div class=\"cell task h\">1</div>\
        <div tabindex=\"1\" class=\"cell selectable bl\"";
    assert_eq!(read_puzzle(letter_clue).unwrap_err(), PuzzleError::MalformedInput);
}
