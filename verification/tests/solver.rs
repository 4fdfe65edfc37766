use sudoku::checks::check_col;
use sudoku::checks::check_row;
use sudoku::checks::check_square;
use sudoku::checks::is_valid;
use sudoku::grid::init;
use sudoku::grid::BoardCell;
use sudoku::solver::backtrack;
use sudoku::solver::run;
use sudoku::solver::SolveResult;

fn board_from(vals: &[u8; 81]) -> Vec<BoardCell> {
    let mut b = Vec::new();
    for &v in vals.iter() {
        b.push(init(v));
    }
    b
}

fn vals_of(b: &[BoardCell]) -> Vec<u8> {
    b.iter().map(|c| c.val).collect()
}

fn assert_valid_solution(b: &[BoardCell]) {
    assert_eq!(b.len(), 81);
    for i in 0..81 {
        assert!(b[i].val >= 1 && b[i].val <= 9);
    }
    for u in 0..9 {
        let mut row = [false; 10];
        let mut col = [false; 10];
        for k in 0..9 {
            let rv = b[u * 9 + k].val as usize;
            assert!(!row[rv]);
            row[rv] = true;
            let cv = b[u + 9 * k].val as usize;
            assert!(!col[cv]);
            col[cv] = true;
        }
    }
    for bx in 0..9 {
        let base = (bx / 3) * 27 + (bx % 3) * 3;
        let mut seen = [false; 10];
        for a in 0..3 {
            for t in 0..3 {
                let v = b[base + 9 * a + t].val as usize;
                assert!(!seen[v]);
                seen[v] = true;
            }
        }
    }
}

const CLASSIC_PUZZLE: [u8; 81] = [
    5, 3, 0, 0, 7, 0, 0, 0, 0, //
    6, 0, 0, 1, 9, 5, 0, 0, 0, //
    0, 9, 8, 0, 0, 0, 0, 6, 0, //
    8, 0, 0, 0, 6, 0, 0, 0, 3, //
    4, 0, 0, 8, 0, 3, 0, 0, 1, //
    7, 0, 0, 0, 2, 0, 0, 0, 6, //
    0, 6, 0, 0, 0, 0, 2, 8, 0, //
    0, 0, 0, 4, 1, 9, 0, 0, 5, //
    0, 0, 0, 0, 8, 0, 0, 7, 9,
];

const CLASSIC_SOLUTION: [u8; 81] = [
    5, 3, 4, 6, 7, 8, 9, 1, 2, //
    6, 7, 2, 1, 9, 5, 3, 4, 8, //
    1, 9, 8, 3, 4, 2, 5, 6, 7, //
    8, 5, 9, 7, 6, 1, 4, 2, 3, //
    4, 2, 6, 8, 5, 3, 7, 9, 1, //
    7, 1, 3, 9, 2, 4, 8, 5, 6, //
    9, 6, 1, 5, 3, 7, 2, 8, 4, //
    2, 8, 7, 4, 1, 9, 6, 3, 5, //
    3, 4, 5, 2, 8, 6, 1, 7, 9,
];

#[test]
fn classic_puzzle_solves_to_known_solution() {
    let mut b = board_from(&CLASSIC_PUZZLE);
    assert_eq!(run(&mut b), SolveResult::Solved);
    assert_eq!(vals_of(&b), CLASSIC_SOLUTION.to_vec());
    assert_eq!(b[0 * 9 + 2].val, 4);
    assert_eq!(b[8 * 9 + 8].val, 9);
    assert_valid_solution(&b);
}

#[test]
fn empty_grid_solves_to_valid_grid() {
    let mut b = board_from(&[0u8; 81]);
    assert_eq!(run(&mut b), SolveResult::Solved);
    assert_valid_solution(&b);
    for i in 0..81 {
        assert!(!b[i].fixed);
    }
}

#[test]
fn fixed_cells_are_preserved() {
    let mut b = board_from(&CLASSIC_PUZZLE);
    assert_eq!(run(&mut b), SolveResult::Solved);
    for i in 0..81 {
        if CLASSIC_PUZZLE[i] != 0 {
            assert!(b[i].fixed);
            assert_eq!(b[i].val, CLASSIC_PUZZLE[i]);
        } else {
            assert!(!b[i].fixed);
        }
    }
}

#[test]
fn solving_twice_gives_identical_output() {
    let mut b1 = board_from(&CLASSIC_PUZZLE);
    let mut b2 = board_from(&CLASSIC_PUZZLE);
    let r1 = run(&mut b1);
    let r2 = run(&mut b2);
    assert_eq!(r1, r2);
    assert_eq!(b1, b2);

    let mut e1 = board_from(&[0u8; 81]);
    let mut e2 = board_from(&[0u8; 81]);
    assert_eq!(run(&mut e1), run(&mut e2));
    assert_eq!(e1, e2);
}

#[test]
fn duplicate_fixed_digits_in_row_unsolvable() {
    // two fixed 5s in row 0; the free cell at the start of row 1 sees the
    // digits 1,2,3,4,6,7,8,9 in its own row and 5 in its column, so no
    // candidate fits and no earlier free cell exists to revise
    let mut g = [0u8; 81];
    let row0 = [5, 5, 1, 2, 3, 4, 6, 7, 8];
    let row1 = [0, 1, 2, 3, 4, 6, 7, 8, 9];
    for c in 0..9 {
        g[c] = row0[c];
        g[9 + c] = row1[c];
    }
    let before = board_from(&g);
    let mut b = board_from(&g);
    assert_eq!(run(&mut b), SolveResult::Unsolvable);
    assert_eq!(b, before);
}

#[test]
fn complete_fixed_solution_returned_unchanged() {
    let before = board_from(&CLASSIC_SOLUTION);
    let mut b = board_from(&CLASSIC_SOLUTION);
    for i in 0..81 {
        assert!(b[i].fixed);
    }
    assert_eq!(run(&mut b), SolveResult::Solved);
    assert_eq!(b, before);
}

#[test]
fn init_marks_givens_fixed_and_blanks_free() {
    let c = init(0);
    assert!(!c.fixed);
    assert_eq!(c.val, 0);
    for v in 1..=9u8 {
        let c = init(v);
        assert!(c.fixed);
        assert_eq!(c.val, v);
    }
}

#[test]
fn backtrack_finds_nearest_free_cell() {
    let mut g = [0u8; 81];
    g[3] = 7; // fixed
    g[4] = 2; // fixed
    let b = board_from(&g);
    assert_eq!(backtrack(&b, 5), Some(2));
    assert_eq!(backtrack(&b, 3), Some(2));
    assert_eq!(backtrack(&b, 2), Some(1));
    assert_eq!(backtrack(&b, 0), None);
}

#[test]
fn backtrack_none_when_only_givens_precede() {
    let mut g = [0u8; 81];
    for c in 0..9 {
        g[c] = (c + 1) as u8; // row 0 entirely fixed
    }
    let b = board_from(&g);
    assert_eq!(backtrack(&b, 9), None);
    assert_eq!(backtrack(&b, 5), None);
    assert_eq!(backtrack(&b, 10), Some(9));
}

#[test]
fn check_row_rejects_digit_present_in_row() {
    let mut g = [0u8; 81];
    g[4] = 7; // row 0
    let b = board_from(&g);
    assert!(!check_row(&b, 0, 7));
    assert!(check_row(&b, 0, 6));
    assert!(check_row(&b, 9, 7)); // row 1 is clear of 7
}

#[test]
fn check_col_rejects_digit_present_in_column() {
    let mut g = [0u8; 81];
    g[2 + 9 * 5] = 3; // column 2
    let b = board_from(&g);
    assert!(!check_col(&b, 2, 3));
    assert!(check_col(&b, 2, 4));
    assert!(check_col(&b, 3, 3)); // column 3 is clear of 3
}

#[test]
fn check_square_rejects_digit_present_in_box() {
    let mut g = [0u8; 81];
    g[9 + 1] = 8; // cell (1,1), box 0
    let b = board_from(&g);
    assert!(!check_square(&b, 0, 8)); // (0,0) shares box 0
    assert!(!check_square(&b, 20, 8)); // (2,2) shares box 0
    assert!(check_square(&b, 3, 8)); // (0,3) is in box 1
    assert!(check_square(&b, 0, 5));
}

#[test]
fn is_valid_requires_all_three_units_clear() {
    let mut g = [0u8; 81];
    g[1] = 4; // row 0
    g[9] = 6; // column 0
    g[10] = 9; // box 0
    let b = board_from(&g);
    assert!(!is_valid(&b, 0, 4));
    assert!(!is_valid(&b, 0, 6));
    assert!(!is_valid(&b, 0, 9));
    assert!(is_valid(&b, 0, 1));
}
