//! The grid's cells and the spec-level vocabulary shared by the whole crate:
//! rows, columns and boxes of an index, well-formedness of a grid, and what
//! the solver owes when it succeeds.

use vstd::prelude::*;

verus! {

/// One of the 81 positions of the grid: a digit in 0..=9 (0 means empty)
/// and a flag telling whether the digit was given by the puzzle.
#[derive(Clone, Copy, PartialEq, Eq, Structural, Debug)]
pub struct BoardCell {
    pub fixed: bool,
    pub val: u8,
}

/// Row of the cell at index `i`: the grid is row-major, nine cells per row.
pub open spec fn row_of(i: int) -> int {
    i / 9
}

/// Column of the cell at index `i`.
pub open spec fn col_of(i: int) -> int {
    i % 9
}

/// The 3x3 box containing the cell at index `i`, numbered 0..9 row-major.
pub open spec fn box_of(i: int) -> int {
    (row_of(i) / 3) * 3 + col_of(i) / 3
}

/// Two positions constrain each other iff they share a row, a column or a box.
pub open spec fn same_unit(i: int, j: int) -> bool {
    row_of(i) == row_of(j) || col_of(i) == col_of(j) || box_of(i) == box_of(j)
}

/// A cell holds a digit in 0..=9, and a given cell never holds 0.
pub open spec fn cell_wf(c: BoardCell) -> bool {
    c.val <= 9 && (c.fixed ==> 1 <= c.val)
}

pub open spec fn grid_wf(g: Seq<BoardCell>) -> bool {
    g.len() == 81 && forall|i: int| #![trigger g[i]] 0 <= i < 81 ==> cell_wf(g[i])
}

/// A grid as handed to the solver: given cells hold 1..=9, free cells hold 0.
pub open spec fn start_grid(g: Seq<BoardCell>) -> bool {
    grid_wf(g) && forall|i: int| #![trigger g[i]] 0 <= i < 81 && !g[i].fixed ==> g[i].val == 0
}

/// The given cells of `g` agree with those of `g0`: same flags everywhere,
/// and the digit of every given cell kept.
pub open spec fn fixed_preserved(g0: Seq<BoardCell>, g: Seq<BoardCell>) -> bool {
    forall|i: int| #![trigger g[i]] 0 <= i < 81 ==> g[i].fixed == g0[i].fixed && (g0[i].fixed
        ==> g[i].val == g0[i].val)
}

/// No two given cells of one row, column or box hold the same digit.
/// The solver never checks this of its input: it bears on what its output
/// can be worth, not on whether it runs.
pub open spec fn fixed_consistent(g: Seq<BoardCell>) -> bool {
    forall|i: int, j: int| #![trigger g[i], g[j]]
        0 <= i < 81 && 0 <= j < 81 && i != j && same_unit(i, j) && g[i].fixed && g[j].fixed
            ==> g[i].val != g[j].val
}

/// The digit at `i` clashes with no other cell of its row, column or box.
pub open spec fn placement_ok(g: Seq<BoardCell>, i: int) -> bool {
    forall|j: int| #![trigger g[j]] 0 <= j < 81 && j != i && same_unit(i, j) ==> g[j].val
        != g[i].val
}

/// What the solver owes on success: the given cells kept, every cell holding
/// a digit 1..=9, and no freely placed digit clashing inside its units.
pub open spec fn solved_grid(g0: Seq<BoardCell>, g: Seq<BoardCell>) -> bool {
    &&& g.len() == 81
    &&& fixed_preserved(g0, g)
    &&& forall|i: int| #![trigger g[i]] 0 <= i < 81 ==> 1 <= g[i].val <= 9
    &&& forall|i: int| #![trigger g[i]] 0 <= i < 81 && !g[i].fixed ==> placement_ok(g, i)
}

/// Build one cell from a validated digit: 0 yields a free cell, 1..=9 a
/// given one. Digits above 9 are ruled out by the input collaborator.
pub fn init(val: u8) -> (c: BoardCell)
    requires
        val <= 9,
    ensures
        c.val == val,
        c.fixed == (1 <= val),
{
    BoardCell { fixed: 1 <= val, val }
}

} // verus!
