//! The three constraint checks: a candidate digit is accepted for a cell only
//! if it appears nowhere in the cell's row, column or box. Each check scans
//! its whole unit, the tested cell included; the solver only ever tests
//! candidates strictly above the digit stored at the cell, so the cell's own
//! entry can never block them.

use vstd::prelude::*;

use crate::grid::BoardCell;
use crate::grid::box_of;
use crate::grid::col_of;
use crate::grid::row_of;
use crate::grid::same_unit;

verus! {

/// The digit `v` appears nowhere in the row of cell `i`.
pub open spec fn row_clear(g: Seq<BoardCell>, i: int, v: u8) -> bool {
    forall|j: int| #![trigger g[j]] 0 <= j < 81 && row_of(j) == row_of(i) ==> g[j].val != v
}

/// The digit `v` appears nowhere in the column of cell `i`.
pub open spec fn col_clear(g: Seq<BoardCell>, i: int, v: u8) -> bool {
    forall|j: int| #![trigger g[j]] 0 <= j < 81 && col_of(j) == col_of(i) ==> g[j].val != v
}

/// The digit `v` appears nowhere in the box of cell `i`.
pub open spec fn box_clear(g: Seq<BoardCell>, i: int, v: u8) -> bool {
    forall|j: int| #![trigger g[j]] 0 <= j < 81 && box_of(j) == box_of(i) ==> g[j].val != v
}

/// The digit `v` appears nowhere among the cells sharing a unit with `i`
/// (the cell `i` itself included, as the checks scan their full units).
pub open spec fn can_place(g: Seq<BoardCell>, i: int, v: u8) -> bool {
    forall|j: int| #![trigger g[j]] 0 <= j < 81 && same_unit(i, j) ==> g[j].val != v
}

/// Top-left index of the box containing cell `i`.
pub open spec fn box_start(i: int) -> int {
    i - ((i / 9) % 3) * 9 - (i % 9) % 3
}

/// The cell of the box of `i` that sits `a` rows and `t` columns below and
/// right of the box's top-left corner.
pub open spec fn box_slot(i: int, a: int, t: int) -> int {
    box_start(i) + 9 * a + t
}

/// The box of `i` consists exactly of the indices `box_slot(i, a, t)`
/// with `a` and `t` ranging over 0..3.
pub proof fn lemma_box_members(i: int, j: int)
    requires
        0 <= i < 81,
        0 <= j < 81,
    ensures
        box_of(j) == box_of(i) <==> exists|a: int, t: int|
            0 <= a < 3 && 0 <= t < 3 && j == #[trigger] box_slot(i, a, t),
{
    let s = box_start(i);
    let ri = i / 9;
    let ci = i % 9;
    assert(s == 9 * (ri - ri % 3) + (ci - ci % 3));
    if box_of(j) == box_of(i) {
        let rj = j / 9;
        let cj = j % 9;
        assert(rj / 3 == ri / 3 && cj / 3 == ci / 3);
        let a = rj % 3;
        let t = cj % 3;
        assert(ri - ri % 3 == 3 * (ri / 3) && ci - ci % 3 == 3 * (ci / 3));
        assert(j == s + 9 * a + t);
        assert(0 <= a < 3 && 0 <= t < 3 && j == box_slot(i, a, t));
    }
    assert forall|a: int, t: int|
        0 <= a < 3 && 0 <= t < 3 && j == #[trigger] box_slot(i, a, t) implies box_of(j)
        == box_of(i) by {
        let rs = ri - ri % 3;
        let cs = ci - ci % 3;
        assert(j == 9 * (rs + a) + (cs + t));
        assert(cs % 3 == 0 && rs % 3 == 0);
        assert(0 <= cs + t < 9);
        assert(j / 9 == rs + a && j % 9 == cs + t) by {
            vstd::arithmetic::div_mod::lemma_fundamental_div_mod_converse(
                j,
                9,
                rs + a,
                cs + t,
            );
        }
        assert((rs + a) / 3 == ri / 3) by {
            vstd::arithmetic::div_mod::lemma_fundamental_div_mod_converse(
                rs + a,
                3,
                ri / 3,
                a,
            );
        }
        assert((cs + t) / 3 == ci / 3) by {
            vstd::arithmetic::div_mod::lemma_fundamental_div_mod_converse(
                cs + t,
                3,
                ci / 3,
                t,
            );
        }
    }
}

/// A digit can be placed iff its row, column and box are all clear of it.
pub proof fn lemma_can_place_units(g: Seq<BoardCell>, i: int, v: u8)
    requires
        0 <= i < 81,
    ensures
        can_place(g, i, v) <==> row_clear(g, i, v) && col_clear(g, i, v) && box_clear(g, i, v),
{
}

/// Scan the nine cells of the row of `idx` for the digit `val`.
pub fn check_row(board: &Vec<BoardCell>, idx: usize, val: u8) -> (r: bool)
    requires
        board@.len() == 81,
        idx < 81,
    ensures
        r == row_clear(board@, idx as int, val),
{
    let start: usize = (idx / 9) * 9;
    let mut k: usize = 0;
    while k < 9
        invariant
            board@.len() == 81,
            idx < 81,
            start == (idx / 9) * 9,
            k <= 9,
            forall|t: int| #![trigger board@[t]] start <= t < start + k ==> board@[t].val != val,
        decreases 9 - k,
    {
        if board[start + k].val == val {
            assert(row_of((start + k) as int) == row_of(idx as int));
            return false;
        }
        k += 1;
    }
    assert forall|j: int| 0 <= j < 81 && row_of(j) == row_of(idx as int) implies board@[j].val
        != val by {
        assert(j == 9 * (j / 9) + j % 9);
        assert(start <= j < start + 9);
    }
    true
}

/// Scan the nine cells of the column of `idx` for the digit `val`.
pub fn check_col(board: &Vec<BoardCell>, idx: usize, val: u8) -> (r: bool)
    requires
        board@.len() == 81,
        idx < 81,
    ensures
        r == col_clear(board@, idx as int, val),
{
    let c: usize = idx % 9;
    let mut k: usize = 0;
    while k < 9
        invariant
            board@.len() == 81,
            idx < 81,
            c == idx % 9,
            k <= 9,
            forall|t: int| #![trigger board@[c + 9 * t]] 0 <= t < k ==> board@[c + 9 * t].val
                != val,
        decreases 9 - k,
    {
        if board[c + 9 * k].val == val {
            assert(col_of((c + 9 * k) as int) == col_of(idx as int)) by {
                vstd::arithmetic::div_mod::lemma_fundamental_div_mod_converse(
                    c + 9 * k,
                    9,
                    k as int,
                    c as int,
                );
            }
            return false;
        }
        k += 1;
    }
    assert forall|j: int| 0 <= j < 81 && col_of(j) == col_of(idx as int) implies board@[j].val
        != val by {
        assert(j == 9 * (j / 9) + j % 9);
        assert(0 <= j / 9 < 9);
        assert(board@[c + 9 * (j / 9)].val != val);
    }
    true
}

/// Scan the nine cells of the box of `idx` for the digit `val`, as three
/// runs of three starting at the box's top-left corner.
pub fn check_square(board: &Vec<BoardCell>, idx: usize, val: u8) -> (r: bool)
    requires
        board@.len() == 81,
        idx < 81,
    ensures
        r == box_clear(board@, idx as int, val),
{
    proof {
        assert(9 * ((idx as int / 9) % 3) + (idx as int % 9) % 3 <= idx as int);
        assert(box_start(idx as int) <= 60);
    }
    let start: usize = idx - ((idx / 9) % 3) * 9 - (idx % 9) % 3;
    assert(start == box_start(idx as int));
    let mut a: usize = 0;
    while a < 3
        invariant
            board@.len() == 81,
            idx < 81,
            start == box_start(idx as int),
            start <= 60,
            a <= 3,
            forall|x: int, t: int| #![trigger board@[start + 9 * x + t]]
                0 <= x < a && 0 <= t < 3 ==> board@[start + 9 * x + t].val != val,
        decreases 3 - a,
    {
        let mut t: usize = 0;
        while t < 3
            invariant
                board@.len() == 81,
                idx < 81,
                start == box_start(idx as int),
                start <= 60,
                a < 3,
                t <= 3,
                forall|x: int, u: int| #![trigger board@[start + 9 * x + u]]
                    0 <= x < a && 0 <= u < 3 ==> board@[start + 9 * x + u].val != val,
                forall|u: int| #![trigger board@[start + 9 * a + u]] 0 <= u < t ==> board@[start
                    + 9 * a + u].val != val,
            decreases 3 - t,
        {
            if board[start + 9 * a + t].val == val {
                proof {
                    let p = (start + 9 * a + t) as int;
                    assert(p == box_slot(idx as int, a as int, t as int));
                    lemma_box_members(idx as int, p);
                }
                return false;
            }
            t += 1;
        }
        a += 1;
    }
    assert forall|j: int| 0 <= j < 81 && box_of(j) == box_of(idx as int) implies board@[j].val
        != val by {
        lemma_box_members(idx as int, j);
        let (x, u) = choose|x: int, u: int|
            0 <= x < 3 && 0 <= u < 3 && j == #[trigger] box_slot(idx as int, x, u);
        assert(board@[start + 9 * x + u].val != val);
    }
    true
}

/// A candidate digit is accepted iff all three unit checks accept it.
pub fn is_valid(board: &Vec<BoardCell>, idx: usize, val: u8) -> (r: bool)
    requires
        board@.len() == 81,
        idx < 81,
    ensures
        r == can_place(board@, idx as int, val),
{
    let r = check_row(board, idx, val) && check_col(board, idx, val) && check_square(
        board,
        idx,
        val,
    );
    proof {
        lemma_can_place_units(board@, idx as int, val);
    }
    r
}

} // verus!
