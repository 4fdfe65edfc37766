//! The solver: chronological backtracking over the 81 cells in index order.
//! Given cells are skipped; at each free cell the candidates 1..=9 are tried
//! in increasing order against the three unit checks, and a dead end undoes
//! the cell and revises the most recent free cell instead. The walk is
//! carried by the call stack, one frame per cell, so a dead end retreats to
//! the nearest earlier free cell — the index that `backtrack` computes from
//! a cursor position.

use vstd::prelude::*;

use crate::checks::can_place;
use crate::checks::is_valid;
use crate::grid::BoardCell;
use crate::grid::fixed_preserved;
use crate::grid::grid_wf;
use crate::grid::placement_ok;
use crate::grid::same_unit;
use crate::grid::solved_grid;
use crate::grid::start_grid;

verus! {

/// The two terminal outcomes of a solve: a completed grid, or the report
/// that the search exhausted every revisable choice without completing one.
#[derive(Clone, Copy, PartialEq, Eq, Structural, Debug)]
pub enum SolveResult {
    Solved,
    Unsolvable,
}

/// The cell written when the solver places digit `v` at a free cell.
pub open spec fn placed(v: u8) -> BoardCell {
    BoardCell { fixed: false, val: v }
}

/// The search as a mathematical function: what the backtracking walk
/// returns from cell `idx` on, the cells before `idx` already decided in
/// `g`. Given cells are skipped; a free cell tries its candidates through
/// `cands_spec`. The solver's output is exactly this function of its input,
/// which is what makes the solver deterministic.
pub open spec fn solve_spec(g: Seq<BoardCell>, idx: int) -> Option<Seq<BoardCell>>
    decreases 81 - idx, 10int,
        when 0 <= idx <= 81
{
    if idx >= 81 {
        Some(g)
    } else if g[idx].fixed {
        solve_spec(g, idx + 1)
    } else {
        cands_spec(g, idx, 1)
    }
}

/// Candidates `v..=9` tried in increasing order at the free cell `idx`: the
/// first admissible digit whose completed subtree succeeds decides the
/// result, and a cell with no workable candidate yields `None`.
pub open spec fn cands_spec(g: Seq<BoardCell>, idx: int, v: u8) -> Option<Seq<BoardCell>>
    decreases 81 - idx, 10 - v,
        when 0 <= idx < 81
{
    if v > 9 {
        None
    } else if can_place(g, idx, v) {
        match solve_spec(g.update(idx, placed(v)), idx + 1) {
            Some(s) => Some(s),
            None => cands_spec(g, idx, (v + 1) as u8),
        }
    } else {
        cands_spec(g, idx, (v + 1) as u8)
    }
}

/// Cells below `idx` are decided: every free one holds a digit 1..=9 that
/// clashes with no other cell of its units.
pub open spec fn prefix_decided(g: Seq<BoardCell>, idx: int) -> bool {
    forall|j: int| #![trigger g[j]] 0 <= j < idx && !g[j].fixed ==> 1 <= g[j].val
        && placement_ok(g, j)
}

/// Free cells from `idx` on are still blank.
pub open spec fn suffix_blank(g: Seq<BoardCell>, idx: int) -> bool {
    forall|j: int| #![trigger g[j]] idx <= j < 81 && !g[j].fixed ==> g[j].val == 0
}

/// Whether a digit can be placed at `idx` reads the same off two grids that
/// agree everywhere but at `idx` itself, as long as neither grid holds that
/// digit at `idx`: the checks scan the full units, and the entry at `idx`
/// never equals the candidate on either side.
proof fn lemma_can_place_agrees(ga: Seq<BoardCell>, gb: Seq<BoardCell>, idx: int, v: u8)
    requires
        ga.len() == 81,
        gb.len() == 81,
        0 <= idx < 81,
        forall|j: int| #![trigger ga[j]] 0 <= j < 81 && j != idx ==> ga[j] == gb[j],
        ga[idx].val != v,
        gb[idx].val != v,
    ensures
        can_place(ga, idx, v) == can_place(gb, idx, v),
{
    if can_place(ga, idx, v) {
        assert forall|j: int| 0 <= j < 81 && same_unit(idx, j) implies gb[j].val != v by {
            if j != idx {
                assert(ga[j].val != v);
            }
        }
    }
    if can_place(gb, idx, v) {
        assert forall|j: int| 0 <= j < 81 && same_unit(idx, j) implies ga[j].val != v by {
            if j != idx {
                assert(gb[j].val != v);
            }
        }
    }
}

/// Complete the grid from cell `idx` on, the cells before it already decided.
/// On success the grid is exactly the completion `solve_spec` names; on
/// failure `solve_spec` names none, and the grid is as it was handed in.
fn solve_at(board: &mut Vec<BoardCell>, idx: usize) -> (r: bool)
    requires
        old(board)@.len() == 81,
        idx <= 81,
        grid_wf(old(board)@),
        prefix_decided(old(board)@, idx as int),
        suffix_blank(old(board)@, idx as int),
    ensures
        final(board)@.len() == 81,
        grid_wf(final(board)@),
        fixed_preserved(old(board)@, final(board)@),
        forall|j: int| #![trigger final(board)@[j]] 0 <= j < idx ==> final(board)@[j] == old(
            board,
        )@[j],
        r ==> forall|i: int| #![trigger final(board)@[i]] 0 <= i < 81 ==> 1 <= final(board)@[i].val
            <= 9 && (!final(board)@[i].fixed ==> placement_ok(final(board)@, i)),
        !r ==> final(board)@ == old(board)@,
        (forall|j: int| #![trigger old(board)@[j]] idx <= j < 81 ==> old(board)@[j].fixed) ==> r,
        r ==> solve_spec(old(board)@, idx as int) == Some(final(board)@),
        !r ==> solve_spec(old(board)@, idx as int) is None,
    decreases 81 - idx,
{
    if idx == 81 {
        assert forall|i: int| 0 <= i < 81 implies 1 <= board@[i].val <= 9 && (!board@[i].fixed
            ==> placement_ok(board@, i)) by {
            if !board@[i].fixed {
                assert(1 <= board@[i].val && placement_ok(board@, i));
            }
        }
        assert(solve_spec(board@, 81) == Some(board@));
        return true;
    }
    if board[idx].fixed {
        proof {
            assert(solve_spec(old(board)@, idx as int) == solve_spec(
                old(board)@,
                idx as int + 1,
            ));
        }
        let r = solve_at(board, idx + 1);
        return r;
    }
    let ghost g0 = board@;
    let mut v: u8 = 1;
    while v <= 9
        invariant
            board@.len() == 81,
            idx < 81,
            1 <= v <= 10,
            grid_wf(board@),
            !board@[idx as int].fixed,
            board@[idx as int].val < v,
            forall|j: int| #![trigger board@[j]] 0 <= j < 81 && j != idx ==> board@[j] == g0[j],
            g0 == old(board)@,
            g0.len() == 81,
            grid_wf(g0),
            !g0[idx as int].fixed,
            g0[idx as int].val == 0,
            prefix_decided(g0, idx as int),
            suffix_blank(g0, idx as int),
            cands_spec(g0, idx as int, 1) == cands_spec(g0, idx as int, v),
        decreases 10 - v,
    {
        if is_valid(board, idx, v) {
            let ghost gb = board@;
            proof {
                lemma_can_place_agrees(g0, gb, idx as int, v);
            }
            board[idx] = BoardCell { fixed: false, val: v };
            proof {
                assert(board@ =~= g0.update(idx as int, placed(v)));
            }
            proof {
                let g1 = board@;
                assert forall|j: int| 0 <= j < idx + 1 && !g1[j].fixed implies 1 <= g1[j].val
                    && placement_ok(g1, j) by {
                    if j == idx {
                        assert forall|k: int|
                            0 <= k < 81 && k != j && same_unit(j, k) implies g1[k].val
                            != g1[j].val by {
                            assert(gb[k].val != v);
                        }
                    } else {
                        assert(1 <= g0[j].val && placement_ok(g0, j));
                        assert forall|k: int|
                            0 <= k < 81 && k != j && same_unit(j, k) implies g1[k].val
                            != g1[j].val by {
                            if k == idx {
                                assert(same_unit(idx as int, j));
                                assert(gb[j].val != v);
                            } else {
                                assert(g0[k].val != g0[j].val);
                            }
                        }
                    }
                }
            }
            let ghost gpre = board@;
            if solve_at(board, idx + 1) {
                proof {
                    assert(solve_spec(gpre, idx as int + 1) == Some(board@));
                    assert(cands_spec(g0, idx as int, v) == Some(board@));
                    assert(solve_spec(g0, idx as int) == cands_spec(g0, idx as int, 1));
                }
                return true;
            }
            proof {
                assert(solve_spec(gpre, idx as int + 1) is None);
                assert(cands_spec(g0, idx as int, v) == cands_spec(
                    g0,
                    idx as int,
                    (v + 1) as u8,
                ));
            }
        } else {
            proof {
                lemma_can_place_agrees(g0, board@, idx as int, v);
                assert(!can_place(g0, idx as int, v));
                assert(cands_spec(g0, idx as int, v) == cands_spec(
                    g0,
                    idx as int,
                    (v + 1) as u8,
                ));
            }
        }
        v += 1;
    }
    proof {
        assert(cands_spec(g0, idx as int, v) is None);
        assert(solve_spec(g0, idx as int) is None);
    }
    board[idx] = BoardCell { fixed: false, val: 0 };
    proof {
        assert(board@ =~= g0);
    }
    false
}

/// Everything `run` promises of one call that ties its answer to its input
/// alone: it answers `Solved` exactly when the search names a completion,
/// leaves that named completion behind when it does, and hands the grid
/// back unchanged when it does not. Two calls on equal grids therefore
/// agree — see `lemma_run_deterministic`.
pub open spec fn run_behavior(g0: Seq<BoardCell>, r: SolveResult, g: Seq<BoardCell>) -> bool {
    &&& (r == SolveResult::Solved <==> solve_spec(g0, 0) is Some)
    &&& (r == SolveResult::Solved ==> Some(g) == solve_spec(g0, 0))
    &&& (r == SolveResult::Unsolvable ==> g == g0)
}

/// Solve the grid in place. On `Solved` every cell holds a digit 1..=9, the
/// given cells are untouched, and no freely placed digit repeats inside its
/// row, column or box. On `Unsolvable` the grid is handed back unchanged. A
/// grid whose 81 cells are all given is returned unchanged as `Solved`. In
/// either case answer and grid are the ones `run_behavior` pins to the
/// input.
pub fn run(board: &mut Vec<BoardCell>) -> (r: SolveResult)
    requires
        start_grid(old(board)@),
    ensures
        final(board)@.len() == 81,
        r == SolveResult::Solved ==> solved_grid(old(board)@, final(board)@),
        r == SolveResult::Unsolvable ==> final(board)@ == old(board)@,
        (forall|i: int| #![trigger old(board)@[i]] 0 <= i < 81 ==> old(board)@[i].fixed) ==> (r
            == SolveResult::Solved && final(board)@ == old(board)@),
        run_behavior(old(board)@, r, final(board)@),
{
    let ok = solve_at(board, 0);
    if ok {
        proof {
            if forall|i: int| #![trigger old(board)@[i]] 0 <= i < 81 ==> old(board)@[i].fixed {
                assert forall|i: int| 0 <= i < 81 implies board@[i] == old(board)@[i] by {
                    assert(old(board)@[i].fixed);
                }
                assert(board@ =~= old(board)@);
            }
        }
        SolveResult::Solved
    } else {
        SolveResult::Unsolvable
    }
}

/// Nearest free cell strictly before `idx`: the cell the cursor retreats to
/// once every candidate at `idx` is exhausted. `None` means no earlier
/// choice is left to revise — the search's unsolvable signal.
pub fn backtrack(board: &Vec<BoardCell>, idx: usize) -> (r: Option<usize>)
    requires
        board@.len() == 81,
        idx <= 81,
    ensures
        match r {
            Some(i) => i < idx && !board@[i as int].fixed && forall|j: int|
                #![trigger board@[j]]
                i < j < idx ==> board@[j].fixed,
            None => forall|j: int| #![trigger board@[j]] 0 <= j < idx ==> board@[j].fixed,
        },
{
    let mut i: usize = idx;
    while i > 0
        invariant
            board@.len() == 81,
            idx <= 81,
            i <= idx,
            forall|j: int| #![trigger board@[j]] i <= j < idx ==> board@[j].fixed,
        decreases i,
    {
        i -= 1;
        if !board[i].fixed {
            return Some(i);
        }
    }
    None
}

} // verus!
