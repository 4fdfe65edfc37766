//! Grid-level laws. A grid the solver accepts, started from given cells
//! that do not clash among themselves, holds every digit exactly once in
//! every row, every column and every box; and a pair of identical given
//! digits in one row poisons every outcome that preserves them.

use vstd::prelude::*;

use vstd::multiset::Multiset;

use vstd::set_lib::lemma_int_range;
use vstd::set_lib::lemma_subset_equality;
use vstd::set_lib::set_int_range;

use crate::grid::BoardCell;
use crate::grid::box_of;
use crate::grid::col_of;
use crate::grid::fixed_consistent;
use crate::grid::fixed_preserved;
use crate::grid::placement_ok;
use crate::grid::row_of;
use crate::grid::same_unit;
use crate::grid::solved_grid;
use crate::solver::run_behavior;
use crate::solver::solve_spec;
use crate::solver::SolveResult;

verus! {

/// The nine digits of row `u`, left to right.
pub open spec fn row_vals(g: Seq<BoardCell>, u: int) -> Seq<u8> {
    Seq::new(9, |k: int| g[u * 9 + k].val)
}

/// The nine digits of column `u`, top to bottom.
pub open spec fn col_vals(g: Seq<BoardCell>, u: int) -> Seq<u8> {
    Seq::new(9, |k: int| g[u + 9 * k].val)
}

/// Top-left index of box `b`.
pub open spec fn box_base(b: int) -> int {
    (b / 3) * 27 + (b % 3) * 3
}

/// The nine digits of box `b`, row-major.
pub open spec fn box_vals(g: Seq<BoardCell>, b: int) -> Seq<u8> {
    Seq::new(9, |k: int| g[box_base(b) + 9 * (k / 3) + (k % 3)].val)
}

/// The multiset of the nine digits is exactly {1,...,9}: nine digits, each
/// in 1..=9, none of them twice, and every digit present.
pub open spec fn unit_complete(vs: Seq<u8>) -> bool {
    &&& vs.len() == 9
    &&& (forall|k: int| 0 <= k < 9 ==> 1 <= #[trigger] vs[k] <= 9)
    &&& (forall|k: int, l: int|
        0 <= k < 9 && 0 <= l < 9 && k != l ==> #[trigger] vs[k] != #[trigger] vs[l])
    &&& (forall|d: u8| 1 <= d <= 9 ==> #[trigger] vs.contains(d))
}

/// Nine pairwise distinct digits drawn from 1..=9 must cover all of 1..=9.
proof fn lemma_nine_distinct_cover(vs: Seq<u8>)
    requires
        vs.len() == 9,
        forall|k: int| 0 <= k < 9 ==> 1 <= #[trigger] vs[k] <= 9,
        forall|k: int, l: int|
            0 <= k < 9 && 0 <= l < 9 && k != l ==> #[trigger] vs[k] != #[trigger] vs[l],
    ensures
        forall|d: u8| 1 <= d <= 9 ==> #[trigger] vs.contains(d),
{
    broadcast use vstd::seq_lib::seq_to_set_is_finite;

    let ivs = vs.map_values(|x: u8| x as int);
    assert forall|a: int, b: int|
        0 <= a < ivs.len() && 0 <= b < ivs.len() && a != b implies ivs[a] != ivs[b] by {
        assert(vs[a] != vs[b]);
    }
    ivs.unique_seq_to_set();
    let t = ivs.to_set();
    let d9 = set_int_range(1, 10);
    lemma_int_range(1, 10);
    assert forall|x: int| t.contains(x) implies d9.contains(x) by {
        let k = choose|k: int| 0 <= k < ivs.len() && ivs[k] == x;
        assert(1 <= vs[k] <= 9);
    }
    lemma_subset_equality(t, d9);
    assert forall|d: u8| 1 <= d <= 9 implies vs.contains(d) by {
        assert(d9.contains(d as int));
        assert(t.contains(d as int));
        let k = choose|k: int| 0 <= k < ivs.len() && ivs[k] == d as int;
        assert(vs[k] == d);
    }
}

/// In a grid the solver accepts, any two cells sharing a unit hold
/// different digits, provided the given cells did not clash to begin with.
proof fn lemma_solved_all_distinct(g0: Seq<BoardCell>, g: Seq<BoardCell>)
    requires
        fixed_consistent(g0),
        solved_grid(g0, g),
    ensures
        forall|i: int, j: int| #![trigger g[i], g[j]]
            0 <= i < 81 && 0 <= j < 81 && i != j && same_unit(i, j) ==> g[i].val != g[j].val,
{
    assert forall|i: int, j: int| #![trigger g[i], g[j]]
        0 <= i < 81 && 0 <= j < 81 && i != j && same_unit(i, j) implies g[i].val != g[j].val by {
        if !g[i].fixed {
            assert(placement_ok(g, i));
            assert(g[j].val != g[i].val);
        } else if !g[j].fixed {
            assert(placement_ok(g, j));
            assert(g[i].val != g[j].val);
        } else {
            assert(g0[i].fixed && g0[j].fixed);
            assert(g[i].val == g0[i].val && g[j].val == g0[j].val);
        }
    }
}

/// Validity of a solved grid: started from given cells that do not clash,
/// every row, every column and every box of the solver's output holds each
/// of the digits 1..=9 exactly once.
pub proof fn lemma_solved_grid_valid(g0: Seq<BoardCell>, g: Seq<BoardCell>)
    requires
        fixed_consistent(g0),
        solved_grid(g0, g),
    ensures
        forall|u: int| 0 <= u < 9 ==> unit_complete(#[trigger] row_vals(g, u)),
        forall|u: int| 0 <= u < 9 ==> unit_complete(#[trigger] col_vals(g, u)),
        forall|b: int| 0 <= b < 9 ==> unit_complete(#[trigger] box_vals(g, b)),
{
    lemma_solved_all_distinct(g0, g);
    assert forall|u: int| 0 <= u < 9 implies unit_complete(row_vals(g, u)) by {
        let vs = row_vals(g, u);
        assert forall|k: int| 0 <= k < 9 implies 1 <= #[trigger] vs[k] <= 9 by {
            assert(1 <= g[u * 9 + k].val <= 9);
        }
        assert forall|k: int, l: int|
            0 <= k < 9 && 0 <= l < 9 && k != l implies #[trigger] vs[k] != #[trigger] vs[l] by {
            let i = u * 9 + k;
            let j = u * 9 + l;
            assert(row_of(i) == u) by {
                vstd::arithmetic::div_mod::lemma_fundamental_div_mod_converse(i, 9, u, k);
            }
            assert(row_of(j) == u) by {
                vstd::arithmetic::div_mod::lemma_fundamental_div_mod_converse(j, 9, u, l);
            }
            assert(g[i].val != g[j].val);
        }
        lemma_nine_distinct_cover(vs);
    }
    assert forall|u: int| 0 <= u < 9 implies unit_complete(col_vals(g, u)) by {
        let vs = col_vals(g, u);
        assert forall|k: int| 0 <= k < 9 implies 1 <= #[trigger] vs[k] <= 9 by {
            assert(1 <= g[u + 9 * k].val <= 9);
        }
        assert forall|k: int, l: int|
            0 <= k < 9 && 0 <= l < 9 && k != l implies #[trigger] vs[k] != #[trigger] vs[l] by {
            let i = u + 9 * k;
            let j = u + 9 * l;
            assert(col_of(i) == u) by {
                vstd::arithmetic::div_mod::lemma_fundamental_div_mod_converse(i, 9, k, u);
            }
            assert(col_of(j) == u) by {
                vstd::arithmetic::div_mod::lemma_fundamental_div_mod_converse(j, 9, l, u);
            }
            assert(g[i].val != g[j].val);
        }
        lemma_nine_distinct_cover(vs);
    }
    assert forall|b: int| 0 <= b < 9 implies unit_complete(box_vals(g, b)) by {
        let vs = box_vals(g, b);
        assert forall|k: int| 0 <= k < 9 implies 1 <= #[trigger] vs[k] <= 9 by {
            lemma_box_slot_of_base(b, k);
            assert(1 <= g[box_base(b) + 9 * (k / 3) + (k % 3)].val <= 9);
        }
        assert forall|k: int, l: int|
            0 <= k < 9 && 0 <= l < 9 && k != l implies #[trigger] vs[k] != #[trigger] vs[l] by {
            lemma_box_slot_of_base(b, k);
            lemma_box_slot_of_base(b, l);
            let i = box_base(b) + 9 * (k / 3) + (k % 3);
            let j = box_base(b) + 9 * (l / 3) + (l % 3);
            assert(i != j);
            assert(same_unit(i, j));
            assert(g[i].val != g[j].val);
        }
        lemma_nine_distinct_cover(vs);
    }
}

/// The `k`-th cell of box `b` lies on the grid and in that box.
proof fn lemma_box_slot_of_base(b: int, k: int)
    requires
        0 <= b < 9,
        0 <= k < 9,
    ensures
        0 <= box_base(b) + 9 * (k / 3) + (k % 3) < 81,
        box_of(box_base(b) + 9 * (k / 3) + (k % 3)) == b,
{
    let p = box_base(b) + 9 * (k / 3) + (k % 3);
    let r = (b / 3) * 3 + k / 3;
    let c = (b % 3) * 3 + k % 3;
    assert(p == 9 * r + c);
    assert(0 <= c < 9 && 0 <= r < 9);
    assert(p / 9 == r && p % 9 == c) by {
        vstd::arithmetic::div_mod::lemma_fundamental_div_mod_converse(p, 9, r, c);
    }
    assert(r / 3 == b / 3) by {
        vstd::arithmetic::div_mod::lemma_fundamental_div_mod_converse(r, 3, b / 3, k / 3);
    }
    assert(c / 3 == b % 3) by {
        vstd::arithmetic::div_mod::lemma_fundamental_div_mod_converse(c, 3, b % 3, k % 3);
    }
}

/// The multiset {1,...,9}: each digit exactly once.
pub open spec fn full_digits() -> Multiset<u8> {
    Multiset::empty().insert(1).insert(2).insert(3).insert(4).insert(5).insert(6).insert(
        7,
    ).insert(8).insert(9)
}

/// `unit_complete` said with a multiset: the nine digits of a complete unit
/// form exactly the multiset {1,...,9}.
pub proof fn lemma_unit_complete_multiset(vs: Seq<u8>)
    requires
        unit_complete(vs),
    ensures
        vs.to_multiset() =~= full_digits(),
{
    broadcast use vstd::seq_lib::group_to_multiset_ensures;
    broadcast use vstd::multiset::group_multiset_axioms;

    vs.lemma_multiset_has_no_duplicates();
    let m = vs.to_multiset();
    assert forall|d: u8| #[trigger] m.count(d) == full_digits().count(d) by {
        if 1 <= d <= 9 {
            assert(vs.contains(d));
            assert(m.count(d) > 0);
            assert(m.contains(d));
            assert(m.count(d) == 1);
        } else {
            if m.count(d) > 0 {
                let k = choose|k: int| 0 <= k < vs.len() && vs[k] == d;
                assert(1 <= vs[k] <= 9);
                assert(false);
            }
        }
    }
}

/// Determinism of the solver: two calls of `run` on equal grids give the
/// same answer and leave the same grid behind, since `run_behavior` — which
/// `run` ensures of every call — pins both to the input alone.
pub proof fn lemma_run_deterministic(
    g0: Seq<BoardCell>,
    r1: SolveResult,
    g1: Seq<BoardCell>,
    r2: SolveResult,
    g2: Seq<BoardCell>,
)
    requires
        run_behavior(g0, r1, g1),
        run_behavior(g0, r2, g2),
    ensures
        r1 == r2,
        g1 == g2,
{
    if solve_spec(g0, 0) is Some {
        assert(r1 == SolveResult::Solved && r2 == SolveResult::Solved);
        assert(Some(g1) == solve_spec(g0, 0) && Some(g2) == solve_spec(g0, 0));
    } else {
        assert(r1 != SolveResult::Solved && r2 != SolveResult::Solved);
        assert(r1 == SolveResult::Unsolvable && r2 == SolveResult::Unsolvable);
        assert(g1 == g0 && g2 == g0);
    }
}

/// A pair of identical given digits in one row poisons every outcome: no
/// grid that preserves the given cells can hold each digit once in that
/// row. Whatever the solver answers for such an input, its output is
/// therefore never a valid completed grid.
pub proof fn lemma_duplicate_fixed_never_valid(
    g0: Seq<BoardCell>,
    g: Seq<BoardCell>,
    i: int,
    j: int,
)
    requires
        0 <= i < 81,
        0 <= j < 81,
        i != j,
        row_of(i) == row_of(j),
        g0[i].fixed,
        g0[j].fixed,
        g0[i].val == g0[j].val,
        g.len() == 81,
        fixed_preserved(g0, g),
    ensures
        !unit_complete(row_vals(g, row_of(i))),
{
    let u = row_of(i);
    let k = i - u * 9;
    let l = j - u * 9;
    assert(i == 9 * (i / 9) + i % 9);
    assert(j == 9 * (j / 9) + j % 9);
    assert(0 <= k < 9 && 0 <= l < 9 && k != l);
    assert(row_vals(g, u)[k] == g[i].val);
    assert(row_vals(g, u)[l] == g[j].val);
    assert(g[i].val == g0[i].val && g[j].val == g0[j].val);
}

} // verus!
