//! The puzzle's rule, stated over a plain sequence of cell values.
//!
//! A grid is a sequence of 81 values in row-major order: index `i` lies
//! in row `i / 9` and column `i % 9`, value `0` marks an empty cell and
//! `1` through `9` a placed digit. The spec functions here say what it
//! means for a cell not to clash, for a grid to obey the rule, and for
//! one grid to be a complete answer to another.

use vstd::prelude::*;
use vstd::arithmetic::div_mod::{lemma_fundamental_div_mod, lemma_fundamental_div_mod_converse,
    lemma_mod_division_less_than_divisor};

verus! {

/// Cells `i` and `j` lie in the same row.
pub open spec fn same_row(i: int, j: int) -> bool {
    i / 9 == j / 9
}

/// Cells `i` and `j` lie in the same column.
pub open spec fn same_col(i: int, j: int) -> bool {
    i % 9 == j % 9
}

/// Cells `i` and `j` lie in the same 3x3 box.
pub open spec fn same_box(i: int, j: int) -> bool {
    (i / 9) / 3 == (j / 9) / 3 && (i % 9) / 3 == (j % 9) / 3
}

/// The distinct cells `i` and `j` constrain each other: they share a
/// row, a column, or a 3x3 box.
pub open spec fn sees(i: int, j: int) -> bool {
    i != j && (same_row(i, j) || same_col(i, j) || same_box(i, j))
}

/// The cell at `i` does not clash: it is empty, or no cell that
/// constrains it holds the same digit.
pub open spec fn cell_valid(s: Seq<u8>, i: int) -> bool {
    s[i] == 0 || forall|j: int| 0 <= j < 81 && #[trigger] sees(i, j) ==> s[j] != s[i]
}

/// No row, column, or box of the grid holds the same nonzero digit
/// twice.
pub open spec fn grid_valid(s: Seq<u8>) -> bool {
    forall|i: int| 0 <= i < 81 ==> #[trigger] cell_valid(s, i)
}

/// Every cell of the grid holds a digit; none is empty.
pub open spec fn grid_full(s: Seq<u8>) -> bool {
    forall|i: int| 0 <= i < 81 ==> #[trigger] s[i] != 0
}

/// Every cell holds an accepted value: `0` (empty) or a digit `1`-`9`.
pub open spec fn cells_in_range(s: Seq<u8>) -> bool {
    forall|i: int| 0 <= i < 81 ==> #[trigger] s[i] <= 9
}

/// `sol` is a complete answer to the puzzle `s`: 81 digits `1`-`9`
/// that obey the uniqueness rule and keep every clue (nonzero cell)
/// of `s`.
pub open spec fn is_solution(sol: Seq<u8>, s: Seq<u8>) -> bool {
    &&& sol.len() == 81
    &&& forall|i: int| 0 <= i < 81 ==> 1 <= #[trigger] sol[i] && sol[i] <= 9
    &&& grid_valid(sol)
    &&& forall|i: int| 0 <= i < 81 && #[trigger] s[i] != 0 ==> sol[i] == s[i]
}

/// The cell of box row `(i / 9) / 3` and box column `(i % 9) / 3` (the
/// box that holds cell `i`) at offset (`rr`, `cc`) within the box.
pub open spec fn box_cell(i: int, rr: int, cc: int) -> int {
    27 * ((i / 9) / 3) + 9 * rr + 3 * ((i % 9) / 3) + cc
}

/// Writes the cell index `j` in terms of its coordinates: row, column,
/// and the position of each within the 3x3 box structure.
pub proof fn lemma_cell_coords(j: int)
    requires
        0 <= j < 81,
    ensures
        j == 9 * (j / 9) + j % 9,
        0 <= j / 9 < 9,
        0 <= j % 9 < 9,
        j / 9 == 3 * ((j / 9) / 3) + (j / 9) % 3,
        j % 9 == 3 * ((j % 9) / 3) + (j % 9) % 3,
        0 <= (j / 9) / 3 < 3,
        0 <= (j / 9) % 3 < 3,
        0 <= (j % 9) / 3 < 3,
        0 <= (j % 9) % 3 < 3,
{
    lemma_fundamental_div_mod(j, 9);
    lemma_mod_division_less_than_divisor(j, 9);
    lemma_fundamental_div_mod(j / 9, 3);
    lemma_mod_division_less_than_divisor(j / 9, 3);
    lemma_fundamental_div_mod(j % 9, 3);
    lemma_mod_division_less_than_divisor(j % 9, 3);
}

/// The cell in row `r` and column `c` has index `9 * r + c`, and its
/// coordinates derive back from that index.
pub proof fn lemma_coords_cell(r: int, c: int)
    requires
        0 <= r < 9,
        0 <= c < 9,
    ensures
        0 <= 9 * r + c < 81,
        (9 * r + c) / 9 == r,
        (9 * r + c) % 9 == c,
{
    lemma_fundamental_div_mod_converse(9 * r + c, 9, r, c);
}

/// The cell of box row `gr` and box column `gc` at offset (`rr`, `cc`)
/// within the box has index `27 * gr + 9 * rr + 3 * gc + cc`, and its
/// coordinates derive back from that index.
pub proof fn lemma_box_coords_cell(gr: int, rr: int, gc: int, cc: int)
    requires
        0 <= gr < 3,
        0 <= rr < 3,
        0 <= gc < 3,
        0 <= cc < 3,
    ensures
        0 <= 27 * gr + 9 * rr + 3 * gc + cc < 81,
        (27 * gr + 9 * rr + 3 * gc + cc) / 9 == 3 * gr + rr,
        (27 * gr + 9 * rr + 3 * gc + cc) % 9 == 3 * gc + cc,
        ((27 * gr + 9 * rr + 3 * gc + cc) / 9) / 3 == gr,
        ((27 * gr + 9 * rr + 3 * gc + cc) % 9) / 3 == gc,
{
    let j = 27 * gr + 9 * rr + 3 * gc + cc;
    lemma_fundamental_div_mod_converse(j, 9, 3 * gr + rr, 3 * gc + cc);
    lemma_fundamental_div_mod_converse(3 * gr + rr, 3, gr, rr);
    lemma_fundamental_div_mod_converse(3 * gc + cc, 3, gc, cc);
}

/// The constraint relation is symmetric: `i` constrains `j` exactly
/// when `j` constrains `i`.
pub proof fn lemma_sees_symmetric(i: int, j: int)
    ensures
        sees(i, j) == sees(j, i),
{
}

/// An empty cell never clashes, whatever the surrounding cells hold.
pub proof fn lemma_empty_cell_valid(s: Seq<u8>, i: int)
    requires
        0 <= i < 81,
        s[i] == 0,
    ensures
        cell_valid(s, i),
{
}

/// A grid with every cell empty obeys the rule vacuously.
pub proof fn lemma_empty_grid_valid(s: Seq<u8>)
    requires
        s.len() == 81,
        forall|i: int| 0 <= i < 81 ==> #[trigger] s[i] == 0,
    ensures
        grid_valid(s),
{
}

/// Two identical nonzero digits in one row put both cells in the
/// wrong: neither passes the cell check.
pub proof fn lemma_row_conflict(s: Seq<u8>, i: int, j: int)
    requires
        0 <= i < 81,
        0 <= j < 81,
        i != j,
        same_row(i, j),
        s[i] != 0,
        s[j] == s[i],
    ensures
        !cell_valid(s, i),
        !cell_valid(s, j),
{
    assert(sees(i, j));
    lemma_sees_symmetric(i, j);
    assert(sees(j, i));
}

/// In a grid that obeys the rule, a box never holds the same nonzero
/// digit twice.
pub proof fn lemma_valid_box_distinct(s: Seq<u8>, i: int, j: int)
    requires
        grid_valid(s),
        0 <= i < 81,
        0 <= j < 81,
        i != j,
        same_box(i, j),
        s[i] != 0,
    ensures
        s[j] != s[i],
{
    assert(cell_valid(s, i));
    assert(sees(i, j));
}

/// A puzzle that has an answer obeys the rule itself: its clues are
/// free of clashes.
pub proof fn lemma_solution_implies_valid(orig: Seq<u8>, sol: Seq<u8>)
    requires
        orig.len() == 81,
        is_solution(sol, orig),
    ensures
        grid_valid(orig),
{
    assert forall|i: int| 0 <= i < 81 implies #[trigger] cell_valid(orig, i) by {
        if orig[i] != 0 {
            assert(cell_valid(sol, i));
            assert forall|j: int| 0 <= j < 81 && #[trigger] sees(i, j) implies orig[j]
                != orig[i] by {
                if orig[j] != 0 {
                    assert(sol[j] != sol[i]);
                }
            }
        }
    }
}

/// What the backtracking search hands back for a rule-abiding puzzle
/// is an answer to it: the search fills every cell with a digit that
/// clashes nowhere and keeps the clues, so the whole obeys the rule.
pub proof fn lemma_search_success(orig: Seq<u8>, res: Seq<u8>)
    requires
        orig.len() == 81,
        res.len() == 81,
        grid_valid(orig),
        forall|k: int| 0 <= k < 81 && #[trigger] orig[k] != 0 ==> res[k] == orig[k],
        forall|k: int| 0 <= k < 81 ==> #[trigger] res[k] != 0,
        forall|k: int| 0 <= k < 81 ==> #[trigger] res[k] <= 9,
        forall|k: int| 0 <= k < 81 && orig[k] == 0 ==> #[trigger] cell_valid(res, k),
    ensures
        is_solution(res, orig),
{
    assert forall|i: int| 0 <= i < 81 implies #[trigger] cell_valid(res, i) by {
        if orig[i] != 0 {
            assert forall|j: int| 0 <= j < 81 && #[trigger] sees(i, j) implies res[j]
                != res[i] by {
                if orig[j] != 0 {
                    assert(cell_valid(orig, i));
                    assert(orig[j] != orig[i]);
                } else {
                    assert(cell_valid(res, j));
                    assert(res[j] != 0);
                    lemma_sees_symmetric(i, j);
                    assert(sees(j, i));
                }
            }
        }
    }
}

/// A full grid that obeys the rule answers itself.
pub proof fn lemma_solved_grid_is_solution(g: Seq<u8>)
    requires
        g.len() == 81,
        cells_in_range(g),
        grid_full(g),
        grid_valid(g),
    ensures
        is_solution(g, g),
{
}

/// A full grid that obeys the rule is its own only answer: whatever
/// answers it equals it cell for cell.
pub proof fn lemma_solved_grid_unique_solution(g: Seq<u8>, sol: Seq<u8>)
    requires
        g.len() == 81,
        grid_full(g),
        is_solution(sol, g),
    ensures
        sol == g,
{
    assert forall|i: int| 0 <= i < 81 implies sol[i] == g[i] by {
        assert(g[i] != 0);
    }
    assert(sol =~= g);
}

/// Solving an already solved grid is a no-op: the grid answers itself
/// and nothing else answers it, so a solver that promises an answer
/// whenever one exists must hand such a grid back unchanged.
pub proof fn lemma_solve_of_solved_is_identity(g: Seq<u8>, r: Seq<u8>)
    requires
        g.len() == 81,
        cells_in_range(g),
        grid_full(g),
        grid_valid(g),
        (exists|sol: Seq<u8>| is_solution(sol, g)) ==> is_solution(r, g),
    ensures
        r == g,
{
    lemma_solved_grid_is_solution(g);
    lemma_solved_grid_unique_solution(g, r);
}

} // verus!
