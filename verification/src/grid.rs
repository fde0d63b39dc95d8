//! The grid itself: an 81-cell game with validated construction, the
//! per-cell and whole-grid validity checks, and the backtracking
//! solver.

use vstd::prelude::*;

use crate::rules::{box_cell, cell_valid, cells_in_range, grid_valid, is_solution,
    lemma_box_coords_cell, lemma_cell_coords, lemma_coords_cell, lemma_search_success,
    lemma_sees_symmetric, lemma_solution_implies_valid, same_box, same_col, same_row, sees};

verus! {

/// A game of sudoku: 81 cells in row-major order. Value `0` stands for
/// an empty cell, `1` through `9` for a placed digit.
#[derive(Clone, Copy, Debug)]
pub struct Sudoku {
    fields: [u8; 81],
}

/// Why a grid could not be constructed.
#[derive(Clone, Copy, Debug, PartialEq, Eq, Structural)]
pub enum SudokuError {
    /// The supplied values did not number exactly 81.
    InvalidLength,
    /// A supplied value lay outside the accepted range `0`-`9`.
    InvalidValue,
}

impl View for Sudoku {
    type V = Seq<u8>;

    closed spec fn view(&self) -> Seq<u8> {
        self.fields@
    }
}

/// The cell at `j` is no obstacle for the cell at `i`: it is cell `i`
/// itself, or it holds another value.
spec fn no_clash_at(s: Seq<u8>, i: int, j: int) -> bool {
    j == i || s[j] != s[i]
}

/// The first `n` cells of the row of cell `i` are no obstacle for it.
spec fn row_checked(s: Seq<u8>, i: int, n: int) -> bool {
    forall|c: int| 0 <= c < n ==> #[trigger] no_clash_at(s, i, 9 * (i / 9) + c)
}

/// The cells of the column of cell `i` in the first `n` rows are no
/// obstacle for it.
spec fn col_checked(s: Seq<u8>, i: int, n: int) -> bool {
    forall|r: int| 0 <= r < n ==> #[trigger] no_clash_at(s, i, 9 * r + i % 9)
}

/// The cells of the box of cell `i` at offsets lexicographically below
/// (`rows`, `cols`) are no obstacle for it.
spec fn box_checked(s: Seq<u8>, i: int, rows: int, cols: int) -> bool {
    forall|rr: int, cc: int|
        0 <= rr < 3 && 0 <= cc < 3 && (rr < rows || (rr == rows && cc < cols))
            ==> #[trigger] no_clash_at(s, i, box_cell(i, rr, cc))
}

impl Sudoku {
    /// Every cell holds an accepted value at all times.
    #[verifier::type_invariant]
    spec fn inv(&self) -> bool {
        cells_in_range(self@)
    }

    /// Builds a game from 81 values given in row-major order: left to
    /// right within a row, rows from top to bottom. The accepted
    /// convention is permissive: `0` marks an empty cell, `1`-`9` a
    /// placed digit, so partially filled puzzles can be constructed.
    /// Anything else is rejected, and nothing is built.
    pub fn constructor(input: Vec<u8>) -> (r: Result<Sudoku, SudokuError>)
        ensures
            match r {
                Ok(g) => g@ == input@ && input@.len() == 81 && cells_in_range(input@),
                Err(SudokuError::InvalidLength) => input@.len() != 81,
                Err(SudokuError::InvalidValue) => input@.len() == 81 && !cells_in_range(input@),
            },
    {
        let mut fields: [u8; 81] = [0; 81];

        if input.len() != 81 {
            return Err(SudokuError::InvalidLength);
        }

        let mut i: usize = 0;
        while i < 81
            invariant
                input@.len() == 81,
                i <= 81,
                forall|k: int| 0 <= k < i ==> #[trigger] fields@[k] == input@[k],
                forall|k: int| 0 <= k < i ==> #[trigger] input@[k] <= 9,
            decreases 81 - i,
        {
            if input[i] > 9 {
                return Err(SudokuError::InvalidValue);
            }
            fields[i] = input[i];
            i += 1;
        }

        proof {
            assert(fields@ =~= input@);
        }
        Ok(Sudoku { fields })
    }

    /// The 81 cell values, in the same row-major order they were
    /// supplied in, as an independent copy.
    pub fn get_fields(&self) -> (r: Vec<u8>)
        ensures
            r@ == self@,
    {
        let mut r: Vec<u8> = Vec::new();
        let mut i: usize = 0;
        while i < 81
            invariant
                i <= 81,
                r@.len() == i,
                forall|k: int| 0 <= k < i ==> #[trigger] r@[k] == self@[k],
            decreases 81 - i,
        {
            r.push(self.fields[i]);
            i += 1;
        }
        proof {
            use_type_invariant(self);
            assert(r@ =~= self@);
        }
        r
    }

    /// Checks one cell against the uniqueness rule: an empty cell is
    /// always in order, a digit is in order when no other cell of its
    /// row, column, or box holds the same digit.
    pub fn check_field_validity(&self, index: usize) -> (r: bool)
        requires
            index < 81,
        ensures
            r == cell_valid(self@, index as int),
    {
        let ghost i = index as int;

        if self.fields[index] == 0 {
            return true;
        }

        proof {
            lemma_cell_coords(i);
        }

        // Check row
        let row: usize = index / 9;
        let mut column: usize = 0;
        while column < 9
            invariant
                index < 81,
                i == index as int,
                row == i / 9,
                column <= 9,
                self@[i] != 0,
                row_checked(self@, i, column as int),
            decreases 9 - column,
        {
            proof {
                lemma_coords_cell(row as int, column as int);
            }
            let j: usize = 9 * row + column;
            if j != index && self.fields[j] == self.fields[index] {
                proof {
                    assert(same_row(i, j as int));
                    assert(sees(i, j as int));
                    assert(!cell_valid(self@, i));
                }
                return false;
            }
            proof {
                assert(no_clash_at(self@, i, 9 * (i / 9) + column as int));
            }
            column += 1;
        }

        // Check column
        let column: usize = index % 9;
        let mut row2: usize = 0;
        while row2 < 9
            invariant
                index < 81,
                i == index as int,
                column == i % 9,
                row2 <= 9,
                self@[i] != 0,
                row_checked(self@, i, 9),
                col_checked(self@, i, row2 as int),
            decreases 9 - row2,
        {
            proof {
                lemma_coords_cell(row2 as int, column as int);
            }
            let j: usize = 9 * row2 + column;
            if j != index && self.fields[j] == self.fields[index] {
                proof {
                    assert(same_col(i, j as int));
                    assert(sees(i, j as int));
                    assert(!cell_valid(self@, i));
                }
                return false;
            }
            proof {
                assert(no_clash_at(self@, i, 9 * row2 as int + i % 9));
            }
            row2 += 1;
        }

        // Check box
        let group_row: usize = (index / 9) / 3;
        let group_column: usize = (index % 9) / 3;
        let mut brow: usize = 0;
        while brow < 3
            invariant
                index < 81,
                i == index as int,
                group_row == (i / 9) / 3,
                group_column == (i % 9) / 3,
                brow <= 3,
                self@[i] != 0,
                row_checked(self@, i, 9),
                col_checked(self@, i, 9),
                box_checked(self@, i, brow as int, 0),
            decreases 3 - brow,
        {
            let mut bcol: usize = 0;
            while bcol < 3
                invariant
                    index < 81,
                    i == index as int,
                    group_row == (i / 9) / 3,
                    group_column == (i % 9) / 3,
                    brow < 3,
                    bcol <= 3,
                    self@[i] != 0,
                    box_checked(self@, i, brow as int, bcol as int),
                decreases 3 - bcol,
            {
                proof {
                    lemma_cell_coords(i);
                    lemma_box_coords_cell(group_row as int, brow as int, group_column as int,
                        bcol as int);
                }
                let j: usize = 27 * group_row + 9 * brow + 3 * group_column + bcol;
                if j != index && self.fields[j] == self.fields[index] {
                    proof {
                        assert(same_box(i, j as int));
                        assert(sees(i, j as int));
                        assert(!cell_valid(self@, i));
                    }
                    return false;
                }
                proof {
                    assert(j as int == box_cell(i, brow as int, bcol as int));
                    assert(no_clash_at(self@, i, box_cell(i, brow as int, bcol as int)));
                    assert(box_checked(self@, i, brow as int, bcol as int + 1));
                }
                bcol += 1;
            }
            proof {
                assert(box_checked(self@, i, brow as int + 1, 0));
            }
            brow += 1;
        }

        proof {
            assert forall|j: int| 0 <= j < 81 && #[trigger] sees(i, j) implies self@[j]
                != self@[i] by {
                lemma_cell_coords(i);
                lemma_cell_coords(j);
                if same_row(i, j) {
                    assert(no_clash_at(self@, i, 9 * (i / 9) + (j % 9)));
                    assert(j == 9 * (i / 9) + (j % 9));
                } else if same_col(i, j) {
                    assert(no_clash_at(self@, i, 9 * (j / 9) + i % 9));
                    assert(j == 9 * (j / 9) + i % 9);
                } else {
                    assert(no_clash_at(self@, i, box_cell(i, (j / 9) % 3, (j % 9) % 3)));
                    assert(j == box_cell(i, (j / 9) % 3, (j % 9) % 3));
                }
            }
        }
        true
    }

    /// Solves the game from cell `index` on by depth-first
    /// backtracking: a filled cell is skipped, an empty cell tries the
    /// digits 1 through 9 in ascending order and recurses on the rest
    /// for each digit that does not clash. The first complete answer
    /// found wins. Returns true when every cell from `index` on could
    /// be decided; on failure every tried cell is reset, so the grid
    /// comes back exactly as it went in, and no answer to it exists at
    /// all.
    pub fn solve_recursive(sudoku: &mut Sudoku, index: usize) -> (r: bool)
        requires
            index <= 81,
            forall|k: int| 0 <= k < index ==> #[trigger] old(sudoku)@[k] != 0,
        ensures
            forall|k: int|
                0 <= k < 81 && #[trigger] old(sudoku)@[k] != 0 ==> final(sudoku)@[k] == old(
                    sudoku,
                )@[k],
            !r ==> final(sudoku)@ == old(sudoku)@,
            !r ==> forall|sol: Seq<u8>| !is_solution(sol, old(sudoku)@),
            r ==> forall|k: int| index <= k < 81 ==> #[trigger] final(sudoku)@[k] != 0,
            r ==> forall|k: int|
                index <= k < 81 && old(sudoku)@[k] == 0 ==> #[trigger] cell_valid(
                    final(sudoku)@,
                    k,
                ),
        decreases 81 - index,
    {
        proof {
            use_type_invariant(&*sudoku);
        }
        let ghost orig = sudoku@;
        let ghost i = index as int;

        if index >= 81 {
            return true;
        }

        if sudoku.fields[index] != 0 {
            let r = Sudoku::solve_recursive(sudoku, index + 1);
            proof {
                if r {
                    assert(sudoku@[i] == orig[i]);
                }
            }
            return r;
        }

        let mut v: u8 = 1;
        while v <= 9
            invariant
                index < 81,
                i == index as int,
                orig == old(sudoku)@,
                1 <= v <= 10,
                orig.len() == 81,
                cells_in_range(orig),
                orig[i] == 0,
                forall|k: int| 0 <= k < i ==> #[trigger] orig[k] != 0,
                sudoku@.len() == 81,
                cells_in_range(sudoku@),
                forall|k: int| 0 <= k < 81 && k != i ==> #[trigger] sudoku@[k] == orig[k],
                forall|sol: Seq<u8>| #[trigger] is_solution(sol, orig) ==> !(sol[i] < v),
            decreases 10 - v,
        {
            sudoku.fields[index] = v;
            let ghost placed = sudoku@;
            if sudoku.check_field_validity(index) {
                if Sudoku::solve_recursive(sudoku, index + 1) {
                    proof {
                        let fin = sudoku@;
                        assert forall|k: int| 0 <= k < 81 && #[trigger] orig[k] != 0 implies
                            fin[k] == orig[k] by {
                            assert(placed[k] != 0);
                        }
                        assert forall|k: int| i <= k < 81 implies #[trigger] fin[k] != 0 by {
                            if k == i {
                                assert(placed[i] != 0);
                            }
                        }
                        assert(cell_valid(placed, i));
                        assert forall|k: int| i <= k < 81 && orig[k] == 0 implies #[trigger]
                            cell_valid(fin, k) by {
                            if k == i {
                                assert(placed[i] != 0);
                                assert(fin[i] == placed[i]);
                                assert forall|j: int| 0 <= j < 81 && #[trigger] sees(i, j) implies
                                    fin[j] != fin[i] by {
                                    if placed[j] != 0 {
                                        assert(fin[j] == placed[j]);
                                        assert(placed[j] != placed[i]);
                                    } else {
                                        assert(j > i);
                                        assert(cell_valid(fin, j));
                                        assert(fin[j] != 0);
                                        lemma_sees_symmetric(i, j);
                                        assert(sees(j, i));
                                    }
                                }
                                assert(cell_valid(fin, i));
                            } else {
                                assert(placed[k] == 0);
                            }
                        }
                    }
                    return true;
                }
                proof {
                    assert forall|sol: Seq<u8>| #[trigger] is_solution(sol, orig) implies sol[i]
                        != v by {
                        if sol[i] == v {
                            assert forall|k: int| 0 <= k < 81 && #[trigger] placed[k] != 0 implies
                                sol[k] == placed[k] by {
                                if k != i {
                                    assert(placed[k] == orig[k]);
                                }
                            }
                            assert(is_solution(sol, placed));
                            assert(false);
                        }
                    }
                }
            } else {
                proof {
                    assert(placed[i] == v);
                    assert(!cell_valid(placed, i));
                    let j = choose|j: int|
                        0 <= j < 81 && #[trigger] sees(i, j) && placed[j] == placed[i];
                    assert forall|sol: Seq<u8>| #[trigger] is_solution(sol, orig) implies sol[i]
                        != v by {
                        if sol[i] == v {
                            assert(orig[j] == v);
                            assert(sol[j] == orig[j]);
                            assert(cell_valid(sol, i));
                            assert(false);
                        }
                    }
                }
            }
            v += 1;
        }

        sudoku.fields[index] = 0;
        proof {
            assert(sudoku@ =~= orig);
            assert forall|sol: Seq<u8>| !is_solution(sol, orig) by {
                if is_solution(sol, orig) {
                    assert(1 <= sol[i] && sol[i] <= 9);
                    assert(!(sol[i] < 10));
                }
            }
        }
        false
    }

    /// Solves the game by backtracking and returns the answer as a new
    /// grid; this grid itself is left untouched, and every clue
    /// (nonzero cell) keeps its value in the result. When the puzzle
    /// has an answer, the result is one: fully filled and obeying the
    /// rule. When a puzzle whose clues obey the rule has no answer,
    /// the result is the unchanged input. The operation itself signals
    /// no failure either way, so a caller inspects the result with
    /// `check_validity` and `get_fields`.
    pub fn solve(&self) -> (r: Sudoku)
        ensures
            r@.len() == 81,
            cells_in_range(r@),
            forall|k: int| 0 <= k < 81 && #[trigger] self@[k] != 0 ==> r@[k] == self@[k],
            (exists|sol: Seq<u8>| is_solution(sol, self@)) ==> is_solution(r@, self@),
            grid_valid(self@) && !(exists|sol: Seq<u8>| is_solution(sol, self@)) ==> r@ == self@,
    {
        proof {
            use_type_invariant(self);
        }
        let mut solution = Sudoku { fields: self.fields };
        let success = Sudoku::solve_recursive(&mut solution, 0);
        proof {
            use_type_invariant(&solution);
            if success {
                if exists|sol: Seq<u8>| is_solution(sol, self@) {
                    let sol = choose|sol: Seq<u8>| is_solution(sol, self@);
                    lemma_solution_implies_valid(self@, sol);
                    lemma_search_success(self@, solution@);
                }
                if grid_valid(self@) {
                    lemma_search_success(self@, solution@);
                }
            }
        }
        solution
    }

    /// Checks the whole grid against the uniqueness rule: true exactly
    /// when every cell is in order.
    pub fn check_validity(&self) -> (r: bool)
        ensures
            r == grid_valid(self@),
    {
        let mut index: usize = 0;
        while index < 81
            invariant
                index <= 81,
                forall|k: int| 0 <= k < index ==> #[trigger] cell_valid(self@, k),
            decreases 81 - index,
        {
            if !self.check_field_validity(index) {
                assert(!grid_valid(self@));
                return false;
            }
            index += 1;
        }
        true
    }
}

} // verus!
