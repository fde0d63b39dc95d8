use sudoku::{Sudoku, SudokuError};

/// Flattens nine rows of nine values into the row-major cell order the
/// constructor takes.
fn flatten(rows: [[u8; 9]; 9]) -> Vec<u8> {
    let mut values = Vec::new();
    for row in rows.iter() {
        for value in row.iter() {
            values.push(*value);
        }
    }
    values
}

/// A full grid that obeys the rule: each row is a cyclic shift of the
/// digits 1 through 9, arranged so columns and boxes work out too.
fn solved_grid() -> Vec<u8> {
    flatten([
        [1, 2, 3, 4, 5, 6, 7, 8, 9],
        [4, 5, 6, 7, 8, 9, 1, 2, 3],
        [7, 8, 9, 1, 2, 3, 4, 5, 6],
        [2, 3, 4, 5, 6, 7, 8, 9, 1],
        [5, 6, 7, 8, 9, 1, 2, 3, 4],
        [8, 9, 1, 2, 3, 4, 5, 6, 7],
        [3, 4, 5, 6, 7, 8, 9, 1, 2],
        [6, 7, 8, 9, 1, 2, 3, 4, 5],
        [9, 1, 2, 3, 4, 5, 6, 7, 8],
    ])
}

/// A widely published puzzle with a unique solution.
fn classic_puzzle() -> Vec<u8> {
    flatten([
        [5, 3, 0, 0, 7, 0, 0, 0, 0],
        [6, 0, 0, 1, 9, 5, 0, 0, 0],
        [0, 9, 8, 0, 0, 0, 0, 6, 0],
        [8, 0, 0, 0, 6, 0, 0, 0, 3],
        [4, 0, 0, 8, 0, 3, 0, 0, 1],
        [7, 0, 0, 0, 2, 0, 0, 0, 6],
        [0, 6, 0, 0, 0, 0, 2, 8, 0],
        [0, 0, 0, 4, 1, 9, 0, 0, 5],
        [0, 0, 0, 0, 8, 0, 0, 7, 9],
    ])
}

#[test]
fn construct_round_trip() {
    let values = classic_puzzle();
    let grid = Sudoku::constructor(values.clone()).unwrap();
    assert_eq!(grid.get_fields(), values);
}

#[test]
fn construct_rejects_length_zero() {
    assert_eq!(
        Sudoku::constructor(Vec::new()).unwrap_err(),
        SudokuError::InvalidLength
    );
}

#[test]
fn construct_rejects_length_eighty() {
    assert_eq!(
        Sudoku::constructor(vec![0u8; 80]).unwrap_err(),
        SudokuError::InvalidLength
    );
}

#[test]
fn construct_rejects_length_eighty_two() {
    assert_eq!(
        Sudoku::constructor(vec![0u8; 82]).unwrap_err(),
        SudokuError::InvalidLength
    );
}

#[test]
fn construct_rejects_value_ten() {
    let mut values = vec![0u8; 81];
    values[40] = 10;
    assert_eq!(
        Sudoku::constructor(values).unwrap_err(),
        SudokuError::InvalidValue
    );
}

#[test]
fn construct_rejects_large_value() {
    let mut values = vec![0u8; 81];
    values[0] = 255;
    assert_eq!(
        Sudoku::constructor(values).unwrap_err(),
        SudokuError::InvalidValue
    );
}

#[test]
fn construct_accepts_all_digits_and_empties() {
    let mut values = vec![0u8; 81];
    for digit in 1..=9u8 {
        values[digit as usize] = digit;
    }
    let grid = Sudoku::constructor(values.clone()).unwrap();
    assert_eq!(grid.get_fields(), values);
}

#[test]
fn empty_cells_always_valid() {
    let mut values = vec![0u8; 81];
    values[0] = 5;
    values[1] = 5;
    values[9] = 5;
    let grid = Sudoku::constructor(values).unwrap();
    for index in 0..81 {
        if grid.get_fields()[index] == 0 {
            assert!(grid.check_field_validity(index));
        }
    }
}

#[test]
fn row_conflict_marks_both_cells() {
    let mut values = vec![0u8; 81];
    values[0] = 5;
    values[1] = 5;
    let grid = Sudoku::constructor(values).unwrap();
    assert!(!grid.check_field_validity(0));
    assert!(!grid.check_field_validity(1));
    for index in 2..81 {
        assert!(grid.check_field_validity(index));
    }
    assert!(!grid.check_validity());
}

#[test]
fn column_conflict_detected() {
    let mut values = vec![0u8; 81];
    values[4] = 7;
    values[4 + 9 * 5] = 7;
    let grid = Sudoku::constructor(values).unwrap();
    assert!(!grid.check_field_validity(4));
    assert!(!grid.check_field_validity(4 + 9 * 5));
    assert!(!grid.check_validity());
}

#[test]
fn box_conflict_detected() {
    // Cells 0 and 10 share the top-left box but neither row nor column.
    let mut values = vec![0u8; 81];
    values[0] = 3;
    values[10] = 3;
    let grid = Sudoku::constructor(values).unwrap();
    assert!(!grid.check_field_validity(0));
    assert!(!grid.check_field_validity(10));
    assert!(!grid.check_validity());
}

#[test]
fn all_zero_grid_valid() {
    let grid = Sudoku::constructor(vec![0u8; 81]).unwrap();
    assert!(grid.check_validity());
}

#[test]
fn solve_classic_puzzle() {
    let values = classic_puzzle();
    let grid = Sudoku::constructor(values.clone()).unwrap();
    let solved = grid.solve();
    let result = solved.get_fields();
    assert_eq!(result.len(), 81);
    for index in 0..81 {
        assert!((1..=9).contains(&result[index]));
        if values[index] != 0 {
            assert_eq!(result[index], values[index]);
        }
    }
    assert!(solved.check_validity());
    // The source grid is untouched.
    assert_eq!(grid.get_fields(), values);
}

#[test]
fn solve_recursive_reports_success() {
    let mut grid = Sudoku::constructor(classic_puzzle()).unwrap();
    assert!(Sudoku::solve_recursive(&mut grid, 0));
    assert!(grid.check_validity());
}

#[test]
fn solve_solved_grid_is_identity() {
    let values = solved_grid();
    let grid = Sudoku::constructor(values.clone()).unwrap();
    assert!(grid.check_validity());
    assert_eq!(grid.solve().get_fields(), values);
}

#[test]
fn solve_unsolvable_returns_input_unchanged() {
    // Row and column force the top-left cell two different ways: its
    // row already holds 2 through 9, and its column already holds 1.
    let mut values = vec![0u8; 81];
    for col in 1..9 {
        values[col] = (col + 1) as u8;
    }
    values[9] = 1;
    let grid = Sudoku::constructor(values.clone()).unwrap();
    assert!(grid.check_validity());
    assert_eq!(grid.solve().get_fields(), values);

    let mut search = Sudoku::constructor(values.clone()).unwrap();
    assert!(!Sudoku::solve_recursive(&mut search, 0));
    assert_eq!(search.get_fields(), values);
}

#[test]
fn solve_conflicted_grid_not_reported_valid() {
    // Two identical digits forced into the same row, with no empty
    // cells to relieve the clash: whatever solve returns must still
    // fail the validity check.
    let mut values = solved_grid();
    values[1] = values[0];
    let grid = Sudoku::constructor(values).unwrap();
    assert!(!grid.check_validity());
    let solved = grid.solve();
    assert!(!solved.check_validity());
    let result = solved.get_fields();
    assert!(result.iter().all(|&value| value != 0));
}

#[test]
fn solve_fills_box_without_duplicates() {
    // Blank the whole top-left box; each of its cells stays uniquely
    // determined by its row and column, so the solver must restore the
    // full grid exactly, and in particular repeat no digit in the box.
    let full = solved_grid();
    let mut values = full.clone();
    for &index in [0, 1, 2, 9, 10, 11, 18, 19, 20].iter() {
        values[index] = 0;
    }
    let grid = Sudoku::constructor(values).unwrap();
    let solved = grid.solve();
    let result = solved.get_fields();
    assert_eq!(result, full);
    let mut seen = [false; 10];
    for &index in [0, 1, 2, 9, 10, 11, 18, 19, 20].iter() {
        let digit = result[index] as usize;
        assert!(!seen[digit]);
        seen[digit] = true;
    }
}
