use sudoku_sat::decode::decode_assignment;
use sudoku_sat::soundness::check_completed;
use sudoku_sat::grid::{parse_grid, Grid};
use sudoku_sat::sudoku::{SolveError, Sudoku};

fn cells_from(rows: [&str; 9]) -> Vec<u8> {
    let mut cells = Vec::new();
    for row in rows.iter() {
        for c in row.chars() {
            if ('1'..='9').contains(&c) {
                cells.push(c as u8 - b'0');
            } else {
                cells.push(0);
            }
        }
    }
    cells
}

fn grid_from(rows: [&str; 9]) -> Grid {
    Grid::from_cells(cells_from(rows)).expect("the test grid must be well formed")
}

fn assert_completed_sudoku(cells: &[u8]) {
    assert_eq!(cells.len(), 81);
    for i in 0..9 {
        let mut row_seen = [false; 10];
        let mut col_seen = [false; 10];
        let mut box_seen = [false; 10];
        for j in 0..9 {
            let r = cells[9 * i + j] as usize;
            let c = cells[9 * j + i] as usize;
            let b = cells[9 * ((i / 3) * 3 + j / 3) + (i % 3) * 3 + j % 3] as usize;
            assert!((1..=9).contains(&r), "cell out of range");
            assert!(!row_seen[r], "duplicate in a row");
            assert!(!col_seen[c], "duplicate in a column");
            assert!(!box_seen[b], "duplicate in a box");
            row_seen[r] = true;
            col_seen[c] = true;
            box_seen[b] = true;
        }
    }
}

const CLASSIC: [&str; 9] = [
    "530070000",
    "600195000",
    "098000060",
    "800060003",
    "400803001",
    "700020006",
    "060000280",
    "000419005",
    "000080079",
];

const CLASSIC_SOLUTION: [&str; 9] = [
    "534678912",
    "672195348",
    "198342567",
    "859761423",
    "426853791",
    "713924856",
    "961537284",
    "287419635",
    "345286179",
];

#[test]
fn classic_puzzle_solves_to_the_unique_solution() {
    let mut sudoku = Sudoku::new(grid_from(CLASSIC));
    assert!(sudoku.solve().is_ok());
    let solved = sudoku.current_grid().to_cells();
    for j in 0..9 {
        let first_row = [5u8, 3, 4, 6, 7, 8, 9, 1, 2];
        assert_eq!(solved[j], first_row[j]);
    }
    assert_eq!(solved, cells_from(CLASSIC_SOLUTION));
}

#[test]
fn solving_keeps_every_clue() {
    let clues = cells_from(CLASSIC);
    let mut sudoku = Sudoku::new(grid_from(CLASSIC));
    assert!(sudoku.solve().is_ok());
    let solved = sudoku.current_grid().to_cells();
    for c in 0..81 {
        if clues[c] != 0 {
            assert_eq!(solved[c], clues[c]);
        }
    }
}

#[test]
fn empty_puzzle_solves_to_a_completed_sudoku() {
    let mut sudoku = Sudoku::new(Grid::from_cells(vec![0u8; 81]).unwrap());
    assert!(sudoku.solve().is_ok());
    assert_completed_sudoku(&sudoku.current_grid().to_cells());
}

#[test]
fn empty_input_rows_sum_to_forty_five() {
    let lines: Vec<String> = (0..9).map(|_| "000000000".to_string()).collect();
    let grid = parse_grid(&lines).expect("nine full lines must parse");
    let mut sudoku = Sudoku::new(grid);
    assert!(sudoku.solve().is_ok());
    let solved = sudoku.current_grid().to_cells();
    for i in 0..9 {
        let sum: u32 = (0..9).map(|j| solved[9 * i + j] as u32).sum();
        assert_eq!(sum, 45);
    }
}

#[test]
fn duplicate_clue_in_a_row_is_unsatisfiable() {
    let mut sudoku = Sudoku::new(grid_from([
        "550000000",
        "000000000",
        "000000000",
        "000000000",
        "000000000",
        "000000000",
        "000000000",
        "000000000",
        "000000000",
    ]));
    assert_eq!(sudoku.solve(), Err(SolveError::Unsatisfiable));
}

#[test]
fn duplicate_clue_in_a_column_is_unsatisfiable() {
    let mut sudoku = Sudoku::new(grid_from([
        "700000000",
        "000000000",
        "000000000",
        "700000000",
        "000000000",
        "000000000",
        "000000000",
        "000000000",
        "000000000",
    ]));
    assert_eq!(sudoku.solve(), Err(SolveError::Unsatisfiable));
}

#[test]
fn duplicate_clue_in_a_box_is_unsatisfiable() {
    let mut sudoku = Sudoku::new(grid_from([
        "300000000",
        "030000000",
        "000000000",
        "000000000",
        "000000000",
        "000000000",
        "000000000",
        "000000000",
        "000000000",
    ]));
    assert_eq!(sudoku.solve(), Err(SolveError::Unsatisfiable));
}

#[test]
fn solved_grid_round_trips_through_a_fresh_solve() {
    let mut first = Sudoku::new(grid_from(CLASSIC));
    assert!(first.solve().is_ok());
    let solved = first.current_grid().to_cells();

    let again = Grid::from_cells(solved.clone()).expect("a solution is a well-formed grid");
    let mut second = Sudoku::new(again);
    assert!(second.solve().is_ok());
    assert_eq!(second.current_grid().to_cells(), solved);
}

fn assignment_of(rows: [&str; 9]) -> Vec<bool> {
    let cells = cells_from(rows);
    let mut m = vec![false; 729];
    for i in 0..9 {
        for j in 0..9 {
            let d = cells[9 * i + j];
            assert!(d != 0);
            m[81 * i + 9 * j + (d as usize - 1)] = true;
        }
    }
    m
}

#[test]
fn decoding_twice_gives_the_same_grid() {
    let m = assignment_of(CLASSIC_SOLUTION);
    let blank = Grid::from_cells(vec![0u8; 81]).unwrap();
    let once = decode_assignment(&blank, &m).expect("a clean assignment must decode");
    let twice = decode_assignment(&once, &m).expect("decoding must be repeatable");
    assert_eq!(once.to_cells(), cells_from(CLASSIC_SOLUTION));
    assert_eq!(twice.to_cells(), once.to_cells());
}

#[test]
fn decoding_against_clues_keeps_them() {
    let m = assignment_of(CLASSIC_SOLUTION);
    let clues = grid_from(CLASSIC);
    let decoded = decode_assignment(&clues, &m).expect("the solution matches the clues");
    assert_eq!(decoded.to_cells(), cells_from(CLASSIC_SOLUTION));
}

#[test]
fn decoding_a_contradicting_assignment_fails() {
    let m = assignment_of(CLASSIC_SOLUTION);
    let mut clue_cells = vec![0u8; 81];
    clue_cells[0] = 9; // the assignment puts a 5 in the first cell
    let clues = Grid::from_cells(clue_cells).unwrap();
    assert!(decode_assignment(&clues, &m).is_none());
}

#[test]
fn decoding_without_true_variables_keeps_the_grid() {
    let m = vec![false; 729];
    let clues = grid_from(CLASSIC);
    let decoded = decode_assignment(&clues, &m).expect("nothing to write, nothing to clash");
    assert_eq!(decoded.to_cells(), cells_from(CLASSIC));
}

#[test]
fn decoding_two_digits_for_one_cell_fails() {
    let mut m = vec![false; 729];
    m[0] = true; // cell (0, 0) holds 1
    m[4] = true; // and also 5: an inconsistency
    let blank = Grid::from_cells(vec![0u8; 81]).unwrap();
    assert!(decode_assignment(&blank, &m).is_none());
}


#[test]
fn check_completed_accepts_the_classic_solution() {
    let grid = grid_from(CLASSIC_SOLUTION);
    assert!(check_completed(&grid));
}

#[test]
fn check_completed_rejects_an_empty_cell() {
    let grid = grid_from(CLASSIC);
    assert!(!check_completed(&grid));
}

#[test]
fn check_completed_rejects_a_duplicate() {
    let mut cells = cells_from(CLASSIC_SOLUTION);
    cells[1] = cells[0]; // two equal digits in the first row
    let grid = Grid::from_cells(cells).unwrap();
    assert!(!check_completed(&grid));
}

#[test]
fn solving_always_yields_a_completed_grid() {
    let mut sudoku = Sudoku::new(grid_from(CLASSIC));
    assert!(sudoku.solve().is_ok());
    assert!(check_completed(sudoku.current_grid()));
}
