use sudoku_sat::grid::{parse_grid, Grid};

fn cells_from(rows: [&str; 9]) -> Vec<u8> {
    let mut cells = Vec::new();
    for row in rows.iter() {
        for c in row.chars() {
            if ('1'..='9').contains(&c) {
                cells.push(c as u8 - b'0');
            } else {
                cells.push(0);
            }
        }
    }
    cells
}

fn string_lines(rows: &[&str]) -> Vec<String> {
    rows.iter().map(|r| r.to_string()).collect()
}

#[test]
fn parse_reads_digits_positionally() {
    let lines = string_lines(&[
        "530070000",
        "600195000",
        "098000060",
        "800060003",
        "400803001",
        "700020006",
        "060000280",
        "000419005",
        "000080079",
    ]);
    let grid = parse_grid(&lines).expect("a well-formed input must parse");
    assert_eq!(grid.get(0, 0), 5);
    assert_eq!(grid.get(0, 1), 3);
    assert_eq!(grid.get(0, 2), 0);
    assert_eq!(grid.get(1, 3), 1);
    assert_eq!(grid.get(8, 8), 9);
}

#[test]
fn parse_treats_non_digits_as_empty() {
    let lines = string_lines(&[
        "5.3.7...0",
        ".........",
        "000000000",
        " 1 2 3 4 ",
        "abcdefghi",
        "123456789",
        ".........",
        ".........",
        ".........",
    ]);
    let grid = parse_grid(&lines).expect("a well-formed input must parse");
    assert_eq!(grid.get(0, 0), 5);
    assert_eq!(grid.get(0, 1), 0);
    assert_eq!(grid.get(0, 2), 3);
    assert_eq!(grid.get(0, 8), 0);
    assert_eq!(grid.get(3, 1), 1);
    assert_eq!(grid.get(4, 4), 0);
    for j in 0..9 {
        assert_eq!(grid.get(5, j), (j + 1) as u8);
    }
}

#[test]
fn parse_ignores_characters_past_the_ninth() {
    let lines = string_lines(&[
        "123456789XXXX",
        "000000000",
        "000000000",
        "000000000",
        "000000000",
        "000000000",
        "000000000",
        "000000000",
        "000000000",
    ]);
    let grid = parse_grid(&lines).expect("a well-formed input must parse");
    for j in 0..9 {
        assert_eq!(grid.get(0, j), (j + 1) as u8);
    }
}

#[test]
fn parse_rejects_fewer_than_nine_lines() {
    let lines = string_lines(&[
        "000000000",
        "000000000",
        "000000000",
        "000000000",
        "000000000",
        "000000000",
        "000000000",
        "000000000",
    ]);
    assert!(parse_grid(&lines).is_none());
}

#[test]
fn parse_rejects_a_short_line() {
    let lines = string_lines(&[
        "000000000",
        "000000000",
        "000000000",
        "000000000",
        "12345678",
        "000000000",
        "000000000",
        "000000000",
        "000000000",
    ]);
    assert!(parse_grid(&lines).is_none());
}

#[test]
fn parse_accepts_a_tenth_line() {
    let lines = string_lines(&[
        "000000000",
        "000000000",
        "000000000",
        "000000000",
        "000000000",
        "000000000",
        "000000000",
        "000000000",
        "000000000",
        "garbage",
    ]);
    assert!(parse_grid(&lines).is_some());
}

#[test]
fn from_cells_rejects_wrong_length() {
    assert!(Grid::from_cells(vec![0u8; 80]).is_none());
    assert!(Grid::from_cells(vec![0u8; 82]).is_none());
    assert!(Grid::from_cells(vec![0u8; 81]).is_some());
}

#[test]
fn from_cells_rejects_a_value_over_nine() {
    let mut cells = vec![0u8; 81];
    cells[40] = 10;
    assert!(Grid::from_cells(cells).is_none());
}

#[test]
fn to_cells_round_trips() {
    let cells = cells_from([
        "530070000",
        "600195000",
        "098000060",
        "800060003",
        "400803001",
        "700020006",
        "060000280",
        "000419005",
        "000080079",
    ]);
    let grid = Grid::from_cells(cells.clone()).unwrap();
    assert_eq!(grid.to_cells(), cells);
}

#[test]
fn render_draws_the_bordered_box() {
    let cells = cells_from([
        "530070000",
        "600195000",
        "098000060",
        "800060003",
        "400803001",
        "700020006",
        "060000280",
        "000419005",
        "000080079",
    ]);
    let grid = Grid::from_cells(cells).unwrap();
    let expected = "+-------+-------+-------+\n| 5 3 _ | _ 7 _ | _ _ _ |\n| 6 _ _ | 1 9 5 | _ _ _ |\n| _ 9 8 | _ _ _ | _ 6 _ |\n+-------+-------+-------+\n| 8 _ _ | _ 6 _ | _ _ 3 |\n| 4 _ _ | 8 _ 3 | _ _ 1 |\n| 7 _ _ | _ 2 _ | _ _ 6 |\n+-------+-------+-------+\n| _ 6 _ | _ _ _ | 2 8 _ |\n| _ _ _ | 4 1 9 | _ _ 5 |\n| _ _ _ | _ 8 _ | _ 7 9 |\n+-------+-------+-------+\n";
    assert_eq!(grid.render(), expected);
}


#[test]
fn parse_strips_a_trailing_newline() {
    let lines: Vec<String> = vec![
        "530070000\n".to_string(),
        "600195000\n".to_string(),
        "098000060\n".to_string(),
        "800060003\n".to_string(),
        "400803001\n".to_string(),
        "700020006\n".to_string(),
        "060000280\n".to_string(),
        "000419005\n".to_string(),
        "000080079\n".to_string(),
    ];
    let grid = parse_grid(&lines).expect("terminators must not hinder parsing");
    assert_eq!(grid.get(0, 0), 5);
    assert_eq!(grid.get(0, 8), 0);
    assert_eq!(grid.get(8, 8), 9);
}

#[test]
fn parse_strips_a_trailing_carriage_return_newline() {
    let lines: Vec<String> = vec![
        "123456789\r\n".to_string(),
        "000000000\r\n".to_string(),
        "000000000\r\n".to_string(),
        "000000000\r\n".to_string(),
        "000000000\r\n".to_string(),
        "000000000\r\n".to_string(),
        "000000000\r\n".to_string(),
        "000000000\r\n".to_string(),
        "000000000\r\n".to_string(),
    ];
    let grid = parse_grid(&lines).expect("terminators must not hinder parsing");
    for j in 0..9 {
        assert_eq!(grid.get(0, j), (j + 1) as u8);
    }
}

#[test]
fn parse_rejects_eight_digits_and_a_newline() {
    let lines: Vec<String> = (0..9).map(|_| "12345678\n".to_string()).collect();
    assert!(parse_grid(&lines).is_none());
}

#[test]
fn parse_rejects_a_short_line_despite_its_terminator() {
    let mut lines: Vec<String> = (0..9).map(|_| "000000000\n".to_string()).collect();
    lines[4] = "00000000\r\n".to_string();
    assert!(parse_grid(&lines).is_none());
}
