//! The 9x9 digit grid and its text interface.

use vstd::prelude::*;
use vstd::string::{StrSliceExecFns, StringExecFns};

verus! {

/// A 9x9 Sudoku grid, stored row-major as 81 cells.
/// A cell holds a digit 1..=9, or 0 for "empty/unknown".
pub struct Grid {
    cells: Vec<u8>,
}

/// Well-formedness of a grid's contents: 81 cells, each in 0..=9.
pub open spec fn grid_wf(g: Seq<u8>) -> bool {
    &&& g.len() == 81
    &&& forall|c: int| 0 <= c < 81 ==> #[trigger] g[c] <= 9
}

impl View for Grid {
    type V = Seq<u8>;

    closed spec fn view(&self) -> Seq<u8> {
        self.cells@
    }
}

/// The digit denoted by one input character: '1'..='9' map to 1..=9,
/// every other character means an empty cell.
pub open spec fn digit_of(c: char) -> u8 {
    if 49 <= c as int && c as int <= 57 {
        (c as int - 48) as u8
    } else {
        0
    }
}

/// A line without its terminator: one trailing line feed is stripped, and
/// then one trailing carriage return, so that the terminator never counts
/// as a character of the line.
pub open spec fn line_content(s: Seq<char>) -> Seq<char> {
    let t = if s.len() > 0 && s.last() == '\n' {
        s.drop_last()
    } else {
        s
    };
    if t.len() > 0 && t.last() == '\r' {
        t.drop_last()
    } else {
        t
    }
}

/// A usable input: at least 9 lines, each of the first 9 lines at least
/// 9 characters long, its terminator not counted.
pub open spec fn lines_ok(ls: Seq<String>) -> bool {
    &&& ls.len() >= 9
    &&& forall|i: int| 0 <= i < 9 ==> line_content((#[trigger] ls[i])@).len() >= 9
}

/// The grid read from the first 9 characters of each of the first 9 lines.
pub open spec fn parsed_grid(ls: Seq<String>) -> Seq<u8> {
    Seq::new(81, |c: int| digit_of(line_content(ls[c / 9]@)[c % 9]))
}

impl Grid {
    /// Contents are well formed (81 cells, each in 0..=9).
    pub open spec fn wf(&self) -> bool {
        grid_wf(self@)
    }

    /// Builds a grid from raw cells; rejects anything but 81 values in 0..=9.
    pub fn from_cells(cells: Vec<u8>) -> (r: Option<Grid>)
        ensures
            match r {
                Some(g) => g@ == cells@ && g.wf(),
                None => !grid_wf(cells@),
            },
    {
        if cells.len() != 81 {
            return None;
        }
        for c in 0..81
            invariant
                cells@.len() == 81,
                forall|t: int| 0 <= t < c ==> #[trigger] cells@[t] <= 9,
        {
            if cells[c] > 9 {
                return None;
            }
        }
        Some(Grid { cells })
    }

    /// Wraps already validated cells without re-checking them.
    pub(crate) fn from_cells_unchecked(cells: Vec<u8>) -> (g: Grid)
        requires
            grid_wf(cells@),
        ensures
            g@ == cells@,
            g.wf(),
    {
        Grid { cells }
    }

    /// The digit at the given row and column.
    pub fn get(&self, row: usize, col: usize) -> (v: u8)
        requires
            self.wf(),
            row < 9,
            col < 9,
        ensures
            v == self@[row as int * 9 + col as int],
    {
        self.cells[row * 9 + col]
    }

    /// A fresh copy of the 81 cells, row-major.
    pub fn to_cells(&self) -> (r: Vec<u8>)
        requires
            self.wf(),
        ensures
            r@ == self@,
    {
        let mut out: Vec<u8> = Vec::new();
        for c in 0..81
            invariant
                self.wf(),
                out@.len() == c,
                forall|t: int| 0 <= t < c ==> #[trigger] out@[t] == self@[t],
        {
            out.push(self.cells[c]);
        }
        proof {
            assert(out@ =~= self@);
        }
        out
    }
}

/// Reads a grid from input lines: the first 9 characters of each of the
/// first 9 lines, positionally; '1'..='9' are digits, anything else is an
/// empty cell. A line's terminator (a trailing newline, with or without a
/// carriage return) is not one of its characters. Returns no grid at all
/// if fewer than 9 lines arrive or any of them is shorter than 9
/// characters.
pub fn parse_grid(lines: &Vec<String>) -> (r: Option<Grid>)
    ensures
        match r {
            Some(g) => lines_ok(lines@) && g@ == parsed_grid(lines@) && g.wf(),
            None => !lines_ok(lines@),
        },
{
    if lines.len() < 9 {
        return None;
    }
    let mut cells: Vec<u8> = Vec::new();
    for i in 0..9
        invariant
            lines@.len() >= 9,
            cells@.len() == 9 * i,
            forall|t: int| 0 <= t < 9 * i ==> #[trigger] cells@[t] == digit_of(
                line_content(lines@[t / 9]@)[t % 9],
            ),
            forall|t: int| 0 <= t < i ==> line_content((#[trigger] lines@[t])@).len() >= 9,
    {
        let line = lines[i].as_str();
        let mut n = line.unicode_len();
        if n > 0 && line.get_char(n - 1) == '\n' {
            n = n - 1;
        }
        if n > 0 && line.get_char(n - 1) == '\r' {
            n = n - 1;
        }
        proof {
            assert(n == line_content(line@).len());
            assert(forall|t: int| 0 <= t < n ==> line_content(line@)[t] == line@[t]);
        }
        if n < 9 {
            return None;
        }
        for j in 0..9
            invariant
                lines@.len() >= 9,
                i < 9,
                line@ == lines@[i as int]@,
                n as int <= line@.len(),
                n as int == line_content(line@).len(),
                line_content(line@).len() >= 9,
                forall|t: int| 0 <= t < n ==> line_content(line@)[t] == line@[t],
                cells@.len() == 9 * i + j,
                forall|t: int| 0 <= t < 9 * i + j ==> #[trigger] cells@[t] == digit_of(
                    line_content(lines@[t / 9]@)[t % 9],
                ),
        {
            let c = line.get_char(j);
            let u = c as u32;
            let d: u8 = if 49 <= u && u <= 57 {
                (u - 48) as u8
            } else {
                0
            };
            proof {
                assert(d == digit_of(c));
                assert(c == line_content(line@)[j as int]);
                assert((9 * i + j) / 9 == i as int && (9 * i + j) % 9 == j as int) by (nonlinear_arith)
                    requires i < 9 && j < 9;
            }
            cells.push(d);
        }
    }
    proof {
        assert(cells@ =~= parsed_grid(lines@));
    }
    Some(Grid { cells })
}

/// The two characters rendering one cell: a space, then the digit, with
/// '_' for an empty cell.
pub open spec fn cell_text(d: u8) -> Seq<char> {
    if d == 1 {
        " 1"@
    } else if d == 2 {
        " 2"@
    } else if d == 3 {
        " 3"@
    } else if d == 4 {
        " 4"@
    } else if d == 5 {
        " 5"@
    } else if d == 6 {
        " 6"@
    } else if d == 7 {
        " 7"@
    } else if d == 8 {
        " 8"@
    } else if d == 9 {
        " 9"@
    } else {
        " _"@
    }
}

/// The border line drawn above the grid and after every third row.
pub open spec fn border_text() -> Seq<char> {
    "+-------+-------+-------+\n"@
}

/// The first j cells of row i, with a box bar after every third cell.
pub open spec fn row_cells_text(g: Seq<u8>, i: int, j: int) -> Seq<char>
    decreases j,
{
    if j <= 0 {
        Seq::empty()
    } else {
        row_cells_text(g, i, j - 1) + cell_text(g[9 * i + j - 1]) + (if j == 3 || j == 6 || j == 9 {
            " |"@
        } else {
            Seq::empty()
        })
    }
}

/// The text of row i: its cells between a leading bar and a newline.
pub open spec fn row_text(g: Seq<u8>, i: int) -> Seq<char> {
    "|"@ + row_cells_text(g, i, 9) + "\n"@
}

/// The first i rows of the rendering, with a border after every third row.
pub open spec fn rows_text(g: Seq<u8>, i: int) -> Seq<char>
    decreases i,
{
    if i <= 0 {
        Seq::empty()
    } else {
        rows_text(g, i - 1) + row_text(g, i - 1) + (if i == 3 || i == 6 || i == 9 {
            border_text()
        } else {
            Seq::empty()
        })
    }
}

/// The whole fixed-width bordered rendering of a grid.
pub open spec fn rendered(g: Seq<u8>) -> Seq<char> {
    border_text() + rows_text(g, 9)
}

impl Grid {
    /// The bordered text of the grid, exactly as printed: a border line,
    /// then each row between bars, a bar after every third cell and a
    /// border line after every third row; an empty cell shows as '_'.
    pub fn render(&self) -> (r: String)
        requires
            self.wf(),
        ensures
            r@ == rendered(self@),
    {
        let ghost g = self@;
        let mut out = String::new();
        out.append("+-------+-------+-------+\n");
        for i in 0..9
            invariant
                self.wf(),
                g == self@,
                out@ == border_text() + rows_text(g, i as int),
        {
            let ghost ii = i as int;
            out.append("|");
            for j in 0..9
                invariant
                    self.wf(),
                    g == self@,
                    i < 9,
                    ii == i as int,
                    out@ == border_text() + rows_text(g, ii) + "|"@ + row_cells_text(
                        g,
                        ii,
                        j as int,
                    ),
            {
                let d = self.get(i, j);
                match d {
                    1 => out.append(" 1"),
                    2 => out.append(" 2"),
                    3 => out.append(" 3"),
                    4 => out.append(" 4"),
                    5 => out.append(" 5"),
                    6 => out.append(" 6"),
                    7 => out.append(" 7"),
                    8 => out.append(" 8"),
                    9 => out.append(" 9"),
                    _ => out.append(" _"),
                }
                if j == 2 || j == 5 || j == 8 {
                    out.append(" |");
                }
                proof {
                    assert(out@ =~= border_text() + rows_text(g, ii) + "|"@ + row_cells_text(
                        g,
                        ii,
                        j + 1,
                    ));
                }
            }
            out.append("\n");
            if i == 2 || i == 5 || i == 8 {
                out.append("+-------+-------+-------+\n");
            }
            proof {
                assert(out@ =~= border_text() + rows_text(g, ii + 1));
            }
        }
        out
    }
}

} // verus!
