//! Soundness of the encoding: an assignment that satisfies the Sudoku
//! clause set of a grid decodes without inconsistency, and the decoded
//! grid is a valid completed Sudoku — every cell holds a digit 1..=9 and
//! no row, column or 3x3 box repeats one.

use crate::decode::{decode_cell, decode_ok, decoded, lemma_decode_cell_shape, lone_true};
use crate::encode::{
    at_least_one, at_most_one, box_col, box_row, cell_clauses, clauses_upto, digits_upto,
    peer_clauses, peers_upto, sudoku_clauses, var_of,
};
use crate::grid::{grid_wf, Grid};
use vstd::prelude::*;

verus! {

/// A literal holds under assignment m: its variable is in range and has
/// the truth value the polarity asks for.
pub open spec fn lit_sat(m: Seq<bool>, l: (int, bool)) -> bool {
    &&& 0 <= l.0 < m.len()
    &&& m[l.0] != l.1
}

/// A clause holds: at least one of its literals does.
pub open spec fn clause_sat(m: Seq<bool>, cl: Seq<(int, bool)>) -> bool {
    exists|t: int| 0 <= t < cl.len() && lit_sat(m, #[trigger] cl[t])
}

/// Every clause of the set holds.
pub open spec fn all_sat(m: Seq<bool>, cls: Seq<Seq<(int, bool)>>) -> bool {
    forall|x: int| 0 <= x < cls.len() ==> clause_sat(m, #[trigger] cls[x])
}

/// A valid completed Sudoku: 81 cells, each holding a digit 1..=9, and no
/// row, column or 3x3 box holding a digit twice — with nine cells each,
/// every row, column and box is then a permutation of 1..=9.
pub open spec fn valid_completed(g: Seq<u8>) -> bool {
    &&& g.len() == 81
    &&& forall|c: int| 0 <= c < 81 ==> 1 <= #[trigger] g[c] <= 9
    &&& forall|i: int, j1: int, j2: int|
        0 <= i < 9 && 0 <= j1 < 9 && 0 <= j2 < 9 && j1 != j2 ==> #[trigger] g[9 * i + j1]
            != #[trigger] g[9 * i + j2]
    &&& forall|i1: int, i2: int, j: int|
        0 <= i1 < 9 && 0 <= i2 < 9 && 0 <= j < 9 && i1 != i2 ==> #[trigger] g[9 * i1 + j]
            != #[trigger] g[9 * i2 + j]
    &&& forall|i1: int, j1: int, i2: int, j2: int|
        0 <= i1 < 9 && 0 <= j1 < 9 && 0 <= i2 < 9 && 0 <= j2 < 9 && i1 / 3 == i2 / 3 && j1 / 3
            == j2 / 3 && (i1 != i2 || j1 != j2) ==> #[trigger] g[9 * i1 + j1] != #[trigger] g[9
            * i2 + j2]
}

proof fn lemma_sat_split(m: Seq<bool>, a: Seq<Seq<(int, bool)>>, b: Seq<Seq<(int, bool)>>)
    requires
        all_sat(m, a + b),
    ensures
        all_sat(m, a),
        all_sat(m, b),
{
    assert forall|x: int| 0 <= x < a.len() implies clause_sat(m, #[trigger] a[x]) by {
        assert((a + b)[x] == a[x]);
    }
    assert forall|x: int| 0 <= x < b.len() implies clause_sat(m, #[trigger] b[x]) by {
        assert((a + b)[a.len() + x] == b[x]);
    }
}

proof fn lemma_upto_cell_sat(g: Seq<u8>, m: Seq<bool>, c: int, c0: int)
    requires
        all_sat(m, clauses_upto(g, c)),
        0 <= c0 < c,
    ensures
        all_sat(m, cell_clauses(g, c0 / 9, c0 % 9)),
    decreases c,
{
    lemma_sat_split(m, clauses_upto(g, c - 1), cell_clauses(g, (c - 1) / 9, (c - 1) % 9));
    if c0 < c - 1 {
        lemma_upto_cell_sat(g, m, c - 1, c0);
    }
}

proof fn lemma_cell_parts(g: Seq<u8>, m: Seq<bool>, i: int, j: int)
    requires
        all_sat(m, sudoku_clauses(g)),
        0 <= i < 9,
        0 <= j < 9,
    ensures
        all_sat(m, digits_upto(i, j, 9)),
        clause_sat(m, at_least_one(i, j)),
        g[9 * i + j] != 0 ==> lit_sat(m, (var_of(i, j, g[9 * i + j] - 1), false)),
{
    assert((9 * i + j) / 9 == i && (9 * i + j) % 9 == j) by (nonlinear_arith)
        requires 0 <= i < 9 && 0 <= j < 9;
    lemma_upto_cell_sat(g, m, 81, 9 * i + j);
    let unit = if g[9 * i + j] != 0 {
        seq![seq![(var_of(i, j, g[9 * i + j] - 1), false)]]
    } else {
        Seq::<Seq<(int, bool)>>::empty()
    };
    lemma_sat_split(m, digits_upto(i, j, 9) + seq![at_least_one(i, j)], unit);
    lemma_sat_split(m, digits_upto(i, j, 9), seq![at_least_one(i, j)]);
    assert(seq![at_least_one(i, j)][0] == at_least_one(i, j));
    if g[9 * i + j] != 0 {
        let u = seq![(var_of(i, j, g[9 * i + j] - 1), false)];
        assert(unit[0] == u);
        assert(clause_sat(m, u));
        let t = choose|t: int| 0 <= t < u.len() && lit_sat(m, #[trigger] u[t]);
        assert(u[t] == (var_of(i, j, g[9 * i + j] - 1), false));
    }
}

proof fn lemma_digit_peers_sat(m: Seq<bool>, i: int, j: int, kmax: int, k: int)
    requires
        all_sat(m, digits_upto(i, j, kmax)),
        0 <= k < kmax,
    ensures
        all_sat(m, peers_upto(i, j, k, 9)),
    decreases kmax,
{
    lemma_sat_split(m, digits_upto(i, j, kmax - 1), peers_upto(i, j, kmax - 1, 9));
    if k < kmax - 1 {
        lemma_digit_peers_sat(m, i, j, kmax - 1, k);
    }
}

proof fn lemma_peer_sat(m: Seq<bool>, i: int, j: int, k: int, lmax: int, l: int)
    requires
        all_sat(m, peers_upto(i, j, k, lmax)),
        0 <= l < lmax,
    ensures
        all_sat(m, peer_clauses(i, j, k, l)),
    decreases lmax,
{
    lemma_sat_split(m, peers_upto(i, j, k, lmax - 1), peer_clauses(i, j, k, lmax - 1));
    if l < lmax - 1 {
        lemma_peer_sat(m, i, j, k, lmax - 1, l);
    }
}

proof fn lemma_amo_holds(m: Seq<bool>, a: int, b: int)
    requires
        clause_sat(m, at_most_one(a, b)),
        0 <= a < m.len(),
        0 <= b < m.len(),
    ensures
        !(m[a] && m[b]),
{
    let t = choose|t: int| 0 <= t < at_most_one(a, b).len() && lit_sat(
        m,
        #[trigger] at_most_one(a, b)[t],
    );
    assert(at_most_one(a, b)[0] == (a, true));
    assert(at_most_one(a, b)[1] == (b, true));
}

/// The pairwise exclusions, read off a satisfying assignment: no cell has
/// two digits, and no row, column or box peer shares one.
proof fn lemma_pair_excluded(g: Seq<u8>, m: Seq<bool>, i: int, j: int, k: int, l: int)
    requires
        all_sat(m, sudoku_clauses(g)),
        m.len() == 729,
        0 <= i < 9,
        0 <= j < 9,
        0 <= k < 9,
        0 <= l < 9,
    ensures
        k != l ==> !(m[var_of(i, j, k)] && m[var_of(i, j, l)]),
        j != l ==> !(m[var_of(i, j, k)] && m[var_of(i, l, k)]),
        i != l ==> !(m[var_of(i, j, k)] && m[var_of(l, j, k)]),
        i != box_row(i, l) || j != box_col(j, l) ==> !(m[var_of(i, j, k)] && m[var_of(
            box_row(i, l),
            box_col(j, l),
            k,
        )]),
{
    lemma_cell_parts(g, m, i, j);
    lemma_digit_peers_sat(m, i, j, 9, k);
    lemma_peer_sat(m, i, j, k, 9, l);
    let p1 = if k != l {
        seq![at_most_one(var_of(i, j, k), var_of(i, j, l))]
    } else {
        Seq::<Seq<(int, bool)>>::empty()
    };
    let p2 = if j != l {
        seq![at_most_one(var_of(i, j, k), var_of(i, l, k))]
    } else {
        Seq::<Seq<(int, bool)>>::empty()
    };
    let p3 = if i != l {
        seq![at_most_one(var_of(i, j, k), var_of(l, j, k))]
    } else {
        Seq::<Seq<(int, bool)>>::empty()
    };
    let p4 = if i != box_row(i, l) || j != box_col(j, l) {
        seq![at_most_one(var_of(i, j, k), var_of(box_row(i, l), box_col(j, l), k))]
    } else {
        Seq::<Seq<(int, bool)>>::empty()
    };
    lemma_sat_split(m, p1 + p2 + p3, p4);
    lemma_sat_split(m, p1 + p2, p3);
    lemma_sat_split(m, p1, p2);
    assert(0 <= box_row(i, l) < 9 && 0 <= box_col(j, l) < 9);
    if k != l {
        assert(p1[0] == at_most_one(var_of(i, j, k), var_of(i, j, l)));
        lemma_amo_holds(m, var_of(i, j, k), var_of(i, j, l));
    }
    if j != l {
        assert(p2[0] == at_most_one(var_of(i, j, k), var_of(i, l, k)));
        lemma_amo_holds(m, var_of(i, j, k), var_of(i, l, k));
    }
    if i != l {
        assert(p3[0] == at_most_one(var_of(i, j, k), var_of(l, j, k)));
        lemma_amo_holds(m, var_of(i, j, k), var_of(l, j, k));
    }
    if i != box_row(i, l) || j != box_col(j, l) {
        assert(p4[0] == at_most_one(var_of(i, j, k), var_of(box_row(i, l), box_col(j, l), k)));
        lemma_amo_holds(m, var_of(i, j, k), var_of(box_row(i, l), box_col(j, l), k));
    }
}

/// Under a satisfying assignment one cell has exactly one true digit, the
/// cell decodes to it, and a non-zero clue is that digit.
proof fn lemma_cell_value(g: Seq<u8>, m: Seq<bool>, i: int, j: int)
    requires
        grid_wf(g),
        m.len() == 729,
        all_sat(m, sudoku_clauses(g)),
        0 <= i < 9,
        0 <= j < 9,
    ensures
        decode_cell(g[9 * i + j], m, i, j, 9) is Some,
        ({
            let d = decode_cell(g[9 * i + j], m, i, j, 9).unwrap();
            &&& 1 <= d <= 9
            &&& m[var_of(i, j, d - 1)]
            &&& (g[9 * i + j] != 0 ==> d == g[9 * i + j])
        }),
{
    lemma_cell_parts(g, m, i, j);
    let t0 = choose|t: int| 0 <= t < at_least_one(i, j).len() && lit_sat(
        m,
        #[trigger] at_least_one(i, j)[t],
    );
    assert(at_least_one(i, j)[t0] == (var_of(i, j, t0), false));
    assert(m[var_of(i, j, t0)]);
    assert forall|l: int| 0 <= l < 9 && l != t0 implies !m[#[trigger] var_of(i, j, l)] by {
        if m[var_of(i, j, l)] {
            lemma_pair_excluded(g, m, i, j, t0, l);
        }
    }
    assert(lone_true(m, i, j, 9, t0));
    let v = g[9 * i + j];
    lemma_decode_cell_shape(v, m, i, j, 9);
    if v != 0 {
        assert(m[var_of(i, j, v - 1)]);
        assert(v - 1 == t0);
    }
    assert(decode_cell(v, m, i, j, 9) == Some((t0 + 1) as u8));
}

/// Soundness of the encoding: a total assignment that satisfies the whole
/// Sudoku clause set of a well-formed grid decodes without inconsistency,
/// and the decoded grid is a valid completed Sudoku.
pub proof fn lemma_encoding_sound(g: Seq<u8>, m: Seq<bool>)
    requires
        grid_wf(g),
        m.len() == 729,
        all_sat(m, sudoku_clauses(g)),
    ensures
        decode_ok(g, m),
        valid_completed(decoded(g, m)),
{
    let d = decoded(g, m);
    assert forall|c: int| 0 <= c < 81 implies (#[trigger] decode_cell(g[c], m, c / 9, c % 9, 9))
        is Some by {
        lemma_cell_value(g, m, c / 9, c % 9);
        assert(9 * (c / 9) + c % 9 == c);
    }
    assert forall|c: int| 0 <= c < 81 implies 1 <= #[trigger] d[c] <= 9 by {
        lemma_cell_value(g, m, c / 9, c % 9);
        assert(9 * (c / 9) + c % 9 == c);
    }
    // each decoded cell's digit variable is true
    assert forall|i: int, j: int| 0 <= i < 9 && 0 <= j < 9 implies m[var_of(
        i,
        j,
        #[trigger] d[9 * i + j] - 1,
    )] by {
        lemma_cell_value(g, m, i, j);
        assert((9 * i + j) / 9 == i && (9 * i + j) % 9 == j) by (nonlinear_arith)
            requires 0 <= i < 9 && 0 <= j < 9;
    }
    assert forall|i: int, j1: int, j2: int|
        0 <= i < 9 && 0 <= j1 < 9 && 0 <= j2 < 9 && j1 != j2 implies #[trigger] d[9 * i + j1]
        != #[trigger] d[9 * i + j2] by {
        if d[9 * i + j1] == d[9 * i + j2] {
            let k = d[9 * i + j1] - 1;
            lemma_pair_excluded(g, m, i, j1, k, j2);
            assert(m[var_of(i, j1, k)] && m[var_of(i, j2, k)]);
        }
    }
    assert forall|i1: int, i2: int, j: int|
        0 <= i1 < 9 && 0 <= i2 < 9 && 0 <= j < 9 && i1 != i2 implies #[trigger] d[9 * i1 + j]
        != #[trigger] d[9 * i2 + j] by {
        if d[9 * i1 + j] == d[9 * i2 + j] {
            let k = d[9 * i1 + j] - 1;
            lemma_pair_excluded(g, m, i1, j, k, i2);
            assert(m[var_of(i1, j, k)] && m[var_of(i2, j, k)]);
        }
    }
    assert forall|i1: int, j1: int, i2: int, j2: int|
        0 <= i1 < 9 && 0 <= j1 < 9 && 0 <= i2 < 9 && 0 <= j2 < 9 && i1 / 3 == i2 / 3 && j1 / 3
            == j2 / 3 && (i1 != i2 || j1 != j2) implies #[trigger] d[9 * i1 + j1] != #[trigger] d[9
        * i2 + j2] by {
        if d[9 * i1 + j1] == d[9 * i2 + j2] {
            let k = d[9 * i1 + j1] - 1;
            let l = (i2 % 3) * 3 + j2 % 3;
            assert(0 <= l < 9) by (nonlinear_arith)
                requires 0 <= i2 < 9 && 0 <= j2 < 9 && l == (i2 % 3) * 3 + j2 % 3;
            assert(box_row(i1, l) == i2 && box_col(j1, l) == j2) by (nonlinear_arith)
                requires
                    0 <= i1 < 9 && 0 <= j1 < 9 && 0 <= i2 < 9 && 0 <= j2 < 9 && i1 / 3 == i2 / 3
                        && j1 / 3 == j2 / 3 && l == (i2 % 3) * 3 + j2 % 3;
            lemma_pair_excluded(g, m, i1, j1, k, l);
            assert(m[var_of(i1, j1, k)] && m[var_of(i2, j2, k)]);
        }
    }
}


/// One ordered pair of cells respects the Sudoku rules: cells of the same
/// row, the same column or the same 3x3 box (and distinct) hold different
/// digits.
pub open spec fn cells_distinct(g: Seq<u8>, i1: int, j1: int, i2: int, j2: int) -> bool {
    &&& (i1 == i2 && j1 != j2 ==> g[9 * i1 + j1] != g[9 * i2 + j2])
    &&& (j1 == j2 && i1 != i2 ==> g[9 * i1 + j1] != g[9 * i2 + j2])
    &&& (i1 / 3 == i2 / 3 && j1 / 3 == j2 / 3 && (i1 != i2 || j1 != j2) ==> g[9 * i1 + j1] != g[
        9 * i2 + j2
    ])
}

/// The defensive re-check of a decoded grid: no empty cell is left, and no
/// row, column or 3x3 box repeats a digit. True exactly of valid completed
/// Sudokus, whatever produced the grid.
pub fn check_completed(grid: &Grid) -> (r: bool)
    requires
        grid.wf(),
    ensures
        r == valid_completed(grid@),
{
    let ghost g = grid@;
    for i in 0..9
        invariant
            grid.wf(),
            g == grid@,
            forall|c: int| 0 <= c < 9 * (i as int) ==> #[trigger] g[c] != 0,
    {
        for j in 0..9
            invariant
                grid.wf(),
                g == grid@,
                i < 9,
                forall|c: int| 0 <= c < 9 * (i as int) + (j as int) ==> #[trigger] g[c] != 0,
        {
            if grid.get(i, j) == 0 {
                proof {
                    assert(g[9 * (i as int) + (j as int)] == 0);
                }
                return false;
            }
        }
    }
    for i1 in 0..9
        invariant
            grid.wf(),
            g == grid@,
            forall|c: int| 0 <= c < 81 ==> #[trigger] g[c] != 0,
            forall|x1: int, y1: int, x2: int, y2: int|
                0 <= x1 < i1 && 0 <= y1 < 9 && 0 <= x2 < 9 && 0 <= y2 < 9
                    ==> #[trigger] cells_distinct(g, x1, y1, x2, y2),
    {
        for j1 in 0..9
            invariant
                grid.wf(),
                g == grid@,
                i1 < 9,
                forall|c: int| 0 <= c < 81 ==> #[trigger] g[c] != 0,
                forall|x1: int, y1: int, x2: int, y2: int|
                    0 <= x1 < i1 && 0 <= y1 < 9 && 0 <= x2 < 9 && 0 <= y2 < 9
                        ==> #[trigger] cells_distinct(g, x1, y1, x2, y2),
                forall|y1: int, x2: int, y2: int|
                    0 <= y1 < j1 && 0 <= x2 < 9 && 0 <= y2 < 9 ==> #[trigger] cells_distinct(
                        g,
                        i1 as int,
                        y1,
                        x2,
                        y2,
                    ),
        {
            for i2 in 0..9
                invariant
                    grid.wf(),
                    g == grid@,
                    i1 < 9,
                    j1 < 9,
                    forall|c: int| 0 <= c < 81 ==> #[trigger] g[c] != 0,
                    forall|x2: int, y2: int|
                        0 <= x2 < i2 && 0 <= y2 < 9 ==> #[trigger] cells_distinct(
                            g,
                            i1 as int,
                            j1 as int,
                            x2,
                            y2,
                        ),
            {
                for j2 in 0..9
                    invariant
                        grid.wf(),
                        g == grid@,
                        i1 < 9,
                        j1 < 9,
                        i2 < 9,
                        forall|c: int| 0 <= c < 81 ==> #[trigger] g[c] != 0,
                        forall|y2: int|
                            0 <= y2 < j2 ==> #[trigger] cells_distinct(
                                g,
                                i1 as int,
                                j1 as int,
                                i2 as int,
                                y2,
                            ),
                {
                    let a = grid.get(i1, j1);
                    let b = grid.get(i2, j2);
                    let same_row = i1 == i2 && j1 != j2;
                    let same_col = j1 == j2 && i1 != i2;
                    let same_box = i1 / 3 == i2 / 3 && j1 / 3 == j2 / 3 && (i1 != i2 || j1 != j2);
                    if (same_row || same_col || same_box) && a == b {
                        proof {
                            let ii1 = i1 as int;
                            let jj1 = j1 as int;
                            let ii2 = i2 as int;
                            let jj2 = j2 as int;
                            if same_row {
                                assert(g[9 * ii1 + jj1] == g[9 * ii1 + jj2]);
                            } else if same_col {
                                assert(g[9 * ii1 + jj1] == g[9 * ii2 + jj1]);
                            } else {
                                assert(ii1 / 3 == ii2 / 3 && jj1 / 3 == jj2 / 3);
                                assert(g[9 * ii1 + jj1] == g[9 * ii2 + jj2]);
                            }
                        }
                        return false;
                    }
                    proof {
                        assert(cells_distinct(g, i1 as int, j1 as int, i2 as int, j2 as int));
                    }
                }
            }
        }
    }
    proof {
        assert forall|i: int, j1: int, j2: int|
            0 <= i < 9 && 0 <= j1 < 9 && 0 <= j2 < 9 && j1 != j2 implies #[trigger] g[9 * i + j1]
            != #[trigger] g[9 * i + j2] by {
            assert(cells_distinct(g, i, j1, i, j2));
        }
        assert forall|i1: int, i2: int, j: int|
            0 <= i1 < 9 && 0 <= i2 < 9 && 0 <= j < 9 && i1 != i2 implies #[trigger] g[9 * i1 + j]
            != #[trigger] g[9 * i2 + j] by {
            assert(cells_distinct(g, i1, j, i2, j));
        }
        assert forall|i1: int, j1: int, i2: int, j2: int|
            0 <= i1 < 9 && 0 <= j1 < 9 && 0 <= i2 < 9 && 0 <= j2 < 9 && i1 / 3 == i2 / 3 && j1 / 3
                == j2 / 3 && (i1 != i2 || j1 != j2) implies #[trigger] g[9 * i1 + j1]
            != #[trigger] g[9 * i2 + j2] by {
            assert(cells_distinct(g, i1, j1, i2, j2));
        }
    }
    true
}


/// The assignment a completed grid induces: the variable of a (row,
/// column, digit) triple is true exactly when that cell holds that digit.
pub open spec fn assignment_of(g: Seq<u8>) -> Seq<bool> {
    Seq::new(729, |v: int| g[9 * (v / 81) + (v % 81) / 9] == v % 9 + 1)
}

proof fn lemma_assignment_at(g: Seq<u8>, i: int, j: int, k: int)
    requires
        g.len() == 81,
        0 <= i < 9,
        0 <= j < 9,
        0 <= k < 9,
    ensures
        assignment_of(g)[var_of(i, j, k)] == (g[9 * i + j] == k + 1),
{
    let v = var_of(i, j, k);
    assert(v / 81 == i && (v % 81) / 9 == j && v % 9 == k) by (nonlinear_arith)
        requires 0 <= i < 9 && 0 <= j < 9 && 0 <= k < 9 && v == 81 * i + 9 * j + k;
}

proof fn lemma_sat_join(m: Seq<bool>, a: Seq<Seq<(int, bool)>>, b: Seq<Seq<(int, bool)>>)
    requires
        all_sat(m, a),
        all_sat(m, b),
    ensures
        all_sat(m, a + b),
{
    assert forall|x: int| 0 <= x < (a + b).len() implies clause_sat(m, #[trigger] (a + b)[x]) by {
        if x < a.len() {
            assert((a + b)[x] == a[x]);
        } else {
            assert((a + b)[x] == b[x - a.len()]);
        }
    }
}

proof fn lemma_sat_single(m: Seq<bool>, cl: Seq<(int, bool)>)
    requires
        clause_sat(m, cl),
    ensures
        all_sat(m, seq![cl]),
{
    assert forall|x: int| 0 <= x < 1 implies clause_sat(m, #[trigger] seq![cl][x]) by {
        assert(seq![cl][x] == cl);
    }
}

proof fn lemma_amo_sat(m: Seq<bool>, a: int, b: int)
    requires
        0 <= a < m.len(),
        0 <= b < m.len(),
        !m[a] || !m[b],
    ensures
        clause_sat(m, at_most_one(a, b)),
{
    if !m[a] {
        assert(lit_sat(m, at_most_one(a, b)[0]));
    } else {
        assert(lit_sat(m, at_most_one(a, b)[1]));
    }
}

proof fn lemma_peer_clauses_hold(g: Seq<u8>, i: int, j: int, k: int, l: int)
    requires
        valid_completed(g),
        0 <= i < 9,
        0 <= j < 9,
        0 <= k < 9,
        0 <= l < 9,
    ensures
        all_sat(assignment_of(g), peer_clauses(i, j, k, l)),
{
    let m = assignment_of(g);
    let bi = box_row(i, l);
    let bj = box_col(j, l);
    assert(0 <= bi < 9 && 0 <= bj < 9);
    assert(bi / 3 == i / 3 && bj / 3 == j / 3) by (nonlinear_arith)
        requires 0 <= i < 9 && 0 <= j < 9 && 0 <= l < 9 && bi == (i / 3) * 3 + l / 3 && bj == (j
            / 3) * 3 + l % 3;
    lemma_assignment_at(g, i, j, k);
    lemma_assignment_at(g, i, j, l);
    lemma_assignment_at(g, i, l, k);
    lemma_assignment_at(g, l, j, k);
    lemma_assignment_at(g, bi, bj, k);
    let p1 = if k != l {
        seq![at_most_one(var_of(i, j, k), var_of(i, j, l))]
    } else {
        Seq::<Seq<(int, bool)>>::empty()
    };
    let p2 = if j != l {
        seq![at_most_one(var_of(i, j, k), var_of(i, l, k))]
    } else {
        Seq::<Seq<(int, bool)>>::empty()
    };
    let p3 = if i != l {
        seq![at_most_one(var_of(i, j, k), var_of(l, j, k))]
    } else {
        Seq::<Seq<(int, bool)>>::empty()
    };
    let p4 = if i != bi || j != bj {
        seq![at_most_one(var_of(i, j, k), var_of(bi, bj, k))]
    } else {
        Seq::<Seq<(int, bool)>>::empty()
    };
    if k != l {
        lemma_amo_sat(m, var_of(i, j, k), var_of(i, j, l));
        lemma_sat_single(m, at_most_one(var_of(i, j, k), var_of(i, j, l)));
    }
    if j != l {
        lemma_amo_sat(m, var_of(i, j, k), var_of(i, l, k));
        lemma_sat_single(m, at_most_one(var_of(i, j, k), var_of(i, l, k)));
    }
    if i != l {
        lemma_amo_sat(m, var_of(i, j, k), var_of(l, j, k));
        lemma_sat_single(m, at_most_one(var_of(i, j, k), var_of(l, j, k)));
    }
    if i != bi || j != bj {
        lemma_amo_sat(m, var_of(i, j, k), var_of(bi, bj, k));
        lemma_sat_single(m, at_most_one(var_of(i, j, k), var_of(bi, bj, k)));
    }
    lemma_sat_join(m, p1, p2);
    lemma_sat_join(m, p1 + p2, p3);
    lemma_sat_join(m, p1 + p2 + p3, p4);
}

proof fn lemma_peers_upto_hold(g: Seq<u8>, i: int, j: int, k: int, l: int)
    requires
        valid_completed(g),
        0 <= i < 9,
        0 <= j < 9,
        0 <= k < 9,
        0 <= l <= 9,
    ensures
        all_sat(assignment_of(g), peers_upto(i, j, k, l)),
    decreases l,
{
    if l > 0 {
        lemma_peers_upto_hold(g, i, j, k, l - 1);
        lemma_peer_clauses_hold(g, i, j, k, l - 1);
        lemma_sat_join(assignment_of(g), peers_upto(i, j, k, l - 1), peer_clauses(i, j, k, l - 1));
    }
}

proof fn lemma_digits_upto_hold(g: Seq<u8>, i: int, j: int, k: int)
    requires
        valid_completed(g),
        0 <= i < 9,
        0 <= j < 9,
        0 <= k <= 9,
    ensures
        all_sat(assignment_of(g), digits_upto(i, j, k)),
    decreases k,
{
    if k > 0 {
        lemma_digits_upto_hold(g, i, j, k - 1);
        lemma_peers_upto_hold(g, i, j, k - 1, 9);
        lemma_sat_join(assignment_of(g), digits_upto(i, j, k - 1), peers_upto(i, j, k - 1, 9));
    }
}

proof fn lemma_cell_clauses_hold(g0: Seq<u8>, g: Seq<u8>, i: int, j: int)
    requires
        grid_wf(g0),
        valid_completed(g),
        forall|c: int| 0 <= c < 81 && g0[c] != 0 ==> #[trigger] g[c] == g0[c],
        0 <= i < 9,
        0 <= j < 9,
    ensures
        all_sat(assignment_of(g), cell_clauses(g0, i, j)),
{
    let m = assignment_of(g);
    lemma_digits_upto_hold(g, i, j, 9);
    let d = g[9 * i + j];
    assert(1 <= d <= 9);
    lemma_assignment_at(g, i, j, d - 1);
    assert(lit_sat(m, at_least_one(i, j)[d - 1]));
    lemma_sat_single(m, at_least_one(i, j));
    lemma_sat_join(m, digits_upto(i, j, 9), seq![at_least_one(i, j)]);
    let unit = if g0[9 * i + j] != 0 {
        seq![seq![(var_of(i, j, g0[9 * i + j] - 1), false)]]
    } else {
        Seq::<Seq<(int, bool)>>::empty()
    };
    if g0[9 * i + j] != 0 {
        let w = g0[9 * i + j];
        assert(g[9 * i + j] == w);
        lemma_assignment_at(g, i, j, w - 1);
        let u = seq![(var_of(i, j, w - 1), false)];
        assert(lit_sat(m, u[0]));
        lemma_sat_single(m, u);
    }
    lemma_sat_join(m, digits_upto(i, j, 9) + seq![at_least_one(i, j)], unit);
}

proof fn lemma_clauses_upto_hold(g0: Seq<u8>, g: Seq<u8>, c: int)
    requires
        grid_wf(g0),
        valid_completed(g),
        forall|x: int| 0 <= x < 81 && g0[x] != 0 ==> #[trigger] g[x] == g0[x],
        0 <= c <= 81,
    ensures
        all_sat(assignment_of(g), clauses_upto(g0, c)),
    decreases c,
{
    if c > 0 {
        lemma_clauses_upto_hold(g0, g, c - 1);
        lemma_cell_clauses_hold(g0, g, (c - 1) / 9, (c - 1) % 9);
        lemma_sat_join(
            assignment_of(g),
            clauses_upto(g0, c - 1),
            cell_clauses(g0, (c - 1) / 9, (c - 1) % 9),
        );
    }
}

/// Completeness of the encoding, the converse of soundness: a valid
/// completed Sudoku that keeps every clue of the puzzle induces an
/// assignment satisfying the puzzle's whole clause set. Together with
/// soundness, the clause set is satisfied exactly by the assignments of
/// such grids.
pub proof fn lemma_encoding_complete(g0: Seq<u8>, g: Seq<u8>)
    requires
        grid_wf(g0),
        valid_completed(g),
        forall|c: int| 0 <= c < 81 && g0[c] != 0 ==> #[trigger] g[c] == g0[c],
    ensures
        all_sat(assignment_of(g), sudoku_clauses(g0)),
{
    lemma_clauses_upto_hold(g0, g, 81);
}


/// The sum of the first j cells of row i.
pub open spec fn row_sum(g: Seq<u8>, i: int, j: int) -> int
    decreases j,
{
    if j <= 0 {
        0
    } else {
        row_sum(g, i, j - 1) + g[9 * i + j - 1]
    }
}

/// How often digit d occurs among the first j cells of row i.
spec fn row_count(g: Seq<u8>, i: int, d: int, j: int) -> int
    decreases j,
{
    if j <= 0 {
        0
    } else {
        row_count(g, i, d, j - 1) + if g[9 * i + j - 1] == d {
            1int
        } else {
            0int
        }
    }
}

proof fn lemma_row_count_once(g: Seq<u8>, i: int, d: int, j: int)
    requires
        valid_completed(g),
        0 <= i < 9,
        0 <= j <= 9,
    ensures
        0 <= row_count(g, i, d, j) <= 1,
        row_count(g, i, d, j) == 1 ==> exists|j0: int| 0 <= j0 < j && #[trigger] g[9 * i + j0]
            == d,
    decreases j,
{
    if j > 0 {
        lemma_row_count_once(g, i, d, j - 1);
        if g[9 * i + j - 1] == d {
            if row_count(g, i, d, j - 1) == 1 {
                let j0 = choose|j0: int| 0 <= j0 < j - 1 && #[trigger] g[9 * i + j0] == d;
                assert(g[9 * i + j0] != g[9 * i + (j - 1)]);
            }
            assert(0 <= j - 1 < j && g[9 * i + (j - 1)] == d);
        }
    }
}

proof fn lemma_row_counts_total(g: Seq<u8>, i: int, j: int)
    requires
        valid_completed(g),
        0 <= i < 9,
        0 <= j <= 9,
    ensures
        row_count(g, i, 1, j) + row_count(g, i, 2, j) + row_count(g, i, 3, j) + row_count(
            g,
            i,
            4,
            j,
        ) + row_count(g, i, 5, j) + row_count(g, i, 6, j) + row_count(g, i, 7, j) + row_count(
            g,
            i,
            8,
            j,
        ) + row_count(g, i, 9, j) == j,
    decreases j,
{
    if j > 0 {
        lemma_row_counts_total(g, i, j - 1);
        assert(1 <= g[9 * i + j - 1] <= 9);
    }
}

proof fn lemma_row_sum_by_counts(g: Seq<u8>, i: int, j: int)
    requires
        valid_completed(g),
        0 <= i < 9,
        0 <= j <= 9,
    ensures
        row_sum(g, i, j) == 1 * row_count(g, i, 1, j) + 2 * row_count(g, i, 2, j) + 3 * row_count(
            g,
            i,
            3,
            j,
        ) + 4 * row_count(g, i, 4, j) + 5 * row_count(g, i, 5, j) + 6 * row_count(g, i, 6, j) + 7
            * row_count(g, i, 7, j) + 8 * row_count(g, i, 8, j) + 9 * row_count(g, i, 9, j),
    decreases j,
{
    if j > 0 {
        lemma_row_sum_by_counts(g, i, j - 1);
        assert(1 <= g[9 * i + j - 1] <= 9);
    }
}

/// Every row of a valid completed Sudoku sums to 45: its nine cells hold
/// each digit 1..=9 exactly once.
pub proof fn lemma_rows_sum_to_forty_five(g: Seq<u8>)
    requires
        valid_completed(g),
    ensures
        forall|i: int| 0 <= i < 9 ==> #[trigger] row_sum(g, i, 9) == 45,
{
    assert forall|i: int| 0 <= i < 9 implies #[trigger] row_sum(g, i, 9) == 45 by {
        lemma_row_counts_total(g, i, 9);
        lemma_row_sum_by_counts(g, i, 9);
        lemma_row_count_once(g, i, 1, 9);
        lemma_row_count_once(g, i, 2, 9);
        lemma_row_count_once(g, i, 3, 9);
        lemma_row_count_once(g, i, 4, 9);
        lemma_row_count_once(g, i, 5, 9);
        lemma_row_count_once(g, i, 6, 9);
        lemma_row_count_once(g, i, 7, 9);
        lemma_row_count_once(g, i, 8, 9);
        lemma_row_count_once(g, i, 9, 9);
    }
}

} // verus!
