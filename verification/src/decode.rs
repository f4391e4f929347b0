//! The decoder: from a satisfying assignment back to a completed grid.
//!
//! The assignment is scanned over all (row, column, digit) triples; every
//! true variable writes its digit into its cell. A cell that already holds
//! a different non-zero value is an inconsistency — the decode fails rather
//! than silently overwrite a clue.

use crate::encode::var_of;
use crate::grid::{grid_wf, Grid};
use vstd::prelude::*;

verus! {

/// One cell's decode over digits 0..k, starting from the cell's clue v:
/// each digit whose variable is true is written to the cell, and a digit
/// that clashes with a different non-zero value already there makes the
/// whole decode fail.
pub open spec fn decode_cell(v: u8, m: Seq<bool>, i: int, j: int, k: int) -> Option<u8>
    decreases k,
{
    if k <= 0 {
        Some(v)
    } else {
        match decode_cell(v, m, i, j, k - 1) {
            Option::None => Option::None,
            Option::Some(cur) => {
                if m[var_of(i, j, k - 1)] {
                    if cur != 0 && cur as int != k {
                        Option::None
                    } else {
                        Some(k as u8)
                    }
                } else {
                    Some(cur)
                }
            },
        }
    }
}

/// The whole assignment decodes against grid g without an inconsistency.
pub open spec fn decode_ok(g: Seq<u8>, m: Seq<bool>) -> bool {
    forall|c: int|
        0 <= c < 81 ==> (#[trigger] decode_cell(g[c], m, c / 9, c % 9, 9)) is Some
}

/// The grid that the assignment decodes to.
pub open spec fn decoded(g: Seq<u8>, m: Seq<bool>) -> Seq<u8> {
    Seq::new(81, |c: int| decode_cell(g[c], m, c / 9, c % 9, 9).unwrap())
}

/// No digit variable of cell (i, j) among 0..k is true.
pub open spec fn no_true(m: Seq<bool>, i: int, j: int, k: int) -> bool {
    forall|l: int| 0 <= l < k ==> !m[#[trigger] var_of(i, j, l)]
}

/// l0 is the only digit of cell (i, j) among 0..k whose variable is true.
pub open spec fn lone_true(m: Seq<bool>, i: int, j: int, k: int, l0: int) -> bool {
    &&& 0 <= l0 < k
    &&& m[var_of(i, j, l0)]
    &&& forall|l: int| 0 <= l < k && l != l0 ==> !m[#[trigger] var_of(i, j, l)]
}

/// What one cell's decode amounts to: the clue where no digit variable is
/// true; the lone true digit where it agrees with the clue; a failure
/// otherwise (a disagreeing clue, or two true digits).
pub proof fn lemma_decode_cell_shape(v: u8, m: Seq<bool>, i: int, j: int, k: int)
    requires
        0 <= k <= 9,
    ensures
        no_true(m, i, j, k) ==> decode_cell(v, m, i, j, k) == Some(v),
        forall|l0: int|
            lone_true(m, i, j, k, l0) ==> decode_cell(v, m, i, j, k) == (if v == 0 || v as int
                == l0 + 1 {
                Some((l0 + 1) as u8)
            } else {
                Option::<u8>::None
            }),
        !no_true(m, i, j, k) && (forall|l0: int| !(#[trigger] lone_true(m, i, j, k, l0)))
            ==> decode_cell(v, m, i, j, k) is None,
    decreases k,
{
    if k > 0 {
        lemma_decode_cell_shape(v, m, i, j, k - 1);
        if m[var_of(i, j, k - 1)] {
            if no_true(m, i, j, k - 1) {
                assert(lone_true(m, i, j, k, k - 1));
                assert forall|l0: int| lone_true(m, i, j, k, l0) implies l0 == k - 1 by {
                    if l0 != k - 1 {
                        assert(!m[var_of(i, j, k - 1)]);
                    }
                }
            } else {
                let l1 = choose|l1: int| 0 <= l1 < k - 1 && m[var_of(i, j, l1)];
                assert(m[var_of(i, j, l1)]);
                // two true digits among 0..k: no lone digit is left
                assert forall|l0: int| !(#[trigger] lone_true(m, i, j, k, l0)) by {
                    if lone_true(m, i, j, k, l0) {
                        if l0 != l1 {
                            assert(!m[var_of(i, j, l1)]);
                        } else {
                            assert(!m[var_of(i, j, k - 1)]);
                        }
                    }
                }
                if exists|l2: int| #[trigger] lone_true(m, i, j, k - 1, l2) {
                    let l2 = choose|l2: int| #[trigger] lone_true(m, i, j, k - 1, l2);
                    assert(decode_cell(v, m, i, j, k - 1) == (if v == 0 || v as int == l2 + 1 {
                        Some((l2 + 1) as u8)
                    } else {
                        Option::<u8>::None
                    }));
                    assert(decode_cell(v, m, i, j, k) is None);
                } else {
                    assert(decode_cell(v, m, i, j, k - 1) is None);
                }
            }
        } else {
            assert(no_true(m, i, j, k) == no_true(m, i, j, k - 1));
            assert forall|l0: int| lone_true(m, i, j, k, l0) implies lone_true(
                m,
                i,
                j,
                k - 1,
                l0,
            ) by {
                assert(m[var_of(i, j, l0)]);
            }
            if !no_true(m, i, j, k) && (forall|l0: int| !(#[trigger] lone_true(m, i, j, k, l0))) {
                assert forall|l0: int| !(#[trigger] lone_true(m, i, j, k - 1, l0)) by {
                    if lone_true(m, i, j, k - 1, l0) {
                        assert(lone_true(m, i, j, k, l0));
                    }
                }
            }
        }
    }
}

/// A failed cell stays failed as more digits are scanned.
proof fn lemma_decode_none_sticks(v: u8, m: Seq<bool>, i: int, j: int, k1: int, k2: int)
    requires
        0 <= k1 <= k2,
        decode_cell(v, m, i, j, k1) is None,
    ensures
        decode_cell(v, m, i, j, k2) is None,
    decreases k2,
{
    if k2 > k1 {
        lemma_decode_none_sticks(v, m, i, j, k1, k2 - 1);
    }
}

/// Decodes a satisfying assignment into a completed grid: for every (row,
/// column, digit) triple whose variable is true, the cell is set to that
/// digit. Returns no grid when the assignment contradicts a non-zero clue
/// of the input grid.
pub fn decode_assignment(grid: &Grid, m: &Vec<bool>) -> (r: Option<Grid>)
    requires
        grid.wf(),
        m@.len() >= 729,
    ensures
        r is Some <==> decode_ok(grid@, m@),
        r matches Some(g2) ==> g2@ == decoded(grid@, m@) && g2.wf(),
{
    let ghost g = grid@;
    let mut cells: Vec<u8> = Vec::new();
    for i in 0..9
        invariant
            grid.wf(),
            g == grid@,
            m@.len() >= 729,
            cells@.len() == 9 * (i as int),
            forall|c: int|
                0 <= c < 9 * (i as int) ==> (#[trigger] decode_cell(g[c], m@, c / 9, c % 9, 9))
                    == Some(cells@[c]),
    {
        for j in 0..9
            invariant
                grid.wf(),
                g == grid@,
                m@.len() >= 729,
                i < 9,
                cells@.len() == 9 * (i as int) + (j as int),
                forall|c: int|
                    0 <= c < 9 * (i as int) + (j as int) ==> (#[trigger] decode_cell(
                        g[c],
                        m@,
                        c / 9,
                        c % 9,
                        9,
                    )) == Some(cells@[c]),
        {
            let ghost ii = i as int;
            let ghost jj = j as int;
            let v = grid.get(i, j);
            let mut cur = v;
            for k in 0..9
                invariant
                    grid.wf(),
                    g == grid@,
                    m@.len() >= 729,
                    i < 9,
                    j < 9,
                    ii == i as int,
                    jj == j as int,
                    v == g[9 * ii + jj],
                    decode_cell(v, m@, ii, jj, k as int) == Some(cur),
            {
                if m[81 * i + 9 * j + k] {
                    let d: u8 = (k as u8) + 1;
                    if cur != 0 && cur != d {
                        proof {
                            assert(decode_cell(v, m@, ii, jj, k + 1) is None);
                            lemma_decode_none_sticks(v, m@, ii, jj, k + 1, 9);
                            assert(!decode_ok(g, m@)) by {
                                assert((9 * ii + jj) / 9 == ii && (9 * ii + jj) % 9 == jj)
                                    by (nonlinear_arith)
                                    requires 0 <= ii < 9 && 0 <= jj < 9;
                                assert(decode_cell(g[9 * ii + jj], m@, ii, jj, 9) is None);
                                assert(decode_cell(
                                    g[9 * ii + jj],
                                    m@,
                                    (9 * ii + jj) / 9,
                                    (9 * ii + jj) % 9,
                                    9,
                                ) is None);
                            }
                        }
                        return None;
                    }
                    cur = d;
                }
            }
            proof {
                assert((9 * ii + jj) / 9 == ii && (9 * ii + jj) % 9 == jj) by (nonlinear_arith)
                    requires 0 <= ii < 9 && 0 <= jj < 9;
                assert(decode_cell(g[9 * ii + jj], m@, (9 * ii + jj) / 9, (9 * ii + jj) % 9, 9)
                    == Some(cur));
            }
            cells.push(cur);
        }
    }
    proof {
        assert(decode_ok(g, m@));
        assert(cells@ =~= decoded(g, m@));
        assert(grid_wf(cells@)) by {
            assert forall|c: int| 0 <= c < 81 implies cells@[c] <= 9 by {
                lemma_decode_cell_shape(g[c], m@, c / 9, c % 9, 9);
                if no_true(m@, c / 9, c % 9, 9) {
                } else if exists|l0: int| #[trigger] lone_true(m@, c / 9, c % 9, 9, l0) {
                    let l0 = choose|l0: int| #[trigger] lone_true(m@, c / 9, c % 9, 9, l0);
                    assert(decode_cell(g[c], m@, c / 9, c % 9, 9) == (if g[c] == 0 || g[c] as int
                        == l0 + 1 {
                        Some((l0 + 1) as u8)
                    } else {
                        Option::<u8>::None
                    }));
                }
            }
        }
    }
    Some(Grid::from_cells_unchecked(cells))
}

/// Decoding is idempotent: decoding the same assignment again, from the
/// grid the first decode produced, succeeds and yields that same grid.
pub proof fn lemma_decode_idempotent(g: Seq<u8>, m: Seq<bool>)
    requires
        g.len() == 81,
        decode_ok(g, m),
    ensures
        decode_ok(decoded(g, m), m),
        decoded(decoded(g, m), m) == decoded(g, m),
{
    let d = decoded(g, m);
    assert forall|c: int| 0 <= c < 81 implies (#[trigger] decode_cell(d[c], m, c / 9, c % 9, 9))
        == Some(d[c]) by {
        lemma_decode_cell_stable(g, m, c);
    }
    assert(decoded(d, m) =~= d);
}

/// One cell of a decoded grid decodes to itself under the same assignment.
proof fn lemma_decode_cell_stable(g: Seq<u8>, m: Seq<bool>, c: int)
    requires
        g.len() == 81,
        decode_ok(g, m),
        0 <= c < 81,
    ensures
        decode_cell(decoded(g, m)[c], m, c / 9, c % 9, 9) == Some(decoded(g, m)[c]),
{
    let i = c / 9;
    let j = c % 9;
    let w = decoded(g, m)[c];
    lemma_decode_cell_shape(g[c], m, i, j, 9);
    lemma_decode_cell_shape(w, m, i, j, 9);
    assert(decode_cell(g[c], m, i, j, 9) is Some);
    if no_true(m, i, j, 9) {
        assert(w == g[c]);
    } else if exists|l0: int| #[trigger] lone_true(m, i, j, 9, l0) {
        let l0 = choose|l0: int| #[trigger] lone_true(m, i, j, 9, l0);
        assert(decode_cell(g[c], m, i, j, 9) == (if g[c] == 0 || g[c] as int == l0 + 1 {
            Some((l0 + 1) as u8)
        } else {
            Option::<u8>::None
        }));
        assert(w == (l0 + 1) as u8);
        assert(decode_cell(w, m, i, j, 9) == (if w == 0 || w as int == l0 + 1 {
            Some((l0 + 1) as u8)
        } else {
            Option::<u8>::None
        }));
    } else {
        assert(decode_cell(g[c], m, i, j, 9) is None);
    }
}

/// A decoded grid keeps every clue: a non-zero cell of the input grid comes
/// back unchanged whenever the decode succeeds.
pub proof fn lemma_decode_preserves_clues(g: Seq<u8>, m: Seq<bool>)
    requires
        g.len() == 81,
        decode_ok(g, m),
    ensures
        forall|c: int| 0 <= c < 81 && g[c] != 0 ==> #[trigger] decoded(g, m)[c] == g[c],
{
    assert forall|c: int| 0 <= c < 81 && g[c] != 0 implies #[trigger] decoded(g, m)[c]
        == g[c] by {
        let i = c / 9;
        let j = c % 9;
        lemma_decode_cell_shape(g[c], m, i, j, 9);
        if no_true(m, i, j, 9) {
        } else if exists|l0: int| #[trigger] lone_true(m, i, j, 9, l0) {
            let l0 = choose|l0: int| #[trigger] lone_true(m, i, j, 9, l0);
            assert(decode_cell(g[c], m, i, j, 9) == (if g[c] == 0 || g[c] as int == l0 + 1 {
                Some((l0 + 1) as u8)
            } else {
                Option::<u8>::None
            }));
        } else {
            assert(decode_cell(g[c], m, i, j, 9) is None);
        }
    }
}

/// A completed grid is a fixed point: decoding any successful assignment
/// from a grid with no empty cell gives that grid back.
pub proof fn lemma_solved_grid_fixed_point(g: Seq<u8>, m: Seq<bool>)
    requires
        g.len() == 81,
        forall|c: int| 0 <= c < 81 ==> #[trigger] g[c] != 0,
        decode_ok(g, m),
    ensures
        decoded(g, m) == g,
{
    lemma_decode_preserves_clues(g, m);
    assert(decoded(g, m) =~= g);
}

} // verus!
