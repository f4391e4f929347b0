//! The constraint encoding: from a grid to the Sudoku clause set.
//!
//! One Boolean variable per (row, column, digit) triple, numbered
//! 81*row + 9*column + digit. The clause families are the direct pairwise
//! encoding: for every cell an at-least-one clause over its nine digit
//! literals, binary exclusion clauses over cell, row, column and box peers,
//! and one unit clause per pre-filled clue.

use crate::grid::Grid;
use crate::solver::{Engine, Literal};
use vstd::prelude::*;

verus! {

/// The variable standing for "cell (i, j) holds digit k+1".
pub open spec fn var_of(i: int, j: int, k: int) -> int {
    81 * i + 9 * j + k
}

/// The row of the l-th position in the 3x3 box that row i lies in.
pub open spec fn box_row(i: int, l: int) -> int {
    (i / 3) * 3 + l / 3
}

/// The column of the l-th position in the 3x3 box that column j lies in.
pub open spec fn box_col(j: int, l: int) -> int {
    (j / 3) * 3 + l % 3
}

/// A binary clause forbidding variables a and b to hold together.
pub open spec fn at_most_one(a: int, b: int) -> Seq<(int, bool)> {
    seq![(a, true), (b, true)]
}

/// The exclusion clauses emitted for cell (i, j), digit k and peer index l:
/// the cell, row, column and box exclusions that apply, in that order, each
/// skipped when it would compare a literal with itself.
pub open spec fn peer_clauses(i: int, j: int, k: int, l: int) -> Seq<Seq<(int, bool)>> {
    (if k != l {
        seq![at_most_one(var_of(i, j, k), var_of(i, j, l))]
    } else {
        Seq::empty()
    }) + (if j != l {
        seq![at_most_one(var_of(i, j, k), var_of(i, l, k))]
    } else {
        Seq::empty()
    }) + (if i != l {
        seq![at_most_one(var_of(i, j, k), var_of(l, j, k))]
    } else {
        Seq::empty()
    }) + (if i != box_row(i, l) || j != box_col(j, l) {
        seq![at_most_one(var_of(i, j, k), var_of(box_row(i, l), box_col(j, l), k))]
    } else {
        Seq::empty()
    })
}

/// The exclusion clauses of cell (i, j) and digit k over peer indices 0..l.
pub open spec fn peers_upto(i: int, j: int, k: int, l: int) -> Seq<Seq<(int, bool)>>
    decreases l,
{
    if l <= 0 {
        Seq::empty()
    } else {
        peers_upto(i, j, k, l - 1) + peer_clauses(i, j, k, l - 1)
    }
}

/// The exclusion clauses of cell (i, j) over digits 0..k, all peers each.
pub open spec fn digits_upto(i: int, j: int, k: int) -> Seq<Seq<(int, bool)>>
    decreases k,
{
    if k <= 0 {
        Seq::empty()
    } else {
        digits_upto(i, j, k - 1) + peers_upto(i, j, k - 1, 9)
    }
}

/// The at-least-one clause of cell (i, j): its nine positive digit literals.
pub open spec fn at_least_one(i: int, j: int) -> Seq<(int, bool)> {
    Seq::new(9, |k: int| (var_of(i, j, k), false))
}

/// Every clause emitted for cell (i, j) of grid g: the pairwise exclusions,
/// then the at-least-one clause, then a unit clause where the cell holds a
/// clue.
pub open spec fn cell_clauses(g: Seq<u8>, i: int, j: int) -> Seq<Seq<(int, bool)>> {
    digits_upto(i, j, 9) + seq![at_least_one(i, j)] + (if g[9 * i + j] != 0 {
        seq![seq![(var_of(i, j, g[9 * i + j] - 1), false)]]
    } else {
        Seq::empty()
    })
}

/// The clauses of the first c cells of grid g, row-major.
pub open spec fn clauses_upto(g: Seq<u8>, c: int) -> Seq<Seq<(int, bool)>>
    decreases c,
{
    if c <= 0 {
        Seq::empty()
    } else {
        clauses_upto(g, c - 1) + cell_clauses(g, (c - 1) / 9, (c - 1) % 9)
    }
}

/// The whole Sudoku clause set of grid g.
pub open spec fn sudoku_clauses(g: Seq<u8>) -> Seq<Seq<(int, bool)>> {
    clauses_upto(g, 81)
}

/// A well-formed literal table: entry 81*i + 9*j + k holds the positive
/// literal of variable 81*i + 9*j + k, a bijection between triples and the
/// 729 variables.
pub open spec fn table_wf(t: Seq<Literal>) -> bool {
    &&& t.len() == 729
    &&& forall|x: int|
        0 <= x < 729 ==> #[trigger] t[x] == (Literal { var: x as usize, neg: false })
}

/// Allocates one fresh engine variable per (row, column, digit) triple, in
/// row-major order, and stores each as a positive literal of the table.
pub fn allocate_table(s: &mut Engine) -> (t: Vec<Literal>)
    requires
        old(s).vars() == 0,
    ensures
        final(s).vars() == 729,
        final(s).clauses() == old(s).clauses(),
        table_wf(t@),
{
    let ghost cls0 = s.clauses();
    let mut t: Vec<Literal> = Vec::new();
    for x in 0..729
        invariant
            s.vars() == x,
            s.clauses() == cls0,
            t@.len() == x,
            forall|y: int|
                0 <= y < x ==> #[trigger] t@[y] == (Literal { var: y as usize, neg: false }),
    {
        let v = s.new_var();
        t.push(Literal::positive(v));
    }
    t
}

/// Registers the exclusion clauses of cell (i, j), digit k and peer index l:
/// up to four binary clauses, one per family that applies.
#[verifier::rlimit(60)]
fn emit_peer_clauses(s: &mut Engine, t: &Vec<Literal>, i: usize, j: usize, k: usize, l: usize)
    requires
        old(s).vars() == 729,
        table_wf(t@),
        i < 9,
        j < 9,
        k < 9,
        l < 9,
    ensures
        final(s).vars() == 729,
        final(s).clauses() == old(s).clauses() + peer_clauses(
            i as int,
            j as int,
            k as int,
            l as int,
        ),
{
    let ghost e0 = s.clauses();
    let ghost ii = i as int;
    let ghost jj = j as int;
    let ghost kk = k as int;
    let ghost ll = l as int;
    let ghost c1 = if kk != ll {
        seq![at_most_one(var_of(ii, jj, kk), var_of(ii, jj, ll))]
    } else {
        Seq::empty()
    };
    let ghost c2 = if jj != ll {
        seq![at_most_one(var_of(ii, jj, kk), var_of(ii, ll, kk))]
    } else {
        Seq::empty()
    };
    let ghost c3 = if ii != ll {
        seq![at_most_one(var_of(ii, jj, kk), var_of(ll, jj, kk))]
    } else {
        Seq::empty()
    };
    let base = t[81 * i + 9 * j + k];
    if k != l {
        let cl = vec![base.negate(), t[81 * i + 9 * j + l].negate()];
        s.add_clause(&cl);
        proof {
            assert(cl@.map_values(|x: Literal| x.model()) =~= at_most_one(
                var_of(ii, jj, kk),
                var_of(ii, jj, ll),
            ));
        }
    }
    proof {
        assert(s.clauses() =~= e0 + c1);
    }
    if j != l {
        let cl = vec![base.negate(), t[81 * i + 9 * l + k].negate()];
        s.add_clause(&cl);
        proof {
            assert(cl@.map_values(|x: Literal| x.model()) =~= at_most_one(
                var_of(ii, jj, kk),
                var_of(ii, ll, kk),
            ));
        }
    }
    proof {
        assert(s.clauses() =~= e0 + c1 + c2);
    }
    if i != l {
        let cl = vec![base.negate(), t[81 * l + 9 * j + k].negate()];
        s.add_clause(&cl);
        proof {
            assert(cl@.map_values(|x: Literal| x.model()) =~= at_most_one(
                var_of(ii, jj, kk),
                var_of(ll, jj, kk),
            ));
        }
    }
    proof {
        assert(s.clauses() =~= e0 + c1 + c2 + c3);
    }
    let mi = (i / 3) * 3 + l / 3;
    let mj = (j / 3) * 3 + l % 3;
    proof {
        assert(mi == box_row(ii, ll) && mj == box_col(jj, ll));
        assert(mi < 9 && mj < 9);
    }
    if i != mi || j != mj {
        let cl = vec![base.negate(), t[81 * mi + 9 * mj + k].negate()];
        s.add_clause(&cl);
        proof {
            assert(cl@.map_values(|x: Literal| x.model()) =~= at_most_one(
                var_of(ii, jj, kk),
                var_of(box_row(ii, ll), box_col(jj, ll), kk),
            ));
        }
    }
    proof {
        assert(s.clauses() =~= e0 + peer_clauses(ii, jj, kk, ll));
    }
}

/// Registers the full Sudoku clause set of the grid: for every cell its
/// pairwise exclusions, its at-least-one clause, and a unit clause where the
/// cell holds a clue. The clause families do not depend on the grid's
/// contents; only the unit clauses do.
pub fn emit_constraints(s: &mut Engine, t: &Vec<Literal>, grid: &Grid)
    requires
        old(s).vars() == 729,
        table_wf(t@),
        grid.wf(),
    ensures
        final(s).vars() == 729,
        final(s).clauses() == old(s).clauses() + sudoku_clauses(grid@),
{
    let ghost g = grid@;
    let ghost cls0 = s.clauses();
    for i in 0..9
        invariant
            s.vars() == 729,
            table_wf(t@),
            grid.wf(),
            g == grid@,
            s.clauses() == cls0 + clauses_upto(g, 9 * (i as int)),
    {
        for j in 0..9
            invariant
                s.vars() == 729,
                table_wf(t@),
                grid.wf(),
                g == grid@,
                i < 9,
                s.clauses() == cls0 + clauses_upto(g, 9 * (i as int) + j),
        {
            let ghost ii = i as int;
            let ghost jj = j as int;
            let ghost cell0 = cls0 + clauses_upto(g, 9 * ii + jj);
            let mut alo: Vec<Literal> = Vec::new();
            for k in 0..9
                invariant
                    s.vars() == 729,
                    table_wf(t@),
                    i < 9,
                    j < 9,
                    ii == i as int,
                    jj == j as int,
                    s.clauses() == cell0 + digits_upto(ii, jj, k as int),
                    alo@.len() == k,
                    forall|y: int|
                        0 <= y < k ==> #[trigger] alo@[y] == (Literal {
                            var: (81 * ii + 9 * jj + y) as usize,
                            neg: false,
                        }),
            {
                let ghost kk = k as int;
                let ghost d0 = s.clauses();
                alo.push(t[81 * i + 9 * j + k]);
                for l in 0..9
                    invariant
                        s.vars() == 729,
                        table_wf(t@),
                        i < 9,
                        j < 9,
                        k < 9,
                        ii == i as int,
                        jj == j as int,
                        kk == k as int,
                        s.clauses() == d0 + peers_upto(ii, jj, kk, l as int),
                {
                    emit_peer_clauses(s, t, i, j, k, l);
                    proof {
                        assert(s.clauses() =~= d0 + peers_upto(ii, jj, kk, l + 1));
                    }
                }
                proof {
                    assert(s.clauses() =~= cell0 + digits_upto(ii, jj, kk + 1));
                }
            }
            // at least one digit per cell
            proof {
                assert(alo@.map_values(|x: Literal| x.model()) =~= at_least_one(ii, jj));
                assert(forall|y: int|
                    0 <= y < alo@.len() ==> (#[trigger] alo@[y]).var < 729);
            }
            s.add_clause(&alo);
            // the clue's unit clause, for a pre-filled cell
            let v = grid.get(i, j);
            if v != 0 {
                let unit = vec![t[81 * i + 9 * j + (v as usize - 1)]];
                s.add_clause(&unit);
                proof {
                    assert(unit@.map_values(|x: Literal| x.model()) =~= seq![
                        (var_of(ii, jj, g[9 * ii + jj] - 1), false),
                    ]);
                }
            }
            proof {
                assert(s.clauses() =~= cell0 + cell_clauses(g, ii, jj));
                assert((9 * ii + jj + 1 - 1) / 9 == ii && (9 * ii + jj + 1 - 1) % 9 == jj)
                    by (nonlinear_arith)
                    requires 0 <= ii < 9 && 0 <= jj < 9;
                assert(s.clauses() =~= cls0 + clauses_upto(g, 9 * ii + jj + 1));
            }
        }
    }
    proof {
        assert(s.clauses() =~= old(s).clauses() + sudoku_clauses(g));
    }
}

/// How many clauses of a set have exactly nine literals. In a Sudoku
/// clause set these are precisely the at-least-one clauses: the pairwise
/// exclusions have two literals and the clue units one.
pub open spec fn nine_literal_count(s: Seq<Seq<(int, bool)>>) -> int
    decreases s.len(),
{
    if s.len() == 0 {
        0
    } else {
        nine_literal_count(s.drop_last()) + if s.last().len() == 9 {
            1int
        } else {
            0int
        }
    }
}

proof fn lemma_nine_count_add(a: Seq<Seq<(int, bool)>>, b: Seq<Seq<(int, bool)>>)
    ensures
        nine_literal_count(a + b) == nine_literal_count(a) + nine_literal_count(b),
    decreases b.len(),
{
    if b.len() == 0 {
        assert(a + b =~= a);
    } else {
        assert((a + b).drop_last() =~= a + b.drop_last());
        lemma_nine_count_add(a, b.drop_last());
    }
}

proof fn lemma_nine_count_singleton(c: Seq<(int, bool)>)
    ensures
        nine_literal_count(seq![c]) == if c.len() == 9 {
            1int
        } else {
            0int
        },
{
    let s1 = seq![c];
    assert(s1.len() == 1);
    assert(s1.last() == c);
    assert(s1.drop_last() =~= Seq::<Seq<(int, bool)>>::empty());
    assert(nine_literal_count(Seq::<Seq<(int, bool)>>::empty()) == 0);
    assert(nine_literal_count(s1) == nine_literal_count(s1.drop_last()) + if s1.last().len() == 9 { 1int } else { 0int });
}

proof fn lemma_peer_clauses_none(i: int, j: int, k: int, l: int)
    ensures
        nine_literal_count(peer_clauses(i, j, k, l)) == 0,
{
    let p1 = if k != l {
        seq![at_most_one(var_of(i, j, k), var_of(i, j, l))]
    } else {
        Seq::empty()
    };
    let p2 = if j != l {
        seq![at_most_one(var_of(i, j, k), var_of(i, l, k))]
    } else {
        Seq::empty()
    };
    let p3 = if i != l {
        seq![at_most_one(var_of(i, j, k), var_of(l, j, k))]
    } else {
        Seq::empty()
    };
    let p4 = if i != box_row(i, l) || j != box_col(j, l) {
        seq![at_most_one(var_of(i, j, k), var_of(box_row(i, l), box_col(j, l), k))]
    } else {
        Seq::empty()
    };
    if k != l {
        lemma_nine_count_singleton(at_most_one(var_of(i, j, k), var_of(i, j, l)));
    }
    if j != l {
        lemma_nine_count_singleton(at_most_one(var_of(i, j, k), var_of(i, l, k)));
    }
    if i != l {
        lemma_nine_count_singleton(at_most_one(var_of(i, j, k), var_of(l, j, k)));
    }
    if i != box_row(i, l) || j != box_col(j, l) {
        lemma_nine_count_singleton(
            at_most_one(var_of(i, j, k), var_of(box_row(i, l), box_col(j, l), k)),
        );
    }
    lemma_nine_count_add(p1, p2);
    lemma_nine_count_add(p1 + p2, p3);
    lemma_nine_count_add(p1 + p2 + p3, p4);
}

proof fn lemma_peers_upto_none(i: int, j: int, k: int, l: int)
    ensures
        nine_literal_count(peers_upto(i, j, k, l)) == 0,
    decreases l,
{
    if l > 0 {
        lemma_peers_upto_none(i, j, k, l - 1);
        lemma_peer_clauses_none(i, j, k, l - 1);
        lemma_nine_count_add(peers_upto(i, j, k, l - 1), peer_clauses(i, j, k, l - 1));
    }
}

proof fn lemma_digits_upto_none(i: int, j: int, k: int)
    ensures
        nine_literal_count(digits_upto(i, j, k)) == 0,
    decreases k,
{
    if k > 0 {
        lemma_digits_upto_none(i, j, k - 1);
        lemma_peers_upto_none(i, j, k - 1, 9);
        lemma_nine_count_add(digits_upto(i, j, k - 1), peers_upto(i, j, k - 1, 9));
    }
}

proof fn lemma_cell_clauses_one(g: Seq<u8>, i: int, j: int)
    ensures
        nine_literal_count(cell_clauses(g, i, j)) == 1,
{
    lemma_digits_upto_none(i, j, 9);
    lemma_nine_count_singleton(at_least_one(i, j));
    lemma_nine_count_add(digits_upto(i, j, 9), seq![at_least_one(i, j)]);
    let unit = if g[9 * i + j] != 0 {
        seq![seq![(var_of(i, j, g[9 * i + j] - 1), false)]]
    } else {
        Seq::<Seq<(int, bool)>>::empty()
    };
    if g[9 * i + j] != 0 {
        lemma_nine_count_singleton(seq![(var_of(i, j, g[9 * i + j] - 1), false)]);
    }
    lemma_nine_count_add(digits_upto(i, j, 9) + seq![at_least_one(i, j)], unit);
}

proof fn lemma_clauses_upto_count(g: Seq<u8>, c: int)
    requires
        0 <= c,
    ensures
        nine_literal_count(clauses_upto(g, c)) == c,
    decreases c,
{
    if c > 0 {
        lemma_clauses_upto_count(g, c - 1);
        lemma_cell_clauses_one(g, (c - 1) / 9, (c - 1) % 9);
        lemma_nine_count_add(clauses_upto(g, c - 1), cell_clauses(g, (c - 1) / 9, (c - 1) % 9));
    }
}

/// The at-least-one family of any grid's clause set holds exactly 81
/// clauses, one per cell: exactly 81 of the clauses have nine literals,
/// and only at-least-one clauses do.
pub proof fn lemma_at_least_one_family(g: Seq<u8>)
    ensures
        nine_literal_count(sudoku_clauses(g)) == 81,
{
    lemma_clauses_upto_count(g, 81);
}

} // verus!
