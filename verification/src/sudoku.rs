//! The top-level pipeline: encode a puzzle, run the engine, decode the
//! answer back into the grid.

use crate::decode::{decode_assignment, decode_ok, decoded, lemma_decode_preserves_clues};
use crate::encode::{allocate_table, emit_constraints, sudoku_clauses};
use crate::grid::{grid_wf, Grid};
use crate::solver::{Engine, Verdict};
use crate::soundness::{check_completed, valid_completed};
use vstd::prelude::*;

verus! {

/// Why a solve attempt failed; each cause is kept apart so a caller can
/// tell bad input from an engine that found no solution and from an
/// internal inconsistency.
#[derive(Clone, Copy, PartialEq, Eq, Structural, Debug)]
pub enum SolveError {
    /// The clause set admits no assignment: the clues contradict the rules.
    Unsatisfiable,
    /// The engine gave up without an answer.
    Unknown,
    /// The engine handed back a best-effort partial assignment, which a
    /// pure feasibility encoding cannot use.
    BestEffort,
    /// The assignment contradicts a pre-filled clue, or the decoded grid
    /// is no valid completed Sudoku: an engine or encoding defect, never
    /// silently accepted.
    Inconsistent,
}

/// The satisfying assignment m, total over the 729 variables, decodes the
/// puzzle g0 into the grid g1.
pub open spec fn solution_of(g0: Seq<u8>, g1: Seq<u8>, m: Seq<bool>) -> bool {
    &&& m.len() == 729
    &&& decode_ok(g0, m)
    &&& g1 == decoded(g0, m)
}

/// Some satisfying assignment of the puzzle g0 decodes it into g1.
pub open spec fn solves(g0: Seq<u8>, g1: Seq<u8>) -> bool {
    exists|m: Seq<bool>| #[trigger] solution_of(g0, g1, m)
}

/// A grid with no empty cell is a fixed point of solving: whatever
/// satisfying assignment the engine hands back, the decoded grid is the
/// puzzle itself. Feeding a decoded solution back in as clues therefore
/// reproduces it.
pub proof fn lemma_solve_fixed_point(g0: Seq<u8>, g1: Seq<u8>)
    requires
        g0.len() == 81,
        forall|c: int| 0 <= c < 81 ==> #[trigger] g0[c] != 0,
        solves(g0, g1),
    ensures
        g1 == g0,
{
    let m = choose|m: Seq<bool>| #[trigger] solution_of(g0, g1, m);
    crate::decode::lemma_solved_grid_fixed_point(g0, m);
}

/// A puzzle together with its engine instance.
pub struct Sudoku {
    grid: Grid,
    engine: Engine,
}

impl View for Sudoku {
    type V = Seq<u8>;

    /// The current grid: the puzzle before solving, the solution after.
    closed spec fn view(&self) -> Seq<u8> {
        self.grid@
    }
}

impl Sudoku {
    /// The instance is fully encoded: a well-formed grid, 729 variables,
    /// and exactly the Sudoku clause set of that grid.
    pub closed spec fn encoded(&self) -> bool {
        &&& grid_wf(self.grid@)
        &&& self.engine.vars() == 729
        &&& self.engine.clauses() == sudoku_clauses(self.grid@)
    }

    /// Builds the engine instance for a puzzle: allocates the 729 variables
    /// and registers the clause families plus one unit clause per clue.
    pub fn new(grid: Grid) -> (s: Sudoku)
        requires
            grid.wf(),
        ensures
            s@ == grid@,
            s.encoded(),
    {
        let mut engine = Engine::new();
        let table = allocate_table(&mut engine);
        emit_constraints(&mut engine, &table, &grid);
        proof {
            assert(engine.clauses() =~= sudoku_clauses(grid@));
        }
        Sudoku { grid, engine }
    }

    /// A borrow of the current grid.
    pub fn current_grid(&self) -> (g: &Grid)
        ensures
            g@ == self@,
    {
        &self.grid
    }

    /// Runs the engine once, with no assumptions, decodes its answer and
    /// re-checks the decoded grid defensively. On success the grid is
    /// overwritten with a valid completed Sudoku that keeps every clue; on
    /// any failure the grid is left untouched and the cause is returned.
    /// This engine never answers Unknown or BestEffort, so neither error
    /// is ever returned.
    pub fn solve(&mut self) -> (r: Result<(), SolveError>)
        requires
            old(self).encoded(),
        ensures
            match r {
                Ok(()) => {
                    &&& solves(old(self)@, final(self)@)
                    &&& valid_completed(final(self)@)
                    &&& grid_wf(final(self)@)
                    &&& forall|c: int|
                        0 <= c < 81 && old(self)@[c] != 0 ==> #[trigger] final(self)@[c] == old(
                            self,
                        )@[c]
                },
                Err(e) => {
                    &&& final(self)@ == old(self)@
                    &&& e != SolveError::Unknown
                    &&& e != SolveError::BestEffort
                },
            },
    {
        let ghost g0 = self.grid@;
        match self.engine.solve() {
            Verdict::Sat(m) => {
                let ghost mm = m@;
                match decode_assignment(&self.grid, &m) {
                    Some(g2) => {
                        if !check_completed(&g2) {
                            return Err(SolveError::Inconsistent);
                        }
                        proof {
                            lemma_decode_preserves_clues(g0, mm);
                            assert(solution_of(g0, g2@, mm));
                        }
                        self.grid = g2;
                        proof {
                            assert(solution_of(g0, self.grid@, mm));
                            assert(solves(g0, self.grid@));
                        }
                        Ok(())
                    },
                    None => Err(SolveError::Inconsistent),
                }
            },
            Verdict::Unsat => Err(SolveError::Unsatisfiable),
            Verdict::Unknown => Err(SolveError::Unknown),
            Verdict::Best(_) => Err(SolveError::BestEffort),
        }
    }
}

} // verus!
