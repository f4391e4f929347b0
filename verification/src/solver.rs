//! The trusted boundary around the external SAT engine.
//!
//! The engine is held in an [`Engine`] struct together with two ghost
//! fields that record its history: how many variables have been handed
//! out and which clauses have been registered, in order. The verified
//! constructor starts the history empty; after that only the trusted
//! methods below, each a thin wrapper around one engine call, advance it,
//! and their contracts state no more of the engine itself than its source
//! shows.

use vstd::prelude::*;

verus! {

/// A propositional literal: a variable index together with a negation flag.
/// Negating a literal flips the flag and leaves the variable untouched.
#[derive(Clone, Copy)]
pub struct Literal {
    pub var: usize,
    pub neg: bool,
}

impl Literal {
    /// The (variable, negated) pair this literal denotes.
    pub open spec fn model(self) -> (int, bool) {
        (self.var as int, self.neg)
    }

    /// The positive literal of a variable.
    pub fn positive(var: usize) -> (r: Literal)
        ensures
            r.var == var && !r.neg,
    {
        Literal { var, neg: false }
    }

    /// Negation as a view: same variable, flipped flag.
    pub fn negate(&self) -> (r: Literal)
        ensures
            r.var == self.var && r.neg == !self.neg,
    {
        Literal { var: self.var, neg: !self.neg }
    }
}

/// The engine's answer to a solve call.
pub enum Verdict {
    /// A satisfying assignment, one truth value per allocated variable.
    Sat(Vec<bool>),
    /// The clause set admits no assignment.
    Unsat,
    /// The engine gave up without an answer.
    Unknown,
    /// A best-effort partial assignment under a cost objective.
    Best(Vec<bool>),
}

#[verifier::external_type_specification]
#[verifier::external_body]
pub struct ExSolver(rsat::cdcl::Solver);

/// Relies on rsat::cdcl::Solver::new, called with
/// rsat::cdcl::SolverOptions::default; nothing is claimed of the value.
#[verifier::external_body]
fn fresh_solver() -> rsat::cdcl::Solver {
    rsat::cdcl::Solver::new(rsat::cdcl::SolverOptions::default())
}

/// The external SAT engine together with the history of this library's
/// calls into it: the number of variables handed out and the sequence of
/// clauses registered, each clause as its literals' (variable, negated)
/// pairs. The ghost fields start empty and are advanced only by the
/// trusted methods below, which keep them in step with the calls they
/// make.
pub struct Engine {
    solver: rsat::cdcl::Solver,
    var_count: Ghost<nat>,
    registered: Ghost<Seq<Seq<(int, bool)>>>,
}

impl Engine {
    /// How many variables the engine has handed out so far.
    pub closed spec fn vars(&self) -> nat {
        self.var_count@
    }

    /// The clauses registered so far, in registration order.
    pub closed spec fn clauses(&self) -> Seq<Seq<(int, bool)>> {
        self.registered@
    }

    /// A fresh engine: no variables handed out, no clauses registered.
    pub(crate) fn new() -> (e: Engine)
        ensures
            e.vars() == 0,
            e.clauses() == Seq::<Seq<(int, bool)>>::empty(),
    {
        Engine { solver: fresh_solver(), var_count: Ghost(0nat), registered: Ghost(Seq::empty()) }
    }

    /// Relies on rsat::cdcl::Solver::new_var: variables are handed out as
    /// consecutive zero-based indices, one per call, and no clause changes.
    #[verifier::external_body]
    pub(crate) fn new_var(&mut self) -> (v: usize)
        requires
            old(self).vars() < usize::MAX,
        ensures
            v == old(self).vars(),
            final(self).vars() == old(self).vars() + 1,
            final(self).clauses() == old(self).clauses(),
    {
        self.solver.new_var().index()
    }

    /// Relies on rsat::cdcl::Solver::add_clause: hands the engine one more
    /// clause, which joins the registered history, and allocates no
    /// variable. The engine indexes its watch and assignment lists by
    /// variable, so every literal must name an already allocated variable.
    #[verifier::external_body]
    pub(crate) fn add_clause(&mut self, cl: &Vec<Literal>)
        requires
            cl@.len() > 0,
            forall|t: int| 0 <= t < cl@.len() ==> (#[trigger] cl@[t]).var < old(self).vars(),
        ensures
            final(self).vars() == old(self).vars(),
            final(self).clauses() == old(self).clauses().push(
                cl@.map_values(|l: Literal| l.model()),
            ),
    {
        let lits: Vec<solhop_types::Lit> = cl
            .iter()
            .map(|l| solhop_types::Lit::new(solhop_types::Var::new(l.var), l.neg))
            .collect();
        self.solver.add_clause(lits);
    }

    /// Relies on rsat::cdcl::Solver::solve, called with no assumptions:
    /// every return path of this engine answers Sat or Unsat, and a Sat
    /// answer carries one truth value per allocated variable. Solving
    /// neither hands out variables nor registers clauses.
    #[verifier::external_body]
    pub(crate) fn solve(&mut self) -> (r: Verdict)
        ensures
            r matches Verdict::Sat(m) ==> m@.len() == old(self).vars(),
            !(r is Unknown),
            !(r is Best),
            final(self).vars() == old(self).vars(),
            final(self).clauses() == old(self).clauses(),
    {
        match self.solver.solve(vec![]) {
            solhop_types::Solution::Sat(m) => Verdict::Sat(m),
            solhop_types::Solution::Unsat => Verdict::Unsat,
            solhop_types::Solution::Unknown => Verdict::Unknown,
            solhop_types::Solution::Best(m) => Verdict::Best(m),
        }
    }
}

} // verus!
