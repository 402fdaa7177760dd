//! The three possible answers to whether a linear system can be solved.

use vstd::prelude::*;

verus! {

/// How many solutions a linear system has.
#[derive(Debug, Clone, Copy, PartialEq, Eq, Structural)]
pub enum Solvable {
    /// Exactly one solution.
    OneSolution,
    /// Infinitely many solutions.
    InfiniteSolutions,
    /// No solution at all.
    NoSolution,
}

} // verus!
