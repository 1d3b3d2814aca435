//! Staged circuit synthesis core.
//!
//! A circuit with a bounded number of multiplication gates is built as an
//! ordered chain of stages, each confined to a disjoint contiguous window of
//! the shared gate budget. For every window the library produces closed-form
//! selector polynomials enforcing "every gate outside the window is zero", so
//! that each stage's partial witness can be committed separately and checked
//! by polynomial identities instead of by re-synthesizing the whole circuit.

use vstd::prelude::*;

pub mod circuits;
pub mod components;
pub mod drivers;
pub mod field;
pub mod poly;
pub mod selectors;
pub mod staging;

verus! {

/// Failure of a synthesis operation. There is no local recovery: any failure
/// aborts the enclosing synthesis call.
#[derive(Clone, Copy, Debug, PartialEq, Eq, Structural)]
pub enum Error {
    /// A window or cumulative allocation exceeds the rank's gate budget.
    /// Carries the budget that was exceeded.
    MultiplicationBoundExceeded(usize),
    /// A caller-supplied sequence does not match an expected fixed length.
    /// Carries the expected length and the actual length.
    LengthMismatch(usize, usize),
}

} // verus!
