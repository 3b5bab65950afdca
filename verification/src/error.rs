//! The ways in which a kernel gives up.

use vstd::prelude::*;

verus! {

/// Why a kernel gave up.
#[derive(Clone, Copy, Debug, PartialEq, Eq, Structural)]
pub enum KernelError {
    /// No pivot candidate of `column` exceeds the zero threshold.
    SingularMatrix { column: usize },
    /// A triangular solver was handed a matrix that is not triangular.
    PreconditionViolation,
    /// The iteration took `iterations` steps without converging.
    NonConvergence { iterations: usize },
    /// A vector that is zero, or numerically zero, was to be normalized.
    DegenerateVector,
    /// Of the candidate and the reference exactly one failed on the same input.
    ReferenceMismatch,
}

} // verus!
