//! The error taxonomy of the protocol.

use vstd::prelude::*;

verus! {

/// Everything that can end a run early: a malformed input polynomial, or one
/// of the verifier's three rejections. All of them are terminal; the core
/// never retries.
#[derive(Clone, Copy, Debug, PartialEq, Eq, Structural)]
pub enum SumcheckError {
    /// A construction-time invariant fails: a duplicate monomial left
    /// unmerged, a zero coefficient retained, or a zero exponent present
    /// explicitly.
    MalformedPolynomial,
    /// A round's polynomial exceeds the declared degree bound for its
    /// variable.
    DegreeExceeded,
    /// A round's polynomial fails `g(0) + g(1) == expected`.
    RowSumMismatch,
    /// The terminal evaluation of the original polynomial disagrees with the
    /// last round's expected value.
    FinalCheckMismatch,
}

} // verus!
