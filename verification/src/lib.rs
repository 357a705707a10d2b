//! Core of the sum-check interactive proof protocol: a prover convinces a
//! verifier that a claimed field value equals the sum of a sparse multivariate
//! polynomial over the boolean hypercube, in one round per variable.

pub mod driver;
pub mod errors;
pub mod field;
pub mod polynomial;
pub mod prover;
pub mod term;
pub mod unipoly;
pub mod utils;
pub mod checker;

use vstd::prelude::*;

verus! {

/// Default degree bound used by the demonstration polynomial generator.
pub const MAX_DEGREE: usize = 3;

/// Default bound on the number of terms of a generated polynomial.
pub const MAX_TERMS: usize = 10;

/// Default variable count of a generated polynomial.
pub const MAX_NUM_VARIABLES: usize = 2;

} // verus!
