//! Random sampling — the one place the protocol touches an unpredictable
//! source — and a small demonstration polynomial generator over a fixed
//! prime.

use crate::field::Fp;
use crate::polynomial::{poly_wf, Polynomial};
use crate::term::{monomial_vars_below, term_wf, Term};
use vstd::pervasive::VecAdditionalExecFns;
use vstd::prelude::*;

verus! {

/// The modulus the demonstration generator works over.
pub const PRIME: u64 = 7;

/// Most terms the demonstration generator emits in its first pass.
pub const MAX_TERMS: u64 = 2;

/// Largest exponent the demonstration generator gives a padding term.
pub const MAX_DEGREE: u64 = 3;

/// Largest coefficient the demonstration generator gives a padding term.
pub const MAX_COEFF: u64 = 5;

/// Relies on rand::Rng::gen_range over an inclusive integer range: the
/// result lies in the range. It panics only on an empty range, which the
/// precondition rules out.
#[verifier::external_body]
pub fn rand_range_inclusive(lo: u64, hi: u64) -> (r: u64)
    requires
        lo <= hi,
    ensures
        lo <= r <= hi,
{
    rand::Rng::gen_range(&mut rand::thread_rng(), lo..=hi)
}

/// A uniform residue below `modulus`.
pub fn rand_below(modulus: u64) -> (r: u64)
    requires
        1 <= modulus,
    ensures
        r < modulus,
{
    rand_range_inclusive(0, modulus - 1)
}

/// Relies on rand::Rng::gen at `bool`: a coin flip. Nothing is promised of
/// the outcome.
#[verifier::external_body]
pub fn rand_coin() -> bool {
    rand::Rng::gen::<bool>(&mut rand::thread_rng())
}

/// Relies on rand::seq::index::sample: `amount` distinct indices drawn from
/// `0..length` without replacement. It panics only when `amount > length`,
/// which the precondition rules out.
#[verifier::external_body]
pub fn sample_distinct_indices(length: usize, amount: usize) -> (r: Vec<usize>)
    requires
        amount <= length,
    ensures
        r@.len() == amount,
        forall|i: int| 0 <= i < r@.len() ==> (#[trigger] r@[i]) < length,
        forall|i: int, j: int| 0 <= i < j < r@.len() ==> r@[i] != r@[j],
{
    rand::seq::index::sample(&mut rand::thread_rng(), length, amount).into_vec()
}

/// Whether `x` occurs in the list of indices.
fn contains_index(indices: &Vec<usize>, x: usize) -> (r: bool)
    ensures
        r == (exists|i: int| 0 <= i < indices@.len() && (#[trigger] indices@[i]) == x),
{
    let mut i: usize = 0;
    while i < indices.len()
        invariant
            i <= indices@.len(),
            forall|l: int| 0 <= l < i ==> (#[trigger] indices@[l]) != x,
        decreases indices@.len() - i,
    {
        if indices[i] == x {
            return true;
        }
        i = i + 1;
    }
    false
}

/// A random polynomial over `num_variables` variables mod `PRIME`: a few
/// terms over random distinct variables with exponents one or two, then one
/// extra term for each variable not yet used. Equal monomials merge at
/// construction, so the result is always well formed.
pub fn generate_random_polynomial(num_variables: usize) -> (r: Polynomial)
    requires
        1 <= num_variables,
        num_variables + 2 < usize::MAX,
    ensures
        poly_wf(r),
        r.modulus == PRIME,
        r.num_variables == num_variables,
{
    let mut raw: Vec<Term> = Vec::new();
    let mut used: Vec<bool> = Vec::new();
    while used.len() < num_variables
        invariant
            used@.len() <= num_variables,
        decreases num_variables - used@.len(),
    {
        used.push(false);
    }
    let num_terms = rand_range_inclusive(1, MAX_TERMS);
    let mut t: u64 = 0;
    while t < num_terms
        invariant
            1 <= num_variables,
            num_variables + 2 < usize::MAX,
            used@.len() == num_variables,
            t <= num_terms,
            forall|q: int|
                0 <= q < raw@.len() ==> term_wf(#[trigger] raw@[q], PRIME)
                    && monomial_vars_below(raw@[q].exponents@, num_variables as int),
        decreases num_terms - t,
    {
        let amount_raw = rand_range_inclusive(1, num_variables as u64);
        let amount = amount_raw as usize;
        let vars_in_term = sample_distinct_indices(num_variables, amount);
        let mut exponents: Vec<(usize, u64)> = Vec::new();
        let mut v: usize = 0;
        while v < num_variables
            invariant
                used@.len() == num_variables,
                v <= num_variables,
                forall|j: int| 0 <= j < exponents@.len() ==> (#[trigger] exponents@[j]).0 < v,
                forall|j: int, l: int|
                    0 <= j < l < exponents@.len() ==> (#[trigger] exponents@[j]).0 < (
                    #[trigger] exponents@[l]).0,
                forall|j: int|
                    0 <= j < exponents@.len() ==> 1 <= (#[trigger] exponents@[j]).1
                        && exponents@[j].0 < num_variables,
            decreases num_variables - v,
        {
            if contains_index(&vars_in_term, v) {
                let degree = rand_range_inclusive(1, 2);
                exponents.push((v, degree));
                used.set(v, true);
            }
            v = v + 1;
        }
        let coefficient = Fp::new(rand_below(PRIME), PRIME);
        raw.push(Term { coefficient, exponents });
        t = t + 1;
    }
    let mut v: usize = 0;
    while v < num_variables
        invariant
            1 <= num_variables,
            used@.len() == num_variables,
            v <= num_variables,
            forall|q: int|
                0 <= q < raw@.len() ==> term_wf(#[trigger] raw@[q], PRIME)
                    && monomial_vars_below(raw@[q].exponents@, num_variables as int),
        decreases num_variables - v,
    {
        if !used[v] {
            let degree = rand_range_inclusive(1, MAX_DEGREE);
            let coefficient = Fp::new(rand_range_inclusive(1, MAX_COEFF), PRIME);
            let mut exponents: Vec<(usize, u64)> = Vec::new();
            exponents.push((v, degree));
            raw.push(Term { coefficient, exponents });
        }
        v = v + 1;
    }
    Polynomial::from_terms(raw, num_variables, PRIME)
}

} // verus!
