//! The verifier's side of the protocol: it holds the claimed sum, the
//! running expected value, the round index and the challenges it has drawn,
//! checks each round's polynomial, and performs the terminal oracle check.

use crate::errors::SumcheckError;
use crate::field::{fadd, fp_seq_wf, fp_vals, Fp};
use crate::polynomial::{poly_eval, poly_wf, Polynomial};
use crate::unipoly::{uni_degree, uni_eval, uni_wf, UniPoly};
use crate::utils::rand_below;
use vstd::prelude::*;

verus! {

/// The verifier's state. It advances by exactly one round per accepted
/// check; the challenge history grows by one element each time and is never
/// rewritten.
pub struct Verifier {
    pub num_variables: usize,
    pub expected_sum: Fp,
    pub challenge_values: Vec<Fp>,
    pub round: usize,
}

/// The expected value is a reduced residue, every challenge shares its
/// modulus, and the round index counts the challenges drawn so far.
pub open spec fn verifier_wf(v: Verifier) -> bool {
    &&& v.expected_sum.wf()
    &&& fp_seq_wf(v.challenge_values@, v.expected_sum.modulus)
    &&& v.round == v.challenge_values@.len()
    &&& v.round <= v.num_variables
}

/// The row sum of a round polynomial: its value at zero plus its value at
/// one, mod `m`.
pub open spec fn row_sum(terms: Seq<(u64, Fp)>, m: int) -> int {
    fadd(uni_eval(terms, 0, m), uni_eval(terms, 1, m), m)
}

impl Verifier {
    /// A verifier expecting `expected_sum` as the sum over the hypercube of
    /// an `num_variables`-variable polynomial. No challenges drawn yet.
    pub fn new(num_variables: usize, expected_sum: Fp) -> (r: Verifier)
        requires
            expected_sum.wf(),
        ensures
            r.num_variables == num_variables,
            r.expected_sum == expected_sum,
            r.challenge_values@.len() == 0,
            r.round == 0,
            verifier_wf(r),
    {
        Verifier { num_variables, expected_sum, challenge_values: Vec::new(), round: 0 }
    }

    /// Draws a uniform field element from the unpredictable source, appends
    /// it to the challenge history and advances the round index.
    pub fn choose_challenge(&mut self) -> (c: Fp)
        requires
            verifier_wf(*old(self)),
            old(self).round < old(self).num_variables,
        ensures
            verifier_wf(*final(self)),
            c.wf(),
            c.modulus == old(self).expected_sum.modulus,
            final(self).challenge_values@ == old(self).challenge_values@.push(c),
            final(self).round == old(self).round + 1,
            final(self).num_variables == old(self).num_variables,
            final(self).expected_sum == old(self).expected_sum,
    {
        let m = self.expected_sum.modulus;
        let c = Fp { value: rand_below(m), modulus: m };
        self.challenge_values.push(c);
        self.round = self.round + 1;
        c
    }

    /// The row-sum check of one round: the received polynomial evaluated at
    /// zero and at one must sum to the expected value entering the round.
    pub fn verify_polynomial(&self, polynomial: &UniPoly, prev_eval: &Fp) -> (r: bool)
        requires
            verifier_wf(*self),
            uni_wf(*polynomial),
            polynomial.modulus == self.expected_sum.modulus,
            prev_eval.wf(),
            prev_eval.modulus == self.expected_sum.modulus,
        ensures
            r == (row_sum(polynomial.terms@, self.expected_sum.modulus as int)
                == prev_eval.value),
    {
        let m = self.expected_sum.modulus;
        let sum_at_0 = polynomial.evaluate(&Fp::zero(m));
        let sum_at_1 = polynomial.evaluate(&Fp::one(m));
        let verified = sum_at_0.add(sum_at_1);
        verified.value == prev_eval.value
    }

    /// One full round. In order: reject `DegreeExceeded` if the received
    /// polynomial's degree exceeds `max_degree` (a bound the caller derives
    /// from the statement being proved, never from the message); reject
    /// `RowSumMismatch` if the row sum differs from `expected`; otherwise
    /// draw a challenge, record it, and return the polynomial's value there
    /// as the expected value of the next round. A rejection leaves the
    /// verifier unchanged.
    pub fn verify_round(&mut self, polynomial: &UniPoly, max_degree: u64, expected: &Fp) -> (r:
        Result<Fp, SumcheckError>)
        requires
            verifier_wf(*old(self)),
            uni_wf(*polynomial),
            polynomial.modulus == old(self).expected_sum.modulus,
            expected.wf(),
            expected.modulus == old(self).expected_sum.modulus,
            old(self).round < old(self).num_variables,
        ensures
            verifier_wf(*final(self)),
            final(self).num_variables == old(self).num_variables,
            final(self).expected_sum.modulus == old(self).expected_sum.modulus,
            uni_degree(polynomial.terms@) > max_degree ==> r == Result::<
                Fp,
                SumcheckError,
            >::Err(SumcheckError::DegreeExceeded) && *final(self) == *old(self),
            uni_degree(polynomial.terms@) <= max_degree && row_sum(
                polynomial.terms@,
                old(self).expected_sum.modulus as int,
            ) != expected.value ==> r == Result::<Fp, SumcheckError>::Err(
                SumcheckError::RowSumMismatch,
            ) && *final(self) == *old(self),
            uni_degree(polynomial.terms@) <= max_degree && row_sum(
                polynomial.terms@,
                old(self).expected_sum.modulus as int,
            ) == expected.value ==> {
                &&& final(self).challenge_values@.len() == old(self).challenge_values@.len() + 1
                &&& final(self).challenge_values@.drop_last() == old(self).challenge_values@
                &&& final(self).round == old(self).round + 1
                &&& final(self).expected_sum.value == uni_eval(
                    polynomial.terms@,
                    final(self).challenge_values@.last().value as int,
                    old(self).expected_sum.modulus as int,
                )
                &&& r == Result::<Fp, SumcheckError>::Ok(final(self).expected_sum)
            },
    {
        if polynomial.degree() > max_degree {
            return Err(SumcheckError::DegreeExceeded);
        }
        if !self.verify_polynomial(polynomial, expected) {
            return Err(SumcheckError::RowSumMismatch);
        }
        let c = self.choose_challenge();
        let next = polynomial.evaluate(&c);
        self.expected_sum = next;
        proof {
            assert(self.challenge_values@.drop_last() =~= old(self).challenge_values@);
        }
        Ok(next)
    }

    /// One full round, reporting only whether it was accepted: the
    /// check-then-challenge entry point for callers that do not care which
    /// check failed.
    pub fn verify_and_challenge(&mut self, polynomial: &UniPoly, max_degree: u64, expected: &Fp)
        -> (r: Option<Fp>)
        requires
            verifier_wf(*old(self)),
            uni_wf(*polynomial),
            polynomial.modulus == old(self).expected_sum.modulus,
            expected.wf(),
            expected.modulus == old(self).expected_sum.modulus,
            old(self).round < old(self).num_variables,
        ensures
            verifier_wf(*final(self)),
            final(self).num_variables == old(self).num_variables,
            final(self).expected_sum.modulus == old(self).expected_sum.modulus,
            r is Some <==> uni_degree(polynomial.terms@) <= max_degree && row_sum(
                polynomial.terms@,
                old(self).expected_sum.modulus as int,
            ) == expected.value,
            r is None ==> *final(self) == *old(self),
            r is Some ==> {
                &&& final(self).challenge_values@.len() == old(self).challenge_values@.len() + 1
                &&& final(self).challenge_values@.drop_last() == old(self).challenge_values@
                &&& final(self).round == old(self).round + 1
                &&& final(self).expected_sum.value == uni_eval(
                    polynomial.terms@,
                    final(self).challenge_values@.last().value as int,
                    old(self).expected_sum.modulus as int,
                )
                &&& r == Option::Some(final(self).expected_sum)
            },
    {
        match self.verify_round(polynomial, max_degree, expected) {
            Ok(next) => Some(next),
            Err(_) => None,
        }
    }

    /// The terminal oracle check: the original polynomial, evaluated at the
    /// full challenge vector, must equal the expected value left by the last
    /// round. A production system would substitute a commitment opening
    /// here.
    pub fn final_check(&self, polynomial: &Polynomial) -> (r: Result<(), SumcheckError>)
        requires
            verifier_wf(*self),
            poly_wf(*polynomial),
            polynomial.modulus == self.expected_sum.modulus,
            self.challenge_values@.len() == polynomial.num_variables,
        ensures
            r is Ok <==> poly_eval(
                polynomial.terms@,
                fp_vals(self.challenge_values@),
                self.expected_sum.modulus as int,
            ) == self.expected_sum.value,
            r is Err ==> r == Result::<(), SumcheckError>::Err(SumcheckError::FinalCheckMismatch),
    {
        let v = polynomial.evaluate(&self.challenge_values);
        if v.value == self.expected_sum.value {
            Ok(())
        } else {
            Err(SumcheckError::FinalCheckMismatch)
        }
    }
}

} // verus!
