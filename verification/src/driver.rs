//! The protocol driver: runs the rounds strictly in increasing variable
//! order between an honest prover and the verifier, then the terminal oracle
//! check. Any rejection aborts the run at once with the failing round and
//! reason.

use crate::checker::{row_sum, verifier_wf, Verifier};
use crate::errors::SumcheckError;
use crate::field::{fp_seq_wf, fp_vals, Fp};
use crate::polynomial::{hyper_sum, poly_eval, poly_wf, spec_degree_in_variable, Polynomial};
use crate::prover::{prover_wf, Prover};
use crate::term::Term;
use crate::unipoly::uni_eval;
use vstd::prelude::*;

verus! {

/// The overall outcome of a run.
#[derive(Clone, Copy, Debug, PartialEq, Eq, Structural)]
pub enum Verdict {
    /// Every round and the final check passed: the claimed sum is correct
    /// except with probability bounded by the soundness error.
    Accepted,
    /// The run aborted at `round` for `reason`.
    Rejected { round: usize, reason: SumcheckError },
}

/// Round consistency: a round polynomial that agrees with the partial
/// hypercube sums of an honest prover has `g(0) + g(1)` equal to the sum
/// over one more free variable — the expected value entering the round.
pub proof fn lemma_round_consistency(
    terms: Seq<Term>,
    ch: Seq<int>,
    k: nat,
    m: int,
    gterms: Seq<(u64, Fp)>,
)
    requires
        2 <= m,
        k >= 1,
        forall|x: int|
            0 <= x < m ==> uni_eval(gterms, x, m) == hyper_sum(terms, ch.push(x), (k - 1) as nat, m),
    ensures
        row_sum(gterms, m) == hyper_sum(terms, ch, k, m),
{
    assert(uni_eval(gterms, 0, m) == hyper_sum(terms, ch.push(0int), (k - 1) as nat, m));
    assert(uni_eval(gterms, 1, m) == hyper_sum(terms, ch.push(1int), (k - 1) as nat, m));
}

/// Runs the whole protocol: one round per variable, then the final oracle
/// check. Returns the verdict together with the full challenge vector the
/// verifier produced. With the honest prover built here, a correct claim is
/// always accepted; a wrong claim fails round zero's row-sum check
/// deterministically (or, with no variables at all, the final check).
pub fn run_protocol(polynomial: Polynomial, claimed_sum: Fp) -> (r: (Verdict, Vec<Fp>))
    requires
        poly_wf(polynomial),
        claimed_sum.wf(),
        claimed_sum.modulus == polynomial.modulus,
        forall|v: int|
            0 <= v < polynomial.num_variables ==> spec_degree_in_variable(polynomial.terms@, v)
                < usize::MAX,
    ensures
        ({
            let true_sum = hyper_sum(
                polynomial.terms@,
                Seq::<int>::empty(),
                polynomial.num_variables as nat,
                polynomial.modulus as int,
            );
            &&& (r.0 == Verdict::Accepted <==> claimed_sum.value == true_sum)
            &&& (claimed_sum.value == true_sum ==> r.1@.len() == polynomial.num_variables
                && fp_seq_wf(r.1@, polynomial.modulus))
            &&& (claimed_sum.value != true_sum && polynomial.num_variables >= 1 ==> r.0
                == (Verdict::Rejected { round: 0, reason: SumcheckError::RowSumMismatch }))
            &&& (claimed_sum.value != true_sum && polynomial.num_variables == 0 ==> r.0
                == (Verdict::Rejected { round: 0, reason: SumcheckError::FinalCheckMismatch }))
        }),
{
    let m = polynomial.modulus;
    let ghost mi = m as int;
    let ghost terms = polynomial.terms@;
    let n = polynomial.num_variables;
    let ghost true_sum = hyper_sum(terms, Seq::<int>::empty(), n as nat, mi);
    let prover = Prover::new_with_polynomial(polynomial);
    let mut verifier = Verifier::new(n, claimed_sum);
    let mut expected = claimed_sum;
    proof {
        assert(fp_vals(verifier.challenge_values@) =~= Seq::<int>::empty());
    }
    let mut i: usize = 0;
    while i < n
        invariant
            terms == polynomial.terms@,
            n == polynomial.num_variables,
            m == polynomial.modulus,
            prover_wf(prover),
            prover.polynomial.terms@ == terms,
            prover.polynomial.modulus == m,
            prover.num_variables == n,
            mi == m as int,
            claimed_sum.wf(),
            claimed_sum.modulus == m,
            true_sum == hyper_sum(terms, Seq::<int>::empty(), n as nat, mi),
            forall|v: int|
                0 <= v < n ==> spec_degree_in_variable(terms, v) < usize::MAX,
            verifier_wf(verifier),
            verifier.num_variables == n,
            verifier.expected_sum.modulus == m,
            verifier.expected_sum == expected,
            verifier.round == i,
            verifier.challenge_values@.len() == i,
            i <= n,
            expected.wf(),
            expected.modulus == m,
            i == 0 ==> expected == claimed_sum,
            i > 0 ==> claimed_sum.value == true_sum,
            claimed_sum.value == true_sum ==> expected.value == hyper_sum(
                terms,
                fp_vals(verifier.challenge_values@),
                (n - i) as nat,
                mi,
            ),
        decreases n - i,
    {
        let ghost ch_old = fp_vals(verifier.challenge_values@);
        let d = prover.polynomial.degree_in_variable(i);
        let g = prover.reduce_to_univariate(i, &verifier.challenge_values);
        proof {
            lemma_round_consistency(terms, ch_old, (n - i) as nat, mi, g.terms@);
        }
        match verifier.verify_round(&g, d, &expected) {
            Ok(next) => {
                proof {
                    // The round was accepted, so its row sum equals the
                    // expected value; with a correct claim the new expected
                    // value tracks the hypercube sum one variable deeper.
                    let c = verifier.challenge_values@.last();
                    assert(c.wf() && c.modulus == m);
                    assert(fp_vals(verifier.challenge_values@) =~= ch_old.push(
                        c.value as int,
                    ));
                    assert(next.value == uni_eval(g.terms@, c.value as int, mi));
                    if claimed_sum.value != true_sum {
                        // A wrong claim cannot survive round zero: the row
                        // sum is the true sum there, whatever the challenges.
                        assert(i == 0);
                        assert(ch_old =~= Seq::<int>::empty());
                        assert(row_sum(g.terms@, mi) == true_sum);
                        assert(expected.value == claimed_sum.value);
                        assert(false);
                    }
                }
                expected = next;
                i = i + 1;
            },
            Err(reason) => {
                proof {
                    assert(reason == SumcheckError::RowSumMismatch);
                    if claimed_sum.value == true_sum {
                        assert(row_sum(g.terms@, mi) == expected.value);
                        assert(false);
                    }
                    assert(i == 0);
                    assert(verifier.challenge_values@.len() == 0);
                }
                return (Verdict::Rejected { round: i, reason }, verifier.challenge_values);
            },
        }
    }
    proof {
        if claimed_sum.value != true_sum {
            assert(n == 0);
            assert(fp_vals(verifier.challenge_values@) =~= Seq::<int>::empty());
        }
        assert(hyper_sum(terms, fp_vals(verifier.challenge_values@), 0, mi) == poly_eval(
            terms,
            fp_vals(verifier.challenge_values@),
            mi,
        ));
    }
    match verifier.final_check(&prover.polynomial) {
        Ok(_) => (Verdict::Accepted, verifier.challenge_values),
        Err(reason) => {
            proof {
                assert(claimed_sum.value != true_sum);
                assert(n == 0);
            }
            (Verdict::Rejected { round: i, reason }, verifier.challenge_values)
        },
    }
}

} // verus!
