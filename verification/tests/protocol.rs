use sumcheck::driver::{run_protocol, Verdict};
use sumcheck::errors::SumcheckError;
use sumcheck::field::Fp;
use sumcheck::polynomial::{max_variables, Polynomial};
use sumcheck::prover::Prover;
use sumcheck::term::Term;
use sumcheck::unipoly::UniPoly;
use sumcheck::checker::Verifier;
use sumcheck::{MAX_DEGREE, MAX_NUM_VARIABLES, MAX_TERMS};

const TEST_MODULUS: u64 = 97;

fn term(coeff: u64, modulus: u64, exponents: Vec<(usize, u64)>) -> Term {
    Term { coefficient: Fp::new(coeff, modulus), exponents }
}

/// The worked two-variable example over the integers mod seven:
/// P = 3*x0 + 2*x0*x1.
fn worked_example() -> Polynomial {
    Polynomial::new(
        vec![term(3, 7, vec![(0, 1)]), term(2, 7, vec![(0, 1), (1, 1)])],
        2,
        7,
    )
    .unwrap()
}

#[test]
fn test_sumcheck_protocol() {
    let max_num_variables: usize = MAX_NUM_VARIABLES;
    let max_degree: u64 = MAX_DEGREE as u64;
    let max_terms: u64 = MAX_TERMS as u64;

    let prover = Prover::new(max_num_variables, max_degree, max_terms, TEST_MODULUS);
    println!("Generated Polynomial: {:?}", prover.polynomial.terms.len());

    let sum = prover.sum_over_all_inputs();
    println!("Prover calculated sum: {:?}", sum.value);

    let num_variables = prover.num_variables;

    let mut verifier = Verifier::new(num_variables, sum);
    let mut eval = sum;

    for i in 0..num_variables {
        println!("challenge: {:?}", verifier.challenge_values.len());
        let max_round_degree = prover.polynomial.degree_in_variable(i);
        let i_poly = prover.reduce_to_univariate(i, &verifier.challenge_values);
        if let Some(current_eval) = verifier.verify_and_challenge(&i_poly, max_round_degree, &eval)
        {
            println!("Round {} succeeded", i + 1);
            eval = current_eval;
        } else {
            assert!(false, "Verification failed at round {}", i);
        }
    }
    let init_poly = prover.polynomial;
    assert!(
        init_poly.evaluate(&verifier.challenge_values) == eval,
        "Initial evaluated value does not match the sum."
    );
}

#[test]
fn test_prover_with_given_polynomial() {
    let poly = Polynomial::new(
        vec![
            term(3, TEST_MODULUS, vec![(0, 3), (1, 1)]),
            term(3, TEST_MODULUS, vec![(0, 1), (2, 1)]),
            term(2, TEST_MODULUS, vec![(1, 1), (2, 1)]),
        ],
        3,
        TEST_MODULUS,
    )
    .unwrap();

    let prover = Prover::new_with_polynomial(poly);
    let num_variables = max_variables(&prover.polynomial);
    assert_eq!(num_variables, 3);

    println!(
        "Prover initialized with Polynomial: {:?}",
        prover.polynomial.terms.len()
    );

    let sum = prover.sum_over_all_inputs();
    println!("Prover calculated sum: {:?}", sum.value);

    let mut verifier = Verifier::new(num_variables, sum);
    let mut eval = sum;

    for i in 0..num_variables {
        println!("challenge: {:?}", verifier.challenge_values.len());
        let max_round_degree = prover.polynomial.degree_in_variable(i);
        let i_poly = prover.reduce_to_univariate(i, &verifier.challenge_values);
        if let Some(current_eval) = verifier.verify_and_challenge(&i_poly, max_round_degree, &eval)
        {
            println!("Round {} succeeded", i + 1);
            eval = current_eval;
        } else {
            assert!(false, "Verification failed at round {}", i);
        }
    }
    let init_poly = prover.polynomial;
    assert!(
        init_poly.evaluate(&verifier.challenge_values) == eval,
        "Initial evaluated value does not match the sum."
    );
}

/// The worked example end to end: hypercube values, the true sum, round
/// zero's polynomial, and both verdicts.
#[test]
fn worked_example_values_and_verdicts() {
    let poly = worked_example();

    let point = |a: u64, b: u64| vec![Fp::new(a, 7), Fp::new(b, 7)];
    assert_eq!(poly.evaluate(&point(0, 0)).value, 0);
    assert_eq!(poly.evaluate(&point(0, 1)).value, 0);
    assert_eq!(poly.evaluate(&point(1, 0)).value, 3);
    assert_eq!(poly.evaluate(&point(1, 1)).value, 5);

    // True sum: 0 + 0 + 3 + 5 = 8 = 1 mod 7.
    let sum = poly.sum_over_boolean_hypercube();
    assert_eq!(sum.value, 1);

    // Round zero: g_0(X) = 8X = X mod 7.
    let prover = Prover::new_with_polynomial(worked_example());
    let g0 = prover.reduce_to_univariate(0, &Vec::new());
    assert_eq!(g0.evaluate(&Fp::new(0, 7)).value, 0);
    assert_eq!(g0.evaluate(&Fp::new(1, 7)).value, 1);
    assert_eq!(g0.evaluate(&Fp::new(2, 7)).value, 2);
    assert!(g0.degree() <= 1);

    // An honest run with the correct claim is accepted.
    let (verdict, challenges) = run_protocol(worked_example(), Fp::new(1, 7));
    assert_eq!(verdict, Verdict::Accepted);
    assert_eq!(challenges.len(), 2);

    // Claiming 2 instead fails round zero at once: g_0(0) + g_0(1) = 1 != 2.
    let (verdict, _) = run_protocol(worked_example(), Fp::new(2, 7));
    assert_eq!(
        verdict,
        Verdict::Rejected { round: 0, reason: SumcheckError::RowSumMismatch }
    );
}

/// Completeness: a correct claim is accepted on every run, whatever the
/// challenges drawn.
#[test]
fn completeness_over_many_runs() {
    for _ in 0..20 {
        let prover = Prover::new(3, 3, 6, 7);
        let sum = prover.sum_over_all_inputs();
        let (verdict, challenges) = run_protocol(prover.polynomial, sum);
        assert_eq!(verdict, Verdict::Accepted);
        assert_eq!(challenges.len(), prover.num_variables);
        for c in &challenges {
            assert!(c.value < 7);
        }
    }
}

/// Round consistency: for the honest prover, g_i(0) + g_i(1) equals the
/// expected value entering round i, in every round of every run.
#[test]
fn round_consistency_for_honest_prover() {
    for _ in 0..10 {
        let prover = Prover::new(3, 3, 6, 97);
        let sum = prover.sum_over_all_inputs();
        let mut verifier = Verifier::new(prover.num_variables, sum);
        let mut eval = sum;
        for i in 0..prover.num_variables {
            let g = prover.reduce_to_univariate(i, &verifier.challenge_values);
            let zero = Fp::new(0, 97);
            let one = Fp::new(1, 97);
            let row = g.evaluate(&zero).add(g.evaluate(&one));
            assert_eq!(row.value, eval.value);
            assert!(verifier.verify_polynomial(&g, &eval));
            let d = prover.polynomial.degree_in_variable(i);
            eval = verifier.verify_and_challenge(&g, d, &eval).unwrap();
        }
    }
}

/// Immediate rejection: a wrong claimed sum fails round zero's row-sum check
/// deterministically, not merely with high probability.
#[test]
fn wrong_claim_rejected_at_round_zero_every_time() {
    for _ in 0..50 {
        let prover = Prover::new(2, 3, 5, 7);
        let sum = prover.sum_over_all_inputs();
        let wrong = Fp::new(sum.value + 1, 7);
        assert_ne!(wrong.value, sum.value);
        let (verdict, _) = run_protocol(prover.polynomial, wrong);
        assert_eq!(
            verdict,
            Verdict::Rejected { round: 0, reason: SumcheckError::RowSumMismatch }
        );
    }
}

/// Soundness, statistically: a cheating prover that fakes round zero of the
/// claim sum = 2 for P = x0 over the integers mod 7 survives the final check
/// only when the challenge hits the single root of its lie, so at most a
/// fraction 1/7 of many trials may be accepted (the degree bound over the
/// field size), up to sampling noise.
#[test]
fn soundness_statistical_small_field() {
    let trials = 700;
    let mut accepted = 0;
    for _ in 0..trials {
        let poly = Polynomial::new(vec![term(1, 7, vec![(0, 1)])], 1, 7).unwrap();
        // True sum is 1; the cheating claim is 2. The forged round
        // polynomial 3X + 3 has row sum 3 + 6 = 2, so round zero passes;
        // the final check then compares 3r + 3 with the true value r.
        let claimed = Fp::new(2, 7);
        let mut verifier = Verifier::new(1, claimed);
        let forged = UniPoly { terms: vec![(0, Fp::new(3, 7)), (1, Fp::new(3, 7))], modulus: 7 };
        let next = verifier.verify_round(&forged, 1, &claimed);
        assert!(next.is_ok(), "the forged row sum matches the claim");
        if verifier.final_check(&poly).is_ok() {
            accepted += 1;
        }
    }
    // Mean 100 of 700; far beyond ten standard deviations either way would
    // signal a broken check.
    assert!(accepted >= 1, "the forgery should sometimes survive");
    assert!(accepted <= 250, "far too many forgeries accepted: {}", accepted);
}

/// The verifier rejects a round polynomial whose degree exceeds the declared
/// bound, even when its row sum is right.
#[test]
fn degree_bound_is_enforced() {
    // g(X) = 4X^2 over mod 7: g(0) + g(1) = 4; claim 4 with bound 1.
    let claimed = Fp::new(4, 7);
    let mut verifier = Verifier::new(1, claimed);
    let g = UniPoly { terms: vec![(2, Fp::new(4, 7))], modulus: 7 };
    let r = verifier.verify_round(&g, 1, &claimed);
    assert_eq!(r, Err(SumcheckError::DegreeExceeded));
    // The same polynomial passes under a bound that admits it.
    let r = verifier.verify_round(&g, 2, &claimed);
    assert!(r.is_ok());
}

/// With no variables there are no rounds; a wrong claim still fails, at the
/// terminal oracle check.
#[test]
fn final_check_mismatch_without_rounds() {
    let poly = Polynomial::new(Vec::new(), 0, 7).unwrap();
    let (verdict, challenges) = run_protocol(poly, Fp::new(3, 7));
    assert_eq!(
        verdict,
        Verdict::Rejected { round: 0, reason: SumcheckError::FinalCheckMismatch }
    );
    assert_eq!(challenges.len(), 0);

    let poly = Polynomial::new(Vec::new(), 0, 7).unwrap();
    let (verdict, _) = run_protocol(poly, Fp::new(0, 7));
    assert_eq!(verdict, Verdict::Accepted);
}

/// Challenges drawn by the verifier are reduced residues and are appended
/// one per round.
#[test]
fn challenges_stay_in_the_field() {
    let mut verifier = Verifier::new(64, Fp::new(0, 5));
    for i in 0..64 {
        let c = verifier.choose_challenge();
        assert!(c.value < 5);
        assert_eq!(verifier.challenge_values.len(), i + 1);
    }
    let mut seen_small = false;
    for c in &verifier.challenge_values {
        assert!(c.value < 5);
        if c.value < 4 {
            seen_small = true;
        }
    }
    assert!(seen_small, "sixty-four uniform draws below five cannot all be four");
}
