use sumcheck::errors::SumcheckError;
use sumcheck::field::Fp;
use sumcheck::polynomial::{count_active_variables, max_variables, Polynomial};
use sumcheck::prover::Prover;
use sumcheck::term::Term;
use sumcheck::unipoly::UniPoly;

fn term(coeff: u64, modulus: u64, exponents: Vec<(usize, u64)>) -> Term {
    Term { coefficient: Fp::new(coeff, modulus), exponents }
}

#[test]
fn field_arithmetic_reduces() {
    let a = Fp::new(5, 7);
    let b = Fp::new(4, 7);
    assert_eq!(a.add(b).value, 2);
    assert_eq!(a.mul(b).value, 6);
    assert_eq!(a.pow(2).value, 4);
    assert_eq!(Fp::new(10, 7).value, 3);
    assert_eq!(Fp::zero(7).value, 0);
    assert_eq!(Fp::one(7).value, 1);
    assert_eq!(a.pow(0).value, 1);
}

#[test]
fn term_evaluate_exact_value() {
    // 3 * x0^2 * x2 at (2, 5, 4) mod 7: 3 * 4 * 4 = 48 = 6 mod 7.
    let t = term(3, 7, vec![(0, 2), (2, 1)]);
    let point = vec![Fp::new(2, 7), Fp::new(5, 7), Fp::new(4, 7)];
    assert_eq!(t.evaluate(&point).value, 6);
}

#[test]
fn term_exponent_lookup() {
    let t = term(3, 7, vec![(1, 4), (3, 2)]);
    assert_eq!(t.exponent_of(0), 0);
    assert_eq!(t.exponent_of(1), 4);
    assert_eq!(t.exponent_of(3), 2);
    assert!(t.same_monomial(&term(5, 7, vec![(1, 4), (3, 2)])));
    assert!(!t.same_monomial(&term(3, 7, vec![(1, 4)])));
}

#[test]
fn construction_rejects_malformed_polynomials() {
    // Duplicate monomials not merged.
    let r = Polynomial::new(
        vec![term(1, 7, vec![(0, 1)]), term(2, 7, vec![(0, 1)])],
        1,
        7,
    );
    assert_eq!(r.err(), Some(SumcheckError::MalformedPolynomial));

    // A zero coefficient retained.
    let r = Polynomial::new(vec![term(0, 7, vec![(0, 1)])], 1, 7);
    assert_eq!(r.err(), Some(SumcheckError::MalformedPolynomial));

    // A monomial exponent of zero present explicitly.
    let r = Polynomial::new(vec![term(1, 7, vec![(0, 0)])], 1, 7);
    assert_eq!(r.err(), Some(SumcheckError::MalformedPolynomial));

    // Entries out of canonical ascending variable order.
    let r = Polynomial::new(vec![term(1, 7, vec![(1, 1), (0, 1)])], 2, 7);
    assert_eq!(r.err(), Some(SumcheckError::MalformedPolynomial));

    // A variable index beyond the declared count.
    let r = Polynomial::new(vec![term(1, 7, vec![(2, 1)])], 2, 7);
    assert_eq!(r.err(), Some(SumcheckError::MalformedPolynomial));

    // The same terms in order are accepted.
    let r = Polynomial::new(vec![term(1, 7, vec![(0, 1), (1, 1)])], 2, 7);
    assert!(r.is_ok());
}

#[test]
fn from_terms_merges_and_drops_zero_sums() {
    // 3 + 4 = 0 mod 7: the merged monomial disappears entirely.
    let p = Polynomial::from_terms(
        vec![term(3, 7, vec![(0, 1)]), term(4, 7, vec![(0, 1)])],
        1,
        7,
    );
    assert_eq!(p.terms.len(), 0);

    // 3 + 5 = 1 mod 7, and the distinct monomial is kept alongside.
    let p = Polynomial::from_terms(
        vec![
            term(3, 7, vec![(0, 1)]),
            term(5, 7, vec![(0, 1)]),
            term(2, 7, vec![(1, 2)]),
        ],
        2,
        7,
    );
    assert_eq!(p.terms.len(), 2);
    for t in &p.terms {
        if t.exponents == vec![(0, 1)] {
            assert_eq!(t.coefficient.value, 1);
        } else {
            assert_eq!(t.exponents, vec![(1, 2)]);
            assert_eq!(t.coefficient.value, 2);
        }
    }
}

#[test]
fn degree_in_variable_is_the_maximum_exponent() {
    let p = Polynomial::new(
        vec![
            term(3, 7, vec![(0, 3), (1, 1)]),
            term(2, 7, vec![(0, 1), (2, 5)]),
        ],
        3,
        7,
    )
    .unwrap();
    assert_eq!(p.degree_in_variable(0), 3);
    assert_eq!(p.degree_in_variable(1), 1);
    assert_eq!(p.degree_in_variable(2), 5);
    assert_eq!(p.degree_in_variable(3), 0);
}

#[test]
fn variable_counts_follow_the_largest_index() {
    let p = Polynomial::new(
        vec![term(1, 7, vec![(0, 1)]), term(1, 7, vec![(4, 2)])],
        5,
        7,
    )
    .unwrap();
    assert_eq!(max_variables(&p), 5);
    assert_eq!(count_active_variables(&p.terms), 5);

    // An empty list still reports one variable: the count is one more than
    // the largest index, and the default index is zero.
    let empty: Vec<Term> = Vec::new();
    assert_eq!(count_active_variables(&empty), 1);
}

#[test]
fn unipoly_dense_conversion_and_evaluation() {
    // 1 + 2X^2 mod 7 from the dense vector [1, 0, 2].
    let coeffs = vec![Fp::new(1, 7), Fp::new(0, 7), Fp::new(2, 7)];
    let g = UniPoly::from_coefficients_vec(coeffs, 7);
    assert_eq!(g.terms.len(), 2);
    assert_eq!(g.degree(), 2);
    // g(3) = 1 + 2 * 9 = 19 = 5 mod 7.
    assert_eq!(g.evaluate(&Fp::new(3, 7)).value, 5);
    assert_eq!(g.evaluate(&Fp::new(0, 7)).value, 1);

    let zero = UniPoly::from_coefficients_vec(Vec::new(), 7);
    assert_eq!(zero.degree(), 0);
    assert_eq!(zero.evaluate(&Fp::new(4, 7)).value, 0);
}

#[test]
fn hypercube_sum_matches_direct_enumeration() {
    // P = 3*x0^3*x1 + 3*x0*x2 + 2*x1*x2 mod 97, summed over {0,1}^3 by
    // hand: P(1,1,0) = 3, P(1,0,1) = 3, P(0,1,1) = 2, P(1,1,1) = 8.
    let p = Polynomial::new(
        vec![
            term(3, 97, vec![(0, 3), (1, 1)]),
            term(3, 97, vec![(0, 1), (2, 1)]),
            term(2, 97, vec![(1, 1), (2, 1)]),
        ],
        3,
        97,
    )
    .unwrap();
    assert_eq!(p.sum_over_boolean_hypercube().value, 16);

    let prover = Prover::new_with_polynomial(p);
    assert_eq!(prover.sum_over_all_inputs().value, 16);
}

#[test]
fn combinations_enumerate_bits_in_order() {
    let combos = Prover::generate_combinations(3, 7);
    assert_eq!(combos.len(), 8);
    for assignment in &combos {
        assert_eq!(assignment.len(), 3);
        for v in assignment {
            assert!(v.value == 0 || v.value == 1);
        }
    }
    // Entry five is 101 in binary, least significant bit first.
    assert_eq!(combos[5][0].value, 1);
    assert_eq!(combos[5][1].value, 0);
    assert_eq!(combos[5][2].value, 1);
    // Summing evaluations over the enumerated cube matches the recursive sum.
    let p = Polynomial::new(
        vec![term(3, 7, vec![(0, 1)]), term(2, 7, vec![(0, 1), (1, 1)])],
        2,
        7,
    )
    .unwrap();
    let mut acc = Fp::zero(7);
    for assignment in &Prover::generate_combinations(2, 7) {
        acc = acc.add(p.evaluate(assignment));
    }
    assert_eq!(acc.value, p.sum_over_boolean_hypercube().value);
}
