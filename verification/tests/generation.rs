use sumcheck::field::Fp;
use sumcheck::polynomial::generate_random_polynomial;
use sumcheck::utils;

const TEST_MODULUS: u64 = 97;

#[test]
fn test_generate_random_polynomial_basic() {
    let num_variables = 3;
    let max_degree = 5;
    let max_terms = 10;

    let poly = generate_random_polynomial(num_variables, max_degree, max_terms, TEST_MODULUS);

    assert!(
        poly.terms.len() <= max_terms as usize,
        "Polynomial should have at most max_terms terms"
    );

    for t in &poly.terms {
        assert!(t.coefficient.value != 0, "Coefficient should not be zero");

        for (var, deg) in &t.exponents {
            assert!(
                *deg > 0 && *deg <= max_degree,
                "Degree should be between 1 and max_degree"
            );
            assert!(
                *var <= num_variables,
                "Variable index should be within the number of variables"
            );
        }
    }
}

#[test]
fn test_generate_random_polynomial_minimum_input() {
    let num_variables = 1;
    let max_degree = 1;
    let max_terms = 1;

    let poly = generate_random_polynomial(num_variables, max_degree, max_terms, TEST_MODULUS);

    assert!(
        poly.terms.len() <= 1,
        "Polynomial should have at most 1 term"
    );

    if let Some(t) = poly.terms.get(0) {
        assert!(t.coefficient.value != 0, "Coefficient should not be zero");
        for (var, deg) in &t.exponents {
            assert!(*deg > 0 && *deg <= max_degree, "Degree should be 1");
            assert!(*var <= num_variables, "Variable index should be 0 or 1");
        }
    }
}

#[test]
fn test_generate_random_polynomial_maximum_input() {
    let num_variables = 10;
    let max_degree = 10;
    let max_terms = 100;

    let poly = generate_random_polynomial(num_variables, max_degree, max_terms, TEST_MODULUS);

    assert!(
        poly.terms.len() <= max_terms as usize,
        "Polynomial should have at most max_terms terms"
    );

    for t in &poly.terms {
        assert!(t.coefficient.value != 0, "Coefficient should not be zero");

        for (var, deg) in &t.exponents {
            assert!(
                *deg > 0 && *deg <= max_degree,
                "Degree should be between 1 and max_degree"
            );
            assert!(
                *var <= num_variables,
                "Variable index should be within the number of variables"
            );
        }
    }
}

#[test]
fn test_constant_term_only() {
    let num_variables = 1;
    let max_degree = 5;
    let max_terms = 1;

    let poly = generate_random_polynomial(num_variables, max_degree, max_terms, TEST_MODULUS);

    assert!(
        poly.terms.len() <= 1,
        "Polynomial should have at most 1 term"
    );

    if let Some(t) = poly.terms.get(0) {
        for (var, _) in &t.exponents {
            assert!(
                *var == 0 || *var == 1,
                "Variable should be either 0 (constant) or 1 (first variable)"
            );
        }
    }
}

#[test]
fn test_empty_polynomial() {
    let num_variables = 5;
    let max_degree = 5;
    let max_terms = 1;

    let poly = generate_random_polynomial(num_variables, max_degree, max_terms, TEST_MODULUS);

    assert!(
        poly.terms.len() <= 1,
        "Polynomial should have at most 1 term"
    );
}

/// The small fixed-prime generator: well formed, over the right modulus,
/// with every variable index in range and exponents within its bounds.
#[test]
fn fixed_prime_generator_structure() {
    for _ in 0..10 {
        let num_variables = 4;
        let poly = utils::generate_random_polynomial(num_variables);
        assert_eq!(poly.modulus, utils::PRIME);
        assert_eq!(poly.num_variables, num_variables);
        for t in &poly.terms {
            assert!(t.coefficient.value != 0);
            assert!(t.coefficient.value < utils::PRIME);
            for (var, deg) in &t.exponents {
                assert!(*var < num_variables);
                assert!(*deg >= 1 && *deg <= utils::MAX_DEGREE);
            }
        }
        // Monomials are pairwise distinct after merging.
        for i in 0..poly.terms.len() {
            for j in (i + 1)..poly.terms.len() {
                assert!(poly.terms[i].exponents != poly.terms[j].exponents);
            }
        }
    }
}

/// Uniform draws below a bound stay below it and are not constant.
#[test]
fn rand_below_stays_in_range() {
    let mut seen = [false; 7];
    for _ in 0..200 {
        let v = utils::rand_below(7);
        assert!(v < 7);
        seen[v as usize] = true;
    }
    let hit = seen.iter().filter(|s| **s).count();
    assert!(hit >= 2, "two hundred uniform draws cannot all coincide");
}

/// Distinct-index sampling feeds the generator; check it directly too.
#[test]
fn sampled_indices_are_distinct_and_bounded() {
    for amount in 1..=6usize {
        let v = utils::sample_distinct_indices(6, amount);
        assert_eq!(v.len(), amount);
        for i in 0..v.len() {
            assert!(v[i] < 6);
            for j in (i + 1)..v.len() {
                assert!(v[i] != v[j]);
            }
        }
    }
}

/// A generated polynomial evaluates like any other: its hypercube sum is a
/// reduced residue of its own modulus.
#[test]
fn generated_polynomial_sums_reduce() {
    for _ in 0..5 {
        let poly = generate_random_polynomial(3, 3, 8, 7);
        let sum = poly.sum_over_boolean_hypercube();
        assert!(sum.value < 7);
        assert_eq!(sum.modulus, 7);
        let _ = Fp::new(sum.value, 7);
    }
}
