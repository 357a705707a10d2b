//! The prover's side of the protocol: it owns the multivariate polynomial
//! and, for each round, collapses it to the univariate polynomial in the
//! round's variable, summing out the still-free variables over {0, 1}.

use crate::field::{
    fadd, fmul, fpow, fp_seq_wf, fp_vals, lemma_fmul_assoc, lemma_fmul_exchange, lemma_fmul_one,
    lemma_fpow_base_mod, lemma_fpow_one_base, lemma_mod_identity, Fp,
};
use crate::polynomial::{
    hyper_sum, lemma_degree_in_variable_bound, lemma_hyper_sum_empty, lemma_hyper_sum_linear,
    lemma_term_hyper_sum_factors, ones, poly_wf, spec_degree_in_variable, term_hyper_sum,
    untouched_count, Polynomial,
};
use crate::term::{
    exp_in_pairs, lemma_exp_in_pairs, lemma_prod_pairs_range, monomial_wf, prod_pairs, term_eval,
    touched,
};
use crate::unipoly::{
    dense_eval, lemma_dense_eval_update, lemma_dense_eval_zero, uni_degree, uni_eval, uni_wf,
    UniPoly,
};
use vstd::arithmetic::div_mod::lemma_div_denominator;
use vstd::arithmetic::power2::{
    lemma2_to64, lemma_pow2_adds, lemma_pow2_pos, lemma_pow2_strictly_increases, pow2,
};
use vstd::pervasive::VecAdditionalExecFns;
use vstd::prelude::*;

verus! {

/// The prover: the fixed polynomial being summed and its variable count.
/// It is never mutated; the driver records the challenge history and hands
/// it back for each round.
pub struct Prover {
    pub polynomial: Polynomial,
    pub num_variables: usize,
}

/// The prover's polynomial is well formed and the variable count matches it.
pub open spec fn prover_wf(p: Prover) -> bool {
    &&& poly_wf(p.polynomial)
    &&& p.num_variables == p.polynomial.num_variables
}

impl Prover {
    /// A prover with a randomly generated polynomial over the given modulus.
    pub fn new(num_variables: usize, max_degree: u64, max_terms: u64, modulus: u64) -> (r: Prover)
        requires
            max_terms >= 1,
            max_degree >= 1,
            2 <= modulus <= crate::field::MAX_MODULUS,
            num_variables + 2 < usize::MAX,
        ensures
            prover_wf(r),
            r.polynomial.modulus == modulus,
            r.num_variables <= num_variables + 1,
            r.polynomial.terms@.len() <= max_terms,
    {
        let polynomial = crate::polynomial::generate_random_polynomial(
            num_variables,
            max_degree,
            max_terms,
            modulus,
        );
        Prover::new_with_polynomial(polynomial)
    }

    /// A prover for a given polynomial.
    pub fn new_with_polynomial(polynomial: Polynomial) -> (r: Prover)
        requires
            poly_wf(polynomial),
        ensures
            r.polynomial == polynomial,
            prover_wf(r),
    {
        let num_variables = polynomial.num_variables;
        Prover { polynomial, num_variables }
    }

    /// Collapses the polynomial to a univariate polynomial in `target_var`:
    /// the sum, over all boolean assignments to the variables after
    /// `target_var`, of the polynomial with variables before `target_var`
    /// fixed to `randoms`. Computed per term: fixed variables contribute
    /// their challenge power, a free variable absent from the term doubles
    /// the contribution, a free variable present in it contributes only its
    /// one-branch.
    pub fn reduce_to_univariate(&self, target_var: usize, randoms: &Vec<Fp>) -> (g: UniPoly)
        requires
            prover_wf(*self),
            target_var < self.num_variables,
            randoms@.len() == target_var,
            fp_seq_wf(randoms@, self.polynomial.modulus),
            spec_degree_in_variable(self.polynomial.terms@, target_var as int) < usize::MAX,
        ensures
            uni_wf(g),
            g.modulus == self.polynomial.modulus,
            uni_degree(g.terms@) <= spec_degree_in_variable(
                self.polynomial.terms@,
                target_var as int,
            ),
            forall|x: int|
                0 <= x < self.polynomial.modulus ==> uni_eval(
                    g.terms@,
                    x,
                    self.polynomial.modulus as int,
                ) == hyper_sum(
                    self.polynomial.terms@,
                    fp_vals(randoms@).push(x),
                    (self.num_variables - target_var - 1) as nat,
                    self.polynomial.modulus as int,
                ),
    {
        let m = self.polynomial.modulus;
        let ghost mi = m as int;
        let n = self.num_variables;
        let i = target_var;
        let ghost k = (n - i - 1) as nat;
        let ghost ch = fp_vals(randoms@);
        let ghost all_terms = self.polynomial.terms@;

        let dmax = self.polynomial.degree_in_variable(i);
        let width = dmax as usize + 1;
        let mut coeffs: Vec<Fp> = Vec::new();
        while coeffs.len() < width
            invariant
                2 <= m <= crate::field::MAX_MODULUS,
                coeffs@.len() <= width,
                forall|j: int|
                    0 <= j < coeffs@.len() ==> (#[trigger] coeffs@[j]).value == 0
                        && coeffs@[j].wf() && coeffs@[j].modulus == m,
            decreases width - coeffs@.len(),
        {
            coeffs.push(Fp::zero(m));
        }

        let mut t_idx: usize = 0;
        proof {
            assert(all_terms.take(0int) =~= Seq::<crate::term::Term>::empty());
            assert forall|x: int| 0 <= x < m implies dense_eval(coeffs@, x, mi) == hyper_sum(
                all_terms.take(0int),
                ch.push(x),
                k,
                mi,
            ) by {
                lemma_dense_eval_zero(coeffs@, x, mi);
                lemma_hyper_sum_empty(ch.push(x), k, mi);
            }
        }
        while t_idx < self.polynomial.terms.len()
            invariant
                prover_wf(*self),
                m == self.polynomial.modulus,
                mi == m as int,
                n == self.num_variables,
                i == target_var,
                i < n,
                k == (n - i - 1) as nat,
                randoms@.len() == i,
                fp_seq_wf(randoms@, m),
                ch == fp_vals(randoms@),
                all_terms == self.polynomial.terms@,
                dmax == spec_degree_in_variable(all_terms, i as int),
                width == dmax + 1,
                t_idx <= all_terms.len(),
                coeffs@.len() == width,
                fp_seq_wf(coeffs@, m),
                forall|x: int|
                    0 <= x < m ==> dense_eval(coeffs@, x, mi) == hyper_sum(
                        all_terms.take(t_idx as int),
                        ch.push(x),
                        k,
                        mi,
                    ),
            decreases all_terms.len() - t_idx,
        {
            let t = &self.polynomial.terms[t_idx];
            let ghost pairs = t.exponents@;
            let ghost c = t.coefficient.value as int;

            // Fold the challenge powers of the fixed variables into the
            // coefficient and pick out the exponent of the target variable.
            let mut acc = t.coefficient;
            let mut exp_i: u64 = 0;
            proof {
                assert(pairs.take(0int) =~= Seq::<(usize, u64)>::empty());
                assert forall|x: int| 0 <= x < m implies fmul(
                    acc.value as int,
                    fpow(x, exp_i as nat, mi),
                    mi,
                ) == fmul(c, prod_pairs(pairs.take(0int), ch.push(x) + ones(k), mi), mi) by {
                    crate::field::lemma_one_mod(mi);
                    lemma_fmul_one(acc.value as int, mi);
                    lemma_mod_identity(acc.value as int, mi);
                    lemma_fmul_one(c, mi);
                }
            }
            let mut j: usize = 0;
            while j < t.exponents.len()
                invariant
                    prover_wf(*self),
                    m == self.polynomial.modulus,
                    mi == m as int,
                    n == self.num_variables,
                    i == target_var,
                    i < n,
                    k == (n - i - 1) as nat,
                    randoms@.len() == i,
                    fp_seq_wf(randoms@, m),
                    ch == fp_vals(randoms@),
                    all_terms == self.polynomial.terms@,
                    t_idx < all_terms.len(),
                    t == &self.polynomial.terms[t_idx as int],
                    pairs == t.exponents@,
                    c == t.coefficient.value as int,
                    j <= pairs.len(),
                    acc.wf(),
                    acc.modulus == m,
                    exp_i == exp_in_pairs(pairs.take(j as int), i as int),
                    forall|x: int|
                        0 <= x < m ==> fmul(acc.value as int, fpow(x, exp_i as nat, mi), mi)
                            == fmul(c, prod_pairs(pairs.take(j as int), ch.push(x) + ones(k), mi), mi),
                decreases pairs.len() - j,
            {
                let (v, e) = t.exponents[j];
                let ghost old_acc = acc;
                let ghost old_exp = exp_i;
                proof {
                    let taken = pairs.take(j as int + 1);
                    assert(taken.drop_last() =~= pairs.take(j as int));
                    assert(taken.last() == pairs[j as int]);
                    assert(monomial_wf(pairs));
                    assert(monomial_wf(pairs.take(j as int)));
                    assert(monomial_wf(taken));
                }
                if v < i {
                    let factor = randoms[v].pow(e);
                    acc = acc.mul(factor);
                    proof {
                        let ghost rv = randoms@[v as int].value as int;
                        assert forall|x: int| 0 <= x < m implies fmul(
                            acc.value as int,
                            fpow(x, exp_i as nat, mi),
                            mi,
                        ) == fmul(
                            c,
                            prod_pairs(pairs.take(j as int + 1), ch.push(x) + ones(k), mi),
                            mi,
                        ) by {
                            let a = ch.push(x) + ones(k);
                            assert(a[v as int] == rv);
                            let f = fpow(rv, e as nat, mi);
                            let xe = fpow(x, exp_i as nat, mi);
                            let pj = prod_pairs(pairs.take(j as int), a, mi);
                            lemma_fmul_exchange(old_acc.value as int, f, xe, mi);
                            assert(fmul(old_acc.value as int, xe, mi) == fmul(c, pj, mi));
                            lemma_fmul_exchange(c, pj, f, mi);
                            lemma_fmul_assoc(c, f, pj, mi);
                            lemma_fmul_assoc(c, pj, f, mi);
                            assert(prod_pairs(pairs.take(j as int + 1), a, mi) == fmul(pj, f, mi));
                        }
                        assert(exp_in_pairs(pairs.take(j as int + 1), i as int) == exp_i) by {
                            assert(pairs.take(j as int + 1).last().0 == v && v < i);
                        }
                    }
                } else if v == i {
                    exp_i = e;
                    proof {
                        lemma_exp_in_pairs(pairs.take(j as int), i as int);
                        assert(!touched(pairs.take(j as int), i as int)) by {
                            if touched(pairs.take(j as int), i as int) {
                                let w = choose|w: int|
                                    0 <= w < j && (#[trigger] pairs.take(j as int)[w]).0
                                        == i as int;
                                assert(pairs[w].0 < pairs[j as int].0);
                            }
                        }
                        assert(old_exp == 0);
                        assert forall|x: int| 0 <= x < m implies fmul(
                            acc.value as int,
                            fpow(x, exp_i as nat, mi),
                            mi,
                        ) == fmul(
                            c,
                            prod_pairs(pairs.take(j as int + 1), ch.push(x) + ones(k), mi),
                            mi,
                        ) by {
                            let a = ch.push(x) + ones(k);
                            assert(a[i as int] == x);
                            let pj = prod_pairs(pairs.take(j as int), a, mi);
                            let xe = fpow(x, e as nat, mi);
                            assert(fmul(old_acc.value as int, fpow(x, old_exp as nat, mi), mi)
                                == fmul(c, pj, mi));
                            crate::field::lemma_one_mod(mi);
                            assert(fpow(x, old_exp as nat, mi) == 1int % mi);
                            lemma_fmul_one(acc.value as int, mi);
                            lemma_mod_identity(acc.value as int, mi);
                            assert(acc.value as int == fmul(c, pj, mi));
                            lemma_fmul_assoc(c, pj, xe, mi);
                            assert(prod_pairs(pairs.take(j as int + 1), a, mi) == fmul(pj, xe, mi));
                        }
                        assert(exp_in_pairs(pairs.take(j as int + 1), i as int) == e);
                    }
                } else {
                    proof {
                        assert(v < n);
                        assert forall|x: int| 0 <= x < m implies fmul(
                            acc.value as int,
                            fpow(x, exp_i as nat, mi),
                            mi,
                        ) == fmul(
                            c,
                            prod_pairs(pairs.take(j as int + 1), ch.push(x) + ones(k), mi),
                            mi,
                        ) by {
                            let a = ch.push(x) + ones(k);
                            assert(a[v as int] == 1);
                            let pj = prod_pairs(pairs.take(j as int), a, mi);
                            lemma_fpow_one_base(e as nat, mi);
                            lemma_fmul_one(pj, mi);
                            lemma_prod_pairs_range(pairs.take(j as int), a, mi);
                            lemma_mod_identity(pj, mi);
                            crate::field::lemma_one_mod(mi);
                            assert(prod_pairs(pairs.take(j as int + 1), a, mi) == pj);
                        }
                        assert(exp_in_pairs(pairs.take(j as int + 1), i as int) == exp_i) by {
                            assert(pairs.take(j as int + 1).last().0 == v && v > i);
                        }
                    }
                }
                j = j + 1;
            }
            proof {
                assert(pairs.take(pairs.len() as int) =~= pairs);
            }

            // Count the free variables the term leaves untouched.
            let mut cnt: usize = 0;
            let mut v = n;
            while v > i + 1
                invariant
                    i < n,
                    i + 1 <= v <= n,
                    cnt == untouched_count(t.exponents@, v as int, n as int),
                    cnt <= n - v,
                    t == &self.polynomial.terms[t_idx as int],
                    prover_wf(*self),
                    t_idx < self.polynomial.terms@.len(),
                decreases v,
            {
                v = v - 1;
                let e = t.exponent_of(v);
                if e == 0 {
                    cnt = cnt + 1;
                }
            }

            let two_pow = Fp::new(2, m).pow(cnt as u64);
            proof {
                lemma_fpow_base_mod(2, cnt as nat, mi);
            }
            let addend = acc.mul(two_pow);

            proof {
                lemma_degree_in_variable_bound(all_terms, t_idx as int, i as int);
                assert(exp_i <= dmax);
            }
            let idx = exp_i as usize;
            let ghost old_coeffs = coeffs@;
            let updated = coeffs[idx].add(addend);
            coeffs.set(idx, updated);
            proof {
                let taken = all_terms.take(t_idx as int + 1);
                assert(taken.drop_last() =~= all_terms.take(t_idx as int));
                assert(taken.last() == all_terms[t_idx as int]);
                assert forall|x: int| 0 <= x < m implies dense_eval(coeffs@, x, mi) == hyper_sum(
                    taken,
                    ch.push(x),
                    k,
                    mi,
                ) by {
                    let a = ch.push(x) + ones(k);
                    let xe = fpow(x, exp_i as nat, mi);
                    let uc = untouched_count(pairs, i as int + 1, n as int);
                    lemma_dense_eval_update(
                        old_coeffs,
                        coeffs@,
                        exp_i as int,
                        addend.value as int,
                        x,
                        mi,
                    );
                    lemma_term_hyper_sum_factors(*t, ch.push(x), k, mi);
                    assert(ch.push(x).len() == i + 1);
                    assert(term_eval(*t, a, mi) == fmul(c, prod_pairs(pairs, a, mi), mi));
                    assert(fmul(acc.value as int, xe, mi) == term_eval(*t, a, mi));
                    lemma_fmul_exchange(acc.value as int, fpow(2, uc as nat, mi), xe, mi);
                    assert(fmul(addend.value as int, xe, mi) == term_hyper_sum(
                        *t,
                        ch.push(x),
                        k,
                        mi,
                    ));
                    lemma_hyper_sum_linear(taken, ch.push(x), k, mi);
                }
            }
            t_idx = t_idx + 1;
        }
        proof {
            assert(all_terms.take(all_terms.len() as int) =~= all_terms);
        }
        let ghost final_coeffs = coeffs@;
        let g = UniPoly::from_coefficients_vec(coeffs, m);
        proof {
            assert(uni_degree(g.terms@) <= dmax);
            assert forall|x: int| 0 <= x < m implies uni_eval(g.terms@, x, mi) == hyper_sum(
                all_terms,
                ch.push(x),
                k,
                mi,
            ) by {
                assert(uni_eval(g.terms@, x, mi) == dense_eval(final_coeffs, x, mi));
                assert(dense_eval(final_coeffs, x, mi) == hyper_sum(
                    all_terms.take(all_terms.len() as int),
                    ch.push(x),
                    k,
                    mi,
                ));
            }
            assert(k == (self.num_variables - target_var - 1) as nat);
        }
        g
    }

    /// The univariate polynomial the prover sends for round
    /// `variable_index`, given the challenges of the earlier rounds.
    pub fn send_polynomial(&self, challenges: &Vec<Fp>, variable_index: usize) -> (g: UniPoly)
        requires
            prover_wf(*self),
            variable_index < self.num_variables,
            challenges@.len() == variable_index,
            fp_seq_wf(challenges@, self.polynomial.modulus),
            spec_degree_in_variable(self.polynomial.terms@, variable_index as int) < usize::MAX,
        ensures
            uni_wf(g),
            g.modulus == self.polynomial.modulus,
            uni_degree(g.terms@) <= spec_degree_in_variable(
                self.polynomial.terms@,
                variable_index as int,
            ),
            forall|x: int|
                0 <= x < self.polynomial.modulus ==> uni_eval(
                    g.terms@,
                    x,
                    self.polynomial.modulus as int,
                ) == hyper_sum(
                    self.polynomial.terms@,
                    fp_vals(challenges@).push(x),
                    (self.num_variables - variable_index - 1) as nat,
                    self.polynomial.modulus as int,
                ),
    {
        self.reduce_to_univariate(variable_index, challenges)
    }

    /// All boolean assignments of `num_variables` variables, as field
    /// elements: entry `c` of the result holds, at position `j`, bit `j` of
    /// the counter `c`.
    pub fn generate_combinations(num_variables: usize, modulus: u64) -> (r: Vec<Vec<Fp>>)
        requires
            2 <= modulus <= crate::field::MAX_MODULUS,
            pow2(num_variables as nat) <= usize::MAX,
        ensures
            r@.len() == pow2(num_variables as nat),
            forall|c: int| 0 <= c < r@.len() ==> (#[trigger] r@[c])@.len() == num_variables,
            forall|c: int, j: int|
                0 <= c < r@.len() && 0 <= j < num_variables ==> (#[trigger] r@[c]@[j]).wf()
                    && r@[c]@[j].modulus == modulus && r@[c]@[j].value == (c as nat / pow2(
                    j as nat,
                )) % 2,
    {
        proof {
            lemma2_to64();
        }
        let mut total: usize = 1;
        let mut e: usize = 0;
        while e < num_variables
            invariant
                e <= num_variables,
                total == pow2(e as nat),
                pow2(num_variables as nat) <= usize::MAX,
            decreases num_variables - e,
        {
            proof {
                lemma_pow2_adds(e as nat, 1);
                lemma2_to64();
                if e + 1 < num_variables {
                    lemma_pow2_strictly_increases((e + 1) as nat, num_variables as nat);
                }
            }
            total = total * 2;
            e = e + 1;
        }
        let mut r: Vec<Vec<Fp>> = Vec::new();
        let mut c: usize = 0;
        while c < total
            invariant
                2 <= modulus <= crate::field::MAX_MODULUS,
                total == pow2(num_variables as nat),
                c <= total,
                r@.len() == c,
                forall|b: int| 0 <= b < r@.len() ==> (#[trigger] r@[b])@.len() == num_variables,
                forall|b: int, j: int|
                    0 <= b < r@.len() && 0 <= j < num_variables ==> (#[trigger] r@[b]@[j]).wf()
                        && r@[b]@[j].modulus == modulus && r@[b]@[j].value == (b as nat / pow2(
                        j as nat,
                    )) % 2,
            decreases total - c,
        {
            let mut assignment: Vec<Fp> = Vec::new();
            let mut counter: usize = c;
            proof {
                lemma2_to64();
            }
            let mut j: usize = 0;
            while j < num_variables
                invariant
                    2 <= modulus <= crate::field::MAX_MODULUS,
                    j <= num_variables,
                    assignment@.len() == j,
                    counter == c as nat / pow2(j as nat),
                    forall|l: int|
                        0 <= l < j ==> (#[trigger] assignment@[l]).wf() && assignment@[l].modulus
                            == modulus && assignment@[l].value == (c as nat / pow2(l as nat)) % 2,
                decreases num_variables - j,
            {
                if counter % 2 == 1 {
                    assignment.push(Fp::one(modulus));
                } else {
                    assignment.push(Fp::zero(modulus));
                }
                proof {
                    lemma_pow2_pos(j as nat);
                    lemma_pow2_adds(j as nat, 1);
                    lemma2_to64();
                    lemma_div_denominator(c as int, pow2(j as nat) as int, 2);
                }
                counter = counter / 2;
                j = j + 1;
            }
            r.push(assignment);
            c = c + 1;
        }
        r
    }

    /// The sum of the polynomial over every boolean input: the claim the
    /// prover opens the protocol with. Exponential in the variable count;
    /// a reference operation for small instances only.
    pub fn sum_over_all_inputs(&self) -> (r: Fp)
        requires
            prover_wf(*self),
        ensures
            r.wf(),
            r.modulus == self.polynomial.modulus,
            r.value == hyper_sum(
                self.polynomial.terms@,
                Seq::<int>::empty(),
                self.num_variables as nat,
                self.polynomial.modulus as int,
            ),
    {
        self.polynomial.sum_over_boolean_hypercube()
    }
}

} // verus!
