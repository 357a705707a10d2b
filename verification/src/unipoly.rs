//! Sparse univariate polynomials: (exponent, coefficient) pairs with strictly
//! ascending exponents and nonzero coefficients. These are the per-round
//! messages the prover sends to the verifier.

use crate::field::{
    fadd, fmul, fpow, fp_seq_wf, lemma_fadd_assoc, lemma_fadd_exchange, lemma_fadd_zero,
    lemma_fmul_mod_left, lemma_fmul_zero, lemma_mod_identity, Fp, MAX_MODULUS,
};
use vstd::arithmetic::div_mod::lemma_add_mod_noop;
use vstd::arithmetic::mul::lemma_mul_is_distributive_add_other_way;
use vstd::prelude::*;

verus! {

/// A sparse univariate polynomial over the integers mod `modulus`.
pub struct UniPoly {
    pub terms: Vec<(u64, Fp)>,
    pub modulus: u64,
}

/// Exponents strictly ascending, coefficients reduced, nonzero and sharing
/// the polynomial's modulus.
pub open spec fn uni_wf(p: UniPoly) -> bool {
    &&& 2 <= p.modulus <= MAX_MODULUS
    &&& forall|j: int|
        0 <= j < p.terms@.len() ==> (#[trigger] p.terms@[j]).1.wf() && p.terms@[j].1.modulus
            == p.modulus && p.terms@[j].1.value != 0
    &&& forall|j: int, k: int|
        0 <= j < k < p.terms@.len() ==> (#[trigger] p.terms@[j]).0 < (#[trigger] p.terms@[k]).0
}

/// Value of the polynomial at `x`, mod `m`.
pub open spec fn uni_eval(terms: Seq<(u64, Fp)>, x: int, m: int) -> int
    decreases terms.len(),
{
    if terms.len() == 0 {
        0int
    } else {
        fadd(
            uni_eval(terms.drop_last(), x, m),
            fmul(terms.last().1.value as int, fpow(x, terms.last().0 as nat, m), m),
            m,
        )
    }
}

/// Largest exponent present; the zero polynomial has degree zero.
pub open spec fn uni_degree(terms: Seq<(u64, Fp)>) -> nat {
    if terms.len() == 0 {
        0
    } else {
        terms.last().0 as nat
    }
}

/// Value at `x` of the polynomial whose coefficient of `X^d` is `coeffs[d]`.
pub open spec fn dense_eval(coeffs: Seq<Fp>, x: int, m: int) -> int
    decreases coeffs.len(),
{
    if coeffs.len() == 0 {
        0int
    } else {
        fadd(
            dense_eval(coeffs.drop_last(), x, m),
            fmul(coeffs.last().value as int, fpow(x, (coeffs.len() - 1) as nat, m), m),
            m,
        )
    }
}

/// The value of a univariate polynomial is a reduced residue.
pub proof fn lemma_uni_eval_range(terms: Seq<(u64, Fp)>, x: int, m: int)
    requires
        0 < m,
    ensures
        0 <= uni_eval(terms, x, m) < m,
{
    if terms.len() == 0 {
    }
}

/// A dense vector of zero coefficients evaluates to zero.
pub proof fn lemma_dense_eval_zero(coeffs: Seq<Fp>, x: int, m: int)
    requires
        0 < m,
        forall|j: int| 0 <= j < coeffs.len() ==> (#[trigger] coeffs[j]).value == 0,
    ensures
        dense_eval(coeffs, x, m) == 0,
    decreases coeffs.len(),
{
    if coeffs.len() > 0 {
        lemma_dense_eval_zero(coeffs.drop_last(), x, m);
        lemma_fmul_zero(fpow(x, (coeffs.len() - 1) as nat, m), m);
        lemma_fadd_zero(0, m);
    }
}

/// Adding `delta` into the coefficient of `X^d` adds `delta * x^d` to the
/// value of a dense coefficient vector.
pub proof fn lemma_dense_eval_update(
    s1: Seq<Fp>,
    s2: Seq<Fp>,
    d: int,
    delta: int,
    x: int,
    m: int,
)
    requires
        0 < m,
        0 <= d < s1.len(),
        s2.len() == s1.len(),
        forall|j: int| 0 <= j < s1.len() && j != d ==> s2[j] == s1[j],
        s2[d].value as int == fadd(s1[d].value as int, delta, m),
    ensures
        dense_eval(s2, x, m) == fadd(dense_eval(s1, x, m), fmul(delta, fpow(x, d as nat, m), m), m),
    decreases s1.len(),
{
    let f = fpow(x, (s1.len() - 1) as nat, m);
    if d == s1.len() - 1 {
        assert(s2.drop_last() =~= s1.drop_last());
        let a = dense_eval(s1.drop_last(), x, m);
        let b = s1[d].value as int;
        assert(fmul(s2[d].value as int, f, m) == fadd(fmul(b, f, m), fmul(delta, f, m), m)) by {
            lemma_fmul_mod_left(b + delta, f, m);
            lemma_mul_is_distributive_add_other_way(f, b, delta);
            lemma_add_mod_noop(b * f, delta * f, m);
        }
        lemma_fadd_assoc(a, fmul(b, f, m), fmul(delta, f, m), m);
    } else {
        lemma_dense_eval_update(s1.drop_last(), s2.drop_last(), d, delta, x, m);
        assert(s2.last() == s1.last());
        lemma_fadd_exchange(
            dense_eval(s1.drop_last(), x, m),
            fmul(s1.last().value as int, f, m),
            fmul(delta, fpow(x, d as nat, m), m),
            m,
        );
    }
}

impl UniPoly {
    /// Sum of `coefficient * x^exponent` over the terms.
    pub fn evaluate(&self, x: &Fp) -> (r: Fp)
        requires
            uni_wf(*self),
            x.wf(),
            x.modulus == self.modulus,
        ensures
            r.wf(),
            r.modulus == self.modulus,
            r.value == uni_eval(self.terms@, x.value as int, self.modulus as int),
    {
        let m = self.modulus;
        let mut acc = Fp::zero(m);
        proof {
            assert(self.terms@.take(0int) =~= Seq::<(u64, Fp)>::empty());
        }
        let mut j: usize = 0;
        while j < self.terms.len()
            invariant
                uni_wf(*self),
                m == self.modulus,
                x.wf(),
                x.modulus == m,
                j <= self.terms@.len(),
                acc.wf(),
                acc.modulus == m,
                acc.value == uni_eval(self.terms@.take(j as int), x.value as int, m as int),
            decreases self.terms@.len() - j,
        {
            let (e, c) = self.terms[j];
            let monomial = x.pow(e);
            proof {
                let taken = self.terms@.take(j as int + 1);
                assert(taken.drop_last() =~= self.terms@.take(j as int));
                assert(taken.last() == self.terms@[j as int]);
            }
            acc = acc.add(c.mul(monomial));
            j = j + 1;
        }
        proof {
            assert(self.terms@.take(self.terms@.len() as int) =~= self.terms@);
        }
        acc
    }

    /// The largest exponent present, or zero for the zero polynomial.
    pub fn degree(&self) -> (r: u64)
        ensures
            r == uni_degree(self.terms@),
    {
        if self.terms.len() == 0 {
            0
        } else {
            self.terms[self.terms.len() - 1].0
        }
    }

    /// Builds the sparse form from a dense coefficient vector, dropping zero
    /// coefficients; entry `d` of the vector is the coefficient of `X^d`.
    pub fn from_coefficients_vec(coeffs: Vec<Fp>, modulus: u64) -> (r: UniPoly)
        requires
            2 <= modulus <= MAX_MODULUS,
            fp_seq_wf(coeffs@, modulus),
        ensures
            uni_wf(r),
            r.modulus == modulus,
            forall|x: int|
                0 <= x < modulus ==> uni_eval(r.terms@, x, modulus as int) == dense_eval(
                    coeffs@,
                    x,
                    modulus as int,
                ),
            r.terms@.len() == 0 || uni_degree(r.terms@) < coeffs@.len(),
    {
        let ghost mi = modulus as int;
        let mut terms: Vec<(u64, Fp)> = Vec::new();
        proof {
            assert(coeffs@.take(0int) =~= Seq::<Fp>::empty());
        }
        let mut d: usize = 0;
        while d < coeffs.len()
            invariant
                2 <= modulus <= MAX_MODULUS,
                mi == modulus as int,
                fp_seq_wf(coeffs@, modulus),
                d <= coeffs@.len(),
                forall|j: int|
                    0 <= j < terms@.len() ==> (#[trigger] terms@[j]).1.wf() && terms@[j].1.modulus
                        == modulus && terms@[j].1.value != 0 && terms@[j].0 < d,
                forall|j: int, k: int|
                    0 <= j < k < terms@.len() ==> (#[trigger] terms@[j]).0 < (
                    #[trigger] terms@[k]).0,
                forall|x: int|
                    0 <= x < modulus ==> uni_eval(#[trigger] terms@, x, mi) == dense_eval(
                        coeffs@.take(d as int),
                        x,
                        mi,
                    ),
            decreases coeffs@.len() - d,
        {
            let c = coeffs[d];
            let ghost old_terms = terms@;
            proof {
                let taken = coeffs@.take(d as int + 1);
                assert(taken.drop_last() =~= coeffs@.take(d as int));
                assert(taken.last() == coeffs@[d as int]);
            }
            if c.value != 0 {
                terms.push((d as u64, c));
                proof {
                    assert(terms@.drop_last() =~= old_terms);
                    assert forall|x: int| 0 <= x < modulus implies uni_eval(terms@, x, mi)
                        == dense_eval(coeffs@.take(d as int + 1), x, mi) by {
                        assert(uni_eval(old_terms, x, mi) == dense_eval(
                            coeffs@.take(d as int),
                            x,
                            mi,
                        ));
                    }
                }
            } else {
                proof {
                    assert forall|x: int| 0 <= x < modulus implies uni_eval(terms@, x, mi)
                        == dense_eval(coeffs@.take(d as int + 1), x, mi) by {
                        lemma_uni_eval_range(terms@, x, mi);
                        lemma_fmul_zero(fpow(x, d as nat, mi), mi);
                        lemma_fadd_zero(uni_eval(terms@, x, mi), mi);
                        lemma_mod_identity(uni_eval(terms@, x, mi), mi);
                        assert(uni_eval(terms@, x, mi) == dense_eval(
                            coeffs@.take(d as int),
                            x,
                            mi,
                        ));
                    }
                }
            }
            d = d + 1;
        }
        proof {
            assert(coeffs@.take(coeffs@.len() as int) =~= coeffs@);
        }
        UniPoly { terms, modulus }
    }
}

} // verus!
