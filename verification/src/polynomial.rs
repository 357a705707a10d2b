//! Sparse multivariate polynomials: an ordered list of terms, no two terms
//! sharing a monomial, no zero coefficient kept. The module also defines the
//! two sums the protocol revolves around: the value of the polynomial at a
//! point (`poly_eval`) and its sum over all boolean completions of a prefix
//! (`hyper_sum`).

use crate::errors::SumcheckError;
use crate::field::{
    fadd, fmul, fpow, fp_seq_wf, fp_vals, lemma_fadd_shuffle, lemma_fadd_zero, lemma_fmul_assoc,
    lemma_fmul_comm, lemma_fmul_one, lemma_fmul_zero, lemma_mod_identity, Fp, MAX_MODULUS,
};
use crate::term::{
    exp_in_pairs, lemma_adjacent_ascending, lemma_prod_pairs_agree, lemma_prod_pairs_zero,
    monomial_vars_below, monomial_wf, term_eval, term_wf, touched, Term,
};
use vstd::prelude::*;

verus! {

/// A sparse multivariate polynomial over the integers mod `modulus`, in
/// `num_variables` variables.
pub struct Polynomial {
    pub terms: Vec<Term>,
    pub num_variables: usize,
    pub modulus: u64,
}

/// What a well-formed term list looks like: well-formed terms with nonzero
/// coefficients, variables below `num_variables`, and pairwise distinct
/// monomials.
pub open spec fn terms_ok(terms: Seq<Term>, num_variables: int, modulus: u64) -> bool {
    &&& forall|i: int|
        0 <= i < terms.len() ==> term_wf(#[trigger] terms[i], modulus)
            && terms[i].coefficient.value != 0 && monomial_vars_below(
            terms[i].exponents@,
            num_variables,
        )
    &&& forall|i: int, k: int|
        0 <= i < k < terms.len() ==> (#[trigger] terms[i]).exponents@ != (
        #[trigger] terms[k]).exponents@
}

/// The polynomial's construction-time invariant.
pub open spec fn poly_wf(p: Polynomial) -> bool {
    &&& 2 <= p.modulus <= MAX_MODULUS
    &&& terms_ok(p.terms@, p.num_variables as int, p.modulus)
}

/// Value of the polynomial at `assign`, mod `m`: the sum of its terms.
pub open spec fn poly_eval(terms: Seq<Term>, assign: Seq<int>, m: int) -> int
    decreases terms.len(),
{
    if terms.len() == 0 {
        0int
    } else {
        fadd(poly_eval(terms.drop_last(), assign, m), term_eval(terms.last(), assign, m), m)
    }
}

/// Sum of the polynomial over all boolean completions of `prefix` by `k`
/// further variables, mod `m`.
pub open spec fn hyper_sum(terms: Seq<Term>, prefix: Seq<int>, k: nat, m: int) -> int
    decreases k,
{
    if k == 0 {
        poly_eval(terms, prefix, m)
    } else {
        fadd(
            hyper_sum(terms, prefix.push(0int), (k - 1) as nat, m),
            hyper_sum(terms, prefix.push(1int), (k - 1) as nat, m),
            m,
        )
    }
}

/// Sum of a single term over all boolean completions of `prefix` by `k`
/// further variables, mod `m`.
pub open spec fn term_hyper_sum(t: Term, prefix: Seq<int>, k: nat, m: int) -> int
    decreases k,
{
    if k == 0 {
        term_eval(t, prefix, m)
    } else {
        fadd(
            term_hyper_sum(t, prefix.push(0int), (k - 1) as nat, m),
            term_hyper_sum(t, prefix.push(1int), (k - 1) as nat, m),
            m,
        )
    }
}

/// An assignment of one to each of `k` variables.
pub open spec fn ones(k: nat) -> Seq<int> {
    Seq::new(k, |i: int| 1int)
}

/// How many variables of the range `lo..hi` the monomial leaves untouched.
pub open spec fn untouched_count(pairs: Seq<(usize, u64)>, lo: int, hi: int) -> nat
    decreases hi - lo,
{
    if lo >= hi {
        0
    } else {
        (if touched(pairs, lo) {
            0nat
        } else {
            1nat
        }) + untouched_count(pairs, lo + 1, hi)
    }
}

/// A hypercube sum splits into the sum over all terms but the last plus the
/// single-term sum of the last: summing over the cube is linear in the terms.
pub proof fn lemma_hyper_sum_linear(terms: Seq<Term>, prefix: Seq<int>, k: nat, m: int)
    requires
        0 < m,
        terms.len() > 0,
    ensures
        hyper_sum(terms, prefix, k, m) == fadd(
            hyper_sum(terms.drop_last(), prefix, k, m),
            term_hyper_sum(terms.last(), prefix, k, m),
            m,
        ),
    decreases k,
{
    if k > 0 {
        lemma_hyper_sum_linear(terms, prefix.push(0int), (k - 1) as nat, m);
        lemma_hyper_sum_linear(terms, prefix.push(1int), (k - 1) as nat, m);
        lemma_fadd_shuffle(
            hyper_sum(terms.drop_last(), prefix.push(0int), (k - 1) as nat, m),
            term_hyper_sum(terms.last(), prefix.push(0int), (k - 1) as nat, m),
            hyper_sum(terms.drop_last(), prefix.push(1int), (k - 1) as nat, m),
            term_hyper_sum(terms.last(), prefix.push(1int), (k - 1) as nat, m),
            m,
        );
    }
}

/// The single-term hypercube sum factors: it is the term's value with every
/// free variable set to one, times two to the number of free variables the
/// monomial leaves untouched. A touched free variable contributes only its
/// one-branch (zero raised to a positive exponent vanishes); an untouched
/// one doubles the sum.
pub proof fn lemma_term_hyper_sum_factors(t: Term, prefix: Seq<int>, k: nat, m: int)
    requires
        2 <= m,
        monomial_wf(t.exponents@),
        monomial_vars_below(t.exponents@, prefix.len() + k as int),
    ensures
        term_hyper_sum(t, prefix, k, m) == fmul(
            term_eval(t, prefix + ones(k), m),
            fpow(
                2,
                untouched_count(
                    t.exponents@,
                    prefix.len() as int,
                    prefix.len() + k as int,
                ),
                m,
            ),
            m,
        ),
    decreases k,
{
    let pairs = t.exponents@;
    let p = prefix.len() as int;
    if k == 0 {
        assert(prefix + ones(0) =~= prefix);
        let e = term_eval(t, prefix, m);
        lemma_fmul_one(e, m);
        lemma_mod_identity(e, m);
    } else {
        let k1 = (k - 1) as nat;
        let a0 = prefix.push(0int);
        let a1 = prefix.push(1int);
        assert(a1 + ones(k1) =~= prefix + ones(k));
        lemma_term_hyper_sum_factors(t, a0, k1, m);
        lemma_term_hyper_sum_factors(t, a1, k1, m);
        let uc1 = untouched_count(pairs, p + 1, p + k as int);
        let ev = term_eval(t, prefix + ones(k), m);
        let branch1 = fmul(ev, fpow(2, uc1, m), m);
        if touched(pairs, p) {
            let j = choose|j: int| 0 <= j < pairs.len() && (#[trigger] pairs[j]).0 == p;
            assert((a0 + ones(k1))[p] == 0);
            lemma_prod_pairs_zero(pairs, a0 + ones(k1), m, j);
            lemma_fmul_zero(t.coefficient.value as int, m);
            assert(term_eval(t, a0 + ones(k1), m) == 0);
            lemma_fmul_zero(fpow(2, uc1, m), m);
            assert(term_hyper_sum(t, a0, k1, m) == 0);
            lemma_fadd_zero(branch1, m);
            lemma_mod_identity(branch1, m);
            assert(untouched_count(pairs, p, p + k as int) == uc1);
        } else {
            assert forall|j: int|
                0 <= j < pairs.len() implies (a0 + ones(k1))[(#[trigger] pairs[j]).0 as int] == (
            prefix + ones(k))[pairs[j].0 as int] by {
                assert(pairs[j].0 != p);
            }
            lemma_prod_pairs_agree(pairs, a0 + ones(k1), prefix + ones(k), m);
            assert(term_eval(t, a0 + ones(k1), m) == ev);
            assert(term_hyper_sum(t, prefix, k, m) == fadd(branch1, branch1, m));
            assert(branch1 + branch1 == 2 * branch1);
            assert(fadd(branch1, branch1, m) == fmul(2, branch1, m));
            lemma_fmul_comm(2, branch1, m);
            lemma_fmul_assoc(ev, fpow(2, uc1, m), 2, m);
            assert(fmul(branch1, 2, m) == fmul(ev, fmul(fpow(2, uc1, m), 2, m), m));
            assert(fpow(2, uc1 + 1, m) == fmul(fpow(2, uc1, m), 2, m));
            assert(untouched_count(pairs, p, p + k as int) == 1 + uc1);
        }
    }
}

/// The empty polynomial sums to zero over any part of the hypercube.
pub proof fn lemma_hyper_sum_empty(prefix: Seq<int>, k: nat, m: int)
    requires
        0 < m,
    ensures
        hyper_sum(Seq::<Term>::empty(), prefix, k, m) == 0,
    decreases k,
{
    if k > 0 {
        lemma_hyper_sum_empty(prefix.push(0int), (k - 1) as nat, m);
        lemma_hyper_sum_empty(prefix.push(1int), (k - 1) as nat, m);
        lemma_fadd_zero(0, m);
    }
}

/// No term's exponent of `v` exceeds the polynomial's degree in `v`.
pub proof fn lemma_degree_in_variable_bound(terms: Seq<Term>, idx: int, v: int)
    requires
        0 <= idx < terms.len(),
    ensures
        exp_in_pairs(terms[idx].exponents@, v) <= spec_degree_in_variable(terms, v),
    decreases terms.len(),
{
    if idx < terms.len() - 1 {
        lemma_degree_in_variable_bound(terms.drop_last(), idx, v);
        assert(terms.drop_last()[idx] == terms[idx]);
    }
}

/// The largest exponent of `v` across the terms.
pub open spec fn spec_degree_in_variable(terms: Seq<Term>, v: int) -> nat
    decreases terms.len(),
{
    if terms.len() == 0 {
        0
    } else {
        let rest = spec_degree_in_variable(terms.drop_last(), v);
        let e = exp_in_pairs(terms.last().exponents@, v);
        if e > rest {
            e
        } else {
            rest
        }
    }
}

/// The value of a polynomial is a reduced residue.
pub proof fn lemma_poly_eval_range(terms: Seq<Term>, assign: Seq<int>, m: int)
    requires
        0 < m,
    ensures
        0 <= poly_eval(terms, assign, m) < m,
{
    if terms.len() == 0 {
    }
}

/// A hypercube sum is a reduced residue.
pub proof fn lemma_hyper_sum_range(terms: Seq<Term>, prefix: Seq<int>, k: nat, m: int)
    requires
        0 < m,
    ensures
        0 <= hyper_sum(terms, prefix, k, m) < m,
{
    if k == 0 {
        lemma_poly_eval_range(terms, prefix, m);
    }
}

/// Checks one term against the construction-time invariant.
fn check_term(t: &Term, num_variables: usize, modulus: u64) -> (r: bool)
    requires
        2 <= modulus <= MAX_MODULUS,
    ensures
        r == (term_wf(*t, modulus) && t.coefficient.value != 0 && monomial_vars_below(
            t.exponents@,
            num_variables as int,
        )),
{
    if t.coefficient.modulus != modulus || t.coefficient.value >= modulus
        || t.coefficient.value == 0 {
        return false;
    }
    let mut j: usize = 0;
    while j < t.exponents.len()
        invariant
            j <= t.exponents@.len(),
            forall|k: int|
                0 <= k < j ==> (#[trigger] t.exponents@[k]).1 >= 1 && t.exponents@[k].0
                    < num_variables,
            forall|k: int| 0 < k < j ==> (#[trigger] t.exponents@[k]).0 > t.exponents@[k - 1].0,
        decreases t.exponents@.len() - j,
    {
        let (v, e) = t.exponents[j];
        if e < 1 || v >= num_variables {
            return false;
        }
        if j > 0 && t.exponents[j - 1].0 >= v {
            return false;
        }
        j = j + 1;
    }
    proof {
        lemma_adjacent_ascending(t.exponents@);
    }
    true
}

impl Polynomial {
    /// Builds a polynomial after checking the construction-time invariant:
    /// any duplicate monomial, zero coefficient, zero exponent, unreduced
    /// coefficient or out-of-range variable is rejected eagerly, before any
    /// round runs.
    pub fn new(terms: Vec<Term>, num_variables: usize, modulus: u64) -> (r: Result<
        Polynomial,
        SumcheckError,
    >)
        requires
            2 <= modulus <= MAX_MODULUS,
        ensures
            r is Ok <==> terms_ok(terms@, num_variables as int, modulus),
            r matches Ok(p) ==> p.terms@ == terms@ && p.num_variables == num_variables
                && p.modulus == modulus && poly_wf(p),
            r is Err ==> r == Result::<Polynomial, SumcheckError>::Err(
                SumcheckError::MalformedPolynomial,
            ),
    {
        let mut i: usize = 0;
        while i < terms.len()
            invariant
                2 <= modulus <= MAX_MODULUS,
                i <= terms@.len(),
                forall|k: int|
                    0 <= k < i ==> term_wf(#[trigger] terms@[k], modulus)
                        && terms@[k].coefficient.value != 0 && monomial_vars_below(
                        terms@[k].exponents@,
                        num_variables as int,
                    ),
            decreases terms@.len() - i,
        {
            if !check_term(&terms[i], num_variables, modulus) {
                return Err(SumcheckError::MalformedPolynomial);
            }
            i = i + 1;
        }
        let mut i: usize = 0;
        while i < terms.len()
            invariant
                i <= terms@.len(),
                forall|a: int, b: int|
                    0 <= a < b < terms@.len() && a < i ==> (#[trigger] terms@[a]).exponents@ != (
                    #[trigger] terms@[b]).exponents@,
            decreases terms@.len() - i,
        {
            let mut k: usize = i + 1;
            while k < terms.len()
                invariant
                    i < k || i + 1 == k,
                    i < terms@.len(),
                    k <= terms@.len(),
                    i + 1 <= k,
                    forall|b: int|
                        i < b < k ==> (#[trigger] terms@[b]).exponents@ != terms@[i as int].exponents@,
                decreases terms@.len() - k,
            {
                if terms[i].same_monomial(&terms[k]) {
                    return Err(SumcheckError::MalformedPolynomial);
                }
                k = k + 1;
            }
            i = i + 1;
        }
        Ok(Polynomial { terms, num_variables, modulus })
    }

    /// Evaluates the polynomial at a full assignment: for each term,
    /// coefficient times the product of `assignment[v]^e`, summed across
    /// terms.
    pub fn evaluate(&self, assignment: &Vec<Fp>) -> (r: Fp)
        requires
            poly_wf(*self),
            assignment@.len() == self.num_variables,
            fp_seq_wf(assignment@, self.modulus),
        ensures
            r.wf(),
            r.modulus == self.modulus,
            r.value == poly_eval(self.terms@, fp_vals(assignment@), self.modulus as int),
    {
        let m = self.modulus;
        let mut acc = Fp::zero(m);
        proof {
            assert(self.terms@.take(0int) =~= Seq::<Term>::empty());
        }
        let mut i: usize = 0;
        while i < self.terms.len()
            invariant
                poly_wf(*self),
                m == self.modulus,
                assignment@.len() == self.num_variables,
                fp_seq_wf(assignment@, m),
                i <= self.terms@.len(),
                acc.wf(),
                acc.modulus == m,
                acc.value == poly_eval(self.terms@.take(i as int), fp_vals(assignment@), m as int),
            decreases self.terms@.len() - i,
        {
            let t = &self.terms[i];
            let v = t.evaluate(assignment);
            proof {
                let taken = self.terms@.take(i as int + 1);
                assert(taken.drop_last() =~= self.terms@.take(i as int));
                assert(taken.last() == self.terms@[i as int]);
            }
            acc = acc.add(v);
            i = i + 1;
        }
        proof {
            assert(self.terms@.take(self.terms@.len() as int) =~= self.terms@);
        }
        acc
    }

    /// The maximum exponent of variable `variable` across all terms; bounds
    /// the degree of the round polynomial for that variable.
    pub fn degree_in_variable(&self, variable: usize) -> (r: u64)
        requires
            poly_wf(*self),
        ensures
            r == spec_degree_in_variable(self.terms@, variable as int),
    {
        let mut d: u64 = 0;
        proof {
            assert(self.terms@.take(0int) =~= Seq::<Term>::empty());
        }
        let mut i: usize = 0;
        while i < self.terms.len()
            invariant
                poly_wf(*self),
                i <= self.terms@.len(),
                d == spec_degree_in_variable(self.terms@.take(i as int), variable as int),
            decreases self.terms@.len() - i,
        {
            let e = self.terms[i].exponent_of(variable);
            proof {
                let taken = self.terms@.take(i as int + 1);
                assert(taken.drop_last() =~= self.terms@.take(i as int));
                assert(taken.last() == self.terms@[i as int]);
            }
            if e > d {
                d = e;
            }
            i = i + 1;
        }
        proof {
            assert(self.terms@.take(self.terms@.len() as int) =~= self.terms@);
        }
        d
    }

    /// Sums the polynomial over all boolean completions of `prefix`.
    fn sum_suffix(&self, prefix: &mut Vec<Fp>, k: usize) -> (r: Fp)
        requires
            poly_wf(*self),
            old(prefix)@.len() + k == self.num_variables,
            fp_seq_wf(old(prefix)@, self.modulus),
        ensures
            final(prefix)@ == old(prefix)@,
            r.wf(),
            r.modulus == self.modulus,
            r.value == hyper_sum(
                self.terms@,
                fp_vals(old(prefix)@),
                k as nat,
                self.modulus as int,
            ),
        decreases k,
    {
        let m = self.modulus;
        if k == 0 {
            self.evaluate(prefix)
        } else {
            let ghost base = prefix@;
            prefix.push(Fp::zero(m));
            proof {
                assert(fp_vals(prefix@) =~= fp_vals(base).push(0int));
            }
            let low = self.sum_suffix(prefix, k - 1);
            let _dropped = prefix.pop();
            proof {
                assert(prefix@ =~= base);
            }
            prefix.push(Fp::one(m));
            proof {
                assert(fp_vals(prefix@) =~= fp_vals(base).push(1int));
            }
            let high = self.sum_suffix(prefix, k - 1);
            let _dropped = prefix.pop();
            proof {
                assert(prefix@ =~= base);
            }
            low.add(high)
        }
    }

    /// Evaluates the polynomial at every point of the boolean hypercube and
    /// accumulates the sum. Exponential in the variable count: meant only to
    /// produce reference sums for small instances, never for an online run.
    pub fn sum_over_boolean_hypercube(&self) -> (r: Fp)
        requires
            poly_wf(*self),
        ensures
            r.wf(),
            r.modulus == self.modulus,
            r.value == hyper_sum(
                self.terms@,
                Seq::<int>::empty(),
                self.num_variables as nat,
                self.modulus as int,
            ),
    {
        let mut prefix: Vec<Fp> = Vec::new();
        proof {
            assert(fp_vals(prefix@) =~= Seq::<int>::empty());
        }
        self.sum_suffix(&mut prefix, self.num_variables)
    }
}

/// The coefficients of every term of the list whose monomial is exactly
/// `mono`, summed mod `m`.
pub open spec fn sum_coeffs(terms: Seq<Term>, mono: Seq<(usize, u64)>, m: int) -> int
    decreases terms.len(),
{
    if terms.len() == 0 {
        0int
    } else {
        let rest = sum_coeffs(terms.drop_last(), mono, m);
        if terms.last().exponents@ == mono {
            fadd(rest, terms.last().coefficient.value as int, m)
        } else {
            rest
        }
    }
}

/// A fresh copy of a monomial's entry list.
fn copy_pairs(pairs: &Vec<(usize, u64)>) -> (r: Vec<(usize, u64)>)
    ensures
        r@ == pairs@,
{
    let mut r: Vec<(usize, u64)> = Vec::new();
    let mut j: usize = 0;
    while j < pairs.len()
        invariant
            j <= pairs@.len(),
            r@ == pairs@.take(j as int),
        decreases pairs@.len() - j,
    {
        r.push(pairs[j]);
        proof {
            assert(r@ =~= pairs@.take(j as int + 1));
        }
        j = j + 1;
    }
    proof {
        assert(pairs@.take(pairs@.len() as int) =~= pairs@);
    }
    r
}

/// Whether some term among the first `upto` of the list carries exactly the
/// monomial `mono`.
pub open spec fn mono_from(terms: Seq<Term>, upto: int, mono: Seq<(usize, u64)>) -> bool {
    exists|q: int| 0 <= q < upto && (#[trigger] terms[q].exponents@) == mono
}

/// Whether some term of the list carries exactly the monomial `mono`.
pub open spec fn mono_in(out: Seq<Term>, mono: Seq<(usize, u64)>) -> bool {
    exists|j: int| 0 <= j < out.len() && (#[trigger] out[j].exponents@) == mono
}

/// After one merge step every kept monomial still originates in the inputs
/// seen so far.
proof fn lemma_merge_origin(terms: Seq<Term>, before: Seq<Term>, now: Seq<Term>, i: int)
    requires
        0 <= i < terms.len(),
        forall|j: int|
            0 <= j < before.len() ==> mono_from(terms, i, (#[trigger] before[j]).exponents@),
        forall|j: int| 0 <= j < before.len() ==> now[j] == #[trigger] before[j],
        now.len() == before.len() || now.len() == before.len() + 1,
        now.len() > before.len() ==> now.last().exponents@ == terms[i].exponents@,
    ensures
        forall|j: int|
            0 <= j < now.len() ==> mono_from(terms, i + 1, (#[trigger] now[j]).exponents@),
{
    assert forall|j: int|
        0 <= j < now.len() implies mono_from(terms, i + 1, (#[trigger] now[j]).exponents@) by {
        if j < before.len() {
            assert(now[j].exponents@ == before[j].exponents@);
            let qw = choose|q: int|
                0 <= q < i && (#[trigger] terms[q].exponents@) == before[j].exponents@;
            assert(0 <= qw < i + 1 && terms[qw].exponents@ == now[j].exponents@);
        } else {
            assert(terms[i].exponents@ == now[j].exponents@);
        }
    }
}

/// After one merge step every input monomial with a nonzero summed
/// coefficient is still represented.
proof fn lemma_merge_coverage(terms: Seq<Term>, before: Seq<Term>, now: Seq<Term>, i: int, m: int)
    requires
        0 <= i < terms.len(),
        forall|q: int|
            0 <= q < i && sum_coeffs(terms, (#[trigger] terms[q]).exponents@, m) != 0 ==> mono_in(
                before,
                terms[q].exponents@,
            ),
        forall|j: int| 0 <= j < before.len() ==> now[j] == #[trigger] before[j],
        now.len() == before.len() || now.len() == before.len() + 1,
        now.len() > before.len() ==> now.last().exponents@ == terms[i].exponents@,
        now.len() == before.len() ==> mono_from(terms, i, terms[i].exponents@) || sum_coeffs(
            terms,
            terms[i].exponents@,
            m,
        ) == 0,
    ensures
        forall|q: int|
            0 <= q < i + 1 && sum_coeffs(terms, (#[trigger] terms[q]).exponents@, m) != 0
                ==> mono_in(now, terms[q].exponents@),
{
    assert forall|q: int|
        0 <= q < i + 1 && sum_coeffs(terms, (#[trigger] terms[q]).exponents@, m) != 0
            implies mono_in(now, terms[q].exponents@) by {
        if q < i {
            let jw = choose|j: int|
                0 <= j < before.len() && (#[trigger] before[j].exponents@) == terms[q].exponents@;
            assert(now[jw].exponents@ == terms[q].exponents@);
            assert(mono_in(now, terms[q].exponents@));
        } else if now.len() > before.len() {
            assert(now[now.len() - 1].exponents@ == terms[q].exponents@);
            assert(mono_in(now, terms[q].exponents@));
        } else {
            let qd = choose|p: int|
                0 <= p < i && (#[trigger] terms[p].exponents@) == terms[i].exponents@;
            assert(sum_coeffs(terms, terms[qd].exponents@, m) != 0);
            let jw = choose|j: int|
                0 <= j < before.len() && (#[trigger] before[j].exponents@) == terms[qd].exponents@;
            assert(now[jw].exponents@ == terms[q].exponents@);
            assert(mono_in(now, terms[q].exponents@));
        }
    }
}

/// After one merge step the kept monomials stay pairwise distinct: a new
/// monomial is only pushed when it is a first occurrence.
proof fn lemma_merge_distinct(terms: Seq<Term>, before: Seq<Term>, now: Seq<Term>, i: int)
    requires
        0 <= i < terms.len(),
        forall|j: int, l: int|
            0 <= j < l < before.len() ==> (#[trigger] before[j]).exponents@ != (
            #[trigger] before[l]).exponents@,
        forall|j: int|
            0 <= j < before.len() ==> mono_from(terms, i, (#[trigger] before[j]).exponents@),
        forall|j: int| 0 <= j < before.len() ==> now[j] == #[trigger] before[j],
        now.len() == before.len() || now.len() == before.len() + 1,
        now.len() > before.len() ==> now.last().exponents@ == terms[i].exponents@ && !mono_from(
            terms,
            i,
            terms[i].exponents@,
        ),
    ensures
        forall|j: int, l: int|
            0 <= j < l < now.len() ==> (#[trigger] now[j]).exponents@ != (
            #[trigger] now[l]).exponents@,
{
    assert forall|j: int, l: int|
        0 <= j < l < now.len() implies (#[trigger] now[j]).exponents@ != (
    #[trigger] now[l]).exponents@ by {
        if l < before.len() {
            assert(now[j] == before[j] && now[l] == before[l]);
        } else {
            assert(now[l].exponents@ == terms[i].exponents@);
            assert(now[j].exponents@ == before[j].exponents@);
            if now[j].exponents@ == terms[i].exponents@ {
                let qw = choose|q: int|
                    0 <= q < i && (#[trigger] terms[q].exponents@) == before[j].exponents@;
                assert(terms[qw].exponents@ == terms[i].exponents@);
                assert(mono_from(terms, i, terms[i].exponents@));
                assert(false);
            }
        }
    }
}

impl Polynomial {
    /// Builds a polynomial from raw terms, merging equal monomials by
    /// summing their coefficients and dropping any monomial whose summed
    /// coefficient is the additive identity. Each kept term's coefficient is
    /// the mod-`modulus` sum of all input coefficients with its monomial,
    /// and a monomial of the input appears in the result exactly when that
    /// sum is nonzero.
    pub fn from_terms(terms: Vec<Term>, num_variables: usize, modulus: u64) -> (r: Polynomial)
        requires
            2 <= modulus <= MAX_MODULUS,
            forall|i: int|
                0 <= i < terms@.len() ==> term_wf(#[trigger] terms@[i], modulus)
                    && monomial_vars_below(terms@[i].exponents@, num_variables as int),
        ensures
            poly_wf(r),
            r.modulus == modulus,
            r.num_variables == num_variables,
            r.terms@.len() <= terms@.len(),
            forall|j: int|
                0 <= j < r.terms@.len() ==> mono_from(
                    terms@,
                    terms@.len() as int,
                    (#[trigger] r.terms@[j]).exponents@,
                ),
            forall|j: int|
                0 <= j < r.terms@.len() ==> (#[trigger] r.terms@[j]).coefficient.value
                    == sum_coeffs(terms@, r.terms@[j].exponents@, modulus as int),
            forall|q: int|
                0 <= q < terms@.len() && sum_coeffs(
                    terms@,
                    (#[trigger] terms@[q]).exponents@,
                    modulus as int,
                ) != 0 ==> mono_in(r.terms@, terms@[q].exponents@),
    {
        let ghost mi = modulus as int;
        let mut out: Vec<Term> = Vec::new();
        let mut i: usize = 0;
        while i < terms.len()
            invariant
                2 <= modulus <= MAX_MODULUS,
                mi == modulus as int,
                i <= terms@.len(),
                out@.len() <= i,
                forall|q: int|
                    0 <= q < terms@.len() ==> term_wf(#[trigger] terms@[q], modulus)
                        && monomial_vars_below(terms@[q].exponents@, num_variables as int),
                forall|j: int|
                    0 <= j < out@.len() ==> term_wf(#[trigger] out@[j], modulus)
                        && out@[j].coefficient.value != 0 && monomial_vars_below(
                        out@[j].exponents@,
                        num_variables as int,
                    ),
                forall|j: int|
                    0 <= j < out@.len() ==> mono_from(
                        terms@,
                        i as int,
                        (#[trigger] out@[j]).exponents@,
                    ),
                forall|j: int|
                    0 <= j < out@.len() ==> (#[trigger] out@[j]).coefficient.value == sum_coeffs(
                        terms@,
                        out@[j].exponents@,
                        mi,
                    ),
                forall|j: int, l: int|
                    0 <= j < l < out@.len() ==> (#[trigger] out@[j]).exponents@ != (
                    #[trigger] out@[l]).exponents@,
                forall|q: int|
                    0 <= q < i && sum_coeffs(terms@, (#[trigger] terms@[q]).exponents@, mi) != 0
                        ==> mono_in(out@, terms@[q].exponents@),
            decreases terms@.len() - i,
        {
            let ghost out_before = out@;
            let ghost mono = terms@[i as int].exponents@;
            let ghost total_i = sum_coeffs(terms@, mono, mi);
            let mut dup = false;
            let mut j: usize = 0;
            while j < i
                invariant
                    i < terms@.len(),
                    j <= i,
                    dup == mono_from(terms@, j as int, terms@[i as int].exponents@),
                decreases i - j,
            {
                if terms[j].same_monomial(&terms[i]) {
                    proof {
                        assert(terms@[j as int].exponents@ == terms@[i as int].exponents@);
                        assert(mono_from(terms@, j as int + 1, terms@[i as int].exponents@));
                    }
                    dup = true;
                } else {
                    proof {
                        if mono_from(terms@, j as int + 1, terms@[i as int].exponents@) {
                            let qw = choose|q: int|
                                0 <= q < j + 1 && (#[trigger] terms@[q].exponents@)
                                    == terms@[i as int].exponents@;
                            assert(mono_from(terms@, j as int, terms@[i as int].exponents@));
                        }
                    }
                }
                j = j + 1;
            }
            if !dup {
                let mut csum = Fp::zero(modulus);
                proof {
                    assert(terms@.take(0int) =~= Seq::<Term>::empty());
                }
                let mut q: usize = 0;
                while q < terms.len()
                    invariant
                        2 <= modulus <= MAX_MODULUS,
                        mi == modulus as int,
                        i < terms@.len(),
                        mono == terms@[i as int].exponents@,
                        q <= terms@.len(),
                        csum.wf(),
                        csum.modulus == modulus,
                        csum.value == sum_coeffs(terms@.take(q as int), mono, mi),
                        forall|l: int|
                            0 <= l < terms@.len() ==> term_wf(#[trigger] terms@[l], modulus),
                    decreases terms@.len() - q,
                {
                    proof {
                        let taken = terms@.take(q as int + 1);
                        assert(taken.drop_last() =~= terms@.take(q as int));
                        assert(taken.last() == terms@[q as int]);
                    }
                    if terms[q].same_monomial(&terms[i]) {
                        csum = csum.add(terms[q].coefficient);
                    }
                    q = q + 1;
                }
                proof {
                    assert(terms@.take(terms@.len() as int) =~= terms@);
                    assert(csum.value == total_i);
                }
                if csum.value != 0 {
                    let kept = Term {
                        coefficient: csum,
                        exponents: copy_pairs(&terms[i].exponents),
                    };
                    proof {
                        assert(kept.exponents@ == mono);
                        assert(term_wf(kept, modulus));
                    }
                    out.push(kept);
                }
            }
            proof {
                assert(forall|j: int|
                    0 <= j < out_before.len() ==> out@[j] == #[trigger] out_before[j]);
                if out@.len() > out_before.len() {
                    assert(out@.len() == out_before.len() + 1);
                    assert(out@.last().exponents@ == mono);
                    assert(out@.last().coefficient.value == total_i);
                    assert(total_i != 0);
                    assert(!mono_from(terms@, i as int, mono));
                }
                lemma_merge_origin(terms@, out_before, out@, i as int);
                lemma_merge_coverage(terms@, out_before, out@, i as int, mi);
                lemma_merge_distinct(terms@, out_before, out@, i as int);
            }
            i = i + 1;
        }
        Polynomial { terms: out, num_variables, modulus }
    }
}

/// The largest variable index appearing in any term of the list, or zero for
/// an empty list.
pub open spec fn spec_max_var_index(terms: Seq<Term>) -> nat
    decreases terms.len(),
{
    if terms.len() == 0 {
        0
    } else {
        let rest = spec_max_var_index(terms.drop_last());
        let here = spec_max_var_in_pairs(terms.last().exponents@);
        if here > rest {
            here
        } else {
            rest
        }
    }
}

/// The largest variable index among the monomial's entries, or zero.
pub open spec fn spec_max_var_in_pairs(pairs: Seq<(usize, u64)>) -> nat
    decreases pairs.len(),
{
    if pairs.len() == 0 {
        0
    } else {
        let rest = spec_max_var_in_pairs(pairs.drop_last());
        if pairs.last().0 > rest {
            pairs.last().0 as nat
        } else {
            rest
        }
    }
}

/// The number of variables a term list spans: one more than the largest
/// variable index appearing in it.
pub fn count_active_variables(terms: &Vec<Term>) -> (r: usize)
    requires
        spec_max_var_index(terms@) < usize::MAX,
    ensures
        r == spec_max_var_index(terms@) + 1,
{
    let mut max_index: usize = 0;
    proof {
        assert(terms@.take(0int) =~= Seq::<Term>::empty());
    }
    let mut i: usize = 0;
    while i < terms.len()
        invariant
            spec_max_var_index(terms@) < usize::MAX,
            i <= terms@.len(),
            max_index == spec_max_var_index(terms@.take(i as int)),
        decreases terms@.len() - i,
    {
        let pairs = &terms[i].exponents;
        let ghost pre = max_index;
        proof {
            assert(pairs@.take(0int) =~= Seq::<(usize, u64)>::empty());
        }
        let mut j: usize = 0;
        while j < pairs.len()
            invariant
                j <= pairs@.len(),
                pairs@ == terms@[i as int].exponents@,
                i < terms@.len(),
                max_index == if spec_max_var_in_pairs(pairs@.take(j as int)) > pre {
                    spec_max_var_in_pairs(pairs@.take(j as int))
                } else {
                    pre as nat
                },
            decreases pairs@.len() - j,
        {
            let (v, _e) = pairs[j];
            proof {
                let taken = pairs@.take(j as int + 1);
                assert(taken.drop_last() =~= pairs@.take(j as int));
                assert(taken.last() == pairs@[j as int]);
            }
            if v > max_index {
                max_index = v;
            }
            j = j + 1;
        }
        proof {
            let taken = terms@.take(i as int + 1);
            assert(taken.drop_last() =~= terms@.take(i as int));
            assert(taken.last() == terms@[i as int]);
            assert(pairs@.take(pairs@.len() as int) =~= pairs@);
        }
        i = i + 1;
    }
    proof {
        assert(terms@.take(terms@.len() as int) =~= terms@);
    }
    max_index + 1
}

/// The number of variables the polynomial actually uses: one more than the
/// largest variable index of any term.
/// Every variable of the monomial is bounded by the monomial's largest one.
pub proof fn lemma_max_var_in_pairs_cover(pairs: Seq<(usize, u64)>)
    ensures
        forall|j: int| 0 <= j < pairs.len() ==> (#[trigger] pairs[j]).0 <= spec_max_var_in_pairs(
            pairs,
        ),
    decreases pairs.len(),
{
    if pairs.len() > 0 {
        lemma_max_var_in_pairs_cover(pairs.drop_last());
        assert forall|j: int|
            0 <= j < pairs.len() implies (#[trigger] pairs[j]).0 <= spec_max_var_in_pairs(
            pairs,
        ) by {
            if j < pairs.len() - 1 {
                assert(pairs.drop_last()[j] == pairs[j]);
            }
        }
    }
}

/// When every variable of the monomial lies below `b`, so does its largest.
pub proof fn lemma_max_var_in_pairs_bounded(pairs: Seq<(usize, u64)>, b: int)
    requires
        1 <= b,
        monomial_vars_below(pairs, b),
    ensures
        spec_max_var_in_pairs(pairs) < b,
    decreases pairs.len(),
{
    if pairs.len() > 0 {
        assert(monomial_vars_below(pairs.drop_last(), b));
        lemma_max_var_in_pairs_bounded(pairs.drop_last(), b);
    }
}

/// Every term's variables lie below one more than the list's largest
/// variable index.
pub proof fn lemma_max_var_index_cover(terms: Seq<Term>)
    ensures
        forall|i: int|
            0 <= i < terms.len() ==> monomial_vars_below(
                (#[trigger] terms[i]).exponents@,
                spec_max_var_index(terms) + 1int,
            ),
    decreases terms.len(),
{
    if terms.len() > 0 {
        lemma_max_var_index_cover(terms.drop_last());
        lemma_max_var_in_pairs_cover(terms.last().exponents@);
        assert forall|i: int|
            0 <= i < terms.len() implies monomial_vars_below(
            (#[trigger] terms[i]).exponents@,
            spec_max_var_index(terms) + 1int,
        ) by {
            if i < terms.len() - 1 {
                assert(terms.drop_last()[i] == terms[i]);
                assert(monomial_vars_below(
                    terms[i].exponents@,
                    spec_max_var_index(terms.drop_last()) + 1int,
                ));
            }
        }
    }
}

/// When every term's variables lie below `b`, the largest index does too.
pub proof fn lemma_max_var_index_bounded(terms: Seq<Term>, b: int)
    requires
        1 <= b,
        forall|i: int|
            0 <= i < terms.len() ==> monomial_vars_below((#[trigger] terms[i]).exponents@, b),
    ensures
        spec_max_var_index(terms) < b,
    decreases terms.len(),
{
    if terms.len() > 0 {
        assert forall|i: int|
            0 <= i < terms.len() - 1 implies monomial_vars_below(
            (#[trigger] terms.drop_last()[i]).exponents@,
            b,
        ) by {
            assert(terms.drop_last()[i] == terms[i]);
        }
        lemma_max_var_index_bounded(terms.drop_last(), b);
        lemma_max_var_in_pairs_bounded(terms.last().exponents@, b);
    }
}

/// One random monomial: each variable index from zero through
/// `num_variables` enters with an even chance, with a random exponent
/// between one and `max_degree`.
fn generate_term_from_var_index(num_variables: usize, max_degree: u64) -> (vars: Vec<
    (usize, u64),
>)
    requires
        max_degree >= 1,
        num_variables < usize::MAX,
    ensures
        monomial_wf(vars@),
        monomial_vars_below(vars@, num_variables as int + 1),
        forall|j: int|
            0 <= j < vars@.len() ==> 1 <= (#[trigger] vars@[j]).1 <= max_degree && vars@[j].0
                <= num_variables,
{
    let mut vars: Vec<(usize, u64)> = Vec::new();
    let mut i: usize = 0;
    while i <= num_variables
        invariant
            max_degree >= 1,
            num_variables < usize::MAX,
            i <= num_variables + 1,
            forall|j: int| 0 <= j < vars@.len() ==> (#[trigger] vars@[j]).0 < i,
            forall|j: int, l: int|
                0 <= j < l < vars@.len() ==> (#[trigger] vars@[j]).0 < (#[trigger] vars@[l]).0,
            forall|j: int|
                0 <= j < vars@.len() ==> 1 <= (#[trigger] vars@[j]).1 <= max_degree && vars@[j].0
                    <= num_variables,
        decreases num_variables + 1 - i,
    {
        if crate::utils::rand_coin() {
            if i == 0 {
                let degree = crate::utils::rand_range_inclusive(1, max_degree);
                vars.push((0, degree));
            } else {
                let degree = crate::utils::rand_range_inclusive(0, max_degree);
                if degree > 0 {
                    vars.push((i, degree));
                }
            }
        }
        i = i + 1;
    }
    vars
}

/// A random sparse polynomial: a random number of random terms, each over a
/// random subset of the variables with random exponents and a random
/// coefficient; the variable count is taken from the variables actually
/// used. Merging at construction keeps the result well formed.
pub fn generate_random_polynomial(
    max_num_variables: usize,
    max_degree: u64,
    max_terms: u64,
    modulus: u64,
) -> (r: Polynomial)
    requires
        max_terms >= 1,
        max_degree >= 1,
        2 <= modulus <= MAX_MODULUS,
        max_num_variables + 2 < usize::MAX,
    ensures
        poly_wf(r),
        r.modulus == modulus,
        r.terms@.len() <= max_terms,
        r.num_variables <= max_num_variables + 1,
        forall|j: int, l: int|
            0 <= j < r.terms@.len() && 0 <= l < r.terms@[j].exponents@.len() ==> 1 <= (
            #[trigger] r.terms@[j].exponents@[l]).1 <= max_degree
                && r.terms@[j].exponents@[l].0 <= max_num_variables,
{
    let num_terms = crate::utils::rand_range_inclusive(1, max_terms);
    let mut raw: Vec<Term> = Vec::new();
    let mut t: u64 = 0;
    while t < num_terms
        invariant
            max_degree >= 1,
            2 <= modulus <= MAX_MODULUS,
            max_num_variables + 2 < usize::MAX,
            num_terms <= max_terms,
            t <= num_terms,
            raw@.len() <= t,
            forall|q: int|
                0 <= q < raw@.len() ==> term_wf(#[trigger] raw@[q], modulus)
                    && monomial_vars_below(raw@[q].exponents@, max_num_variables as int + 1),
            forall|q: int, l: int|
                0 <= q < raw@.len() && 0 <= l < raw@[q].exponents@.len() ==> 1 <= (
                #[trigger] raw@[q].exponents@[l]).1 <= max_degree && raw@[q].exponents@[l].0
                    <= max_num_variables,
        decreases num_terms - t,
    {
        let vars = generate_term_from_var_index(max_num_variables, max_degree);
        if vars.len() > 0 {
            let coefficient = Fp::new(crate::utils::rand_below(modulus), modulus);
            raw.push(Term { coefficient, exponents: vars });
        }
        t = t + 1;
    }
    proof {
        lemma_max_var_index_bounded(raw@, max_num_variables as int + 1);
        lemma_max_var_index_cover(raw@);
    }
    let num_variables = count_active_variables(&raw);
    let ghost raw_view = raw@;
    let p = Polynomial::from_terms(raw, num_variables, modulus);
    proof {
        assert forall|j: int, l: int|
            0 <= j < p.terms@.len() && 0 <= l < p.terms@[j].exponents@.len() implies 1 <= (
        #[trigger] p.terms@[j].exponents@[l]).1 <= max_degree && p.terms@[j].exponents@[l].0
            <= max_num_variables by {
            assert(mono_from(raw_view, raw_view.len() as int, p.terms@[j].exponents@));
            let qw = choose|q: int|
                0 <= q < raw_view.len() && (#[trigger] raw_view[q].exponents@)
                    == p.terms@[j].exponents@;
            assert(raw_view[qw].exponents@[l] == p.terms@[j].exponents@[l]);
        }
    }
    p
}

pub fn max_variables(polynomial: &Polynomial) -> (r: usize)
    requires
        spec_max_var_index(polynomial.terms@) < usize::MAX,
    ensures
        r == spec_max_var_index(polynomial.terms@) + 1,
{
    count_active_variables(&polynomial.terms)
}

} // verus!
