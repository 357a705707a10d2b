//! One term of a sparse multivariate polynomial: a coefficient times a
//! monomial. The monomial is a list of (variable index, exponent) entries in
//! strictly ascending variable order; an absent variable has exponent zero,
//! a present entry always has a positive exponent.

use crate::field::{
    fmul, fpow, fp_seq_wf, fp_vals, lemma_fmul_zero, lemma_fpow_zero_base, lemma_one_mod, Fp,
};
use vstd::prelude::*;

verus! {

/// A coefficient paired with a monomial.
pub struct Term {
    pub coefficient: Fp,
    pub exponents: Vec<(usize, u64)>,
}

/// The monomial entries are strictly ascending in the variable index and
/// every exponent is positive.
pub open spec fn monomial_wf(pairs: Seq<(usize, u64)>) -> bool {
    &&& forall|j: int| 0 <= j < pairs.len() ==> (#[trigger] pairs[j]).1 >= 1
    &&& forall|j: int, k: int|
        0 <= j < k < pairs.len() ==> (#[trigger] pairs[j]).0 < (#[trigger] pairs[k]).0
}

/// All variable indices of the monomial lie below `n`.
pub open spec fn monomial_vars_below(pairs: Seq<(usize, u64)>, n: int) -> bool {
    forall|j: int| 0 <= j < pairs.len() ==> (#[trigger] pairs[j]).0 < n
}

/// The term is well formed for the given modulus: a reduced coefficient and
/// a well-formed monomial.
pub open spec fn term_wf(t: Term, modulus: u64) -> bool {
    &&& t.coefficient.wf()
    &&& t.coefficient.modulus == modulus
    &&& monomial_wf(t.exponents@)
}

/// Whether some monomial entry names variable `v`.
pub open spec fn touched(pairs: Seq<(usize, u64)>, v: int) -> bool {
    exists|j: int| 0 <= j < pairs.len() && (#[trigger] pairs[j]).0 == v
}

/// The exponent of variable `v` in the monomial, zero when absent.
pub open spec fn exp_in_pairs(pairs: Seq<(usize, u64)>, v: int) -> nat
    decreases pairs.len(),
{
    if pairs.len() == 0 {
        0
    } else if pairs.last().0 == v {
        pairs.last().1 as nat
    } else {
        exp_in_pairs(pairs.drop_last(), v)
    }
}

/// Product of `assign[v]^e` over the monomial entries `(v, e)`, mod `m`.
pub open spec fn prod_pairs(pairs: Seq<(usize, u64)>, assign: Seq<int>, m: int) -> int
    decreases pairs.len(),
{
    if pairs.len() == 0 {
        1int % m
    } else {
        fmul(
            prod_pairs(pairs.drop_last(), assign, m),
            fpow(assign[pairs.last().0 as int], pairs.last().1 as nat, m),
            m,
        )
    }
}

/// Value of the term at `assign`, mod `m`: coefficient times the monomial.
pub open spec fn term_eval(t: Term, assign: Seq<int>, m: int) -> int {
    fmul(t.coefficient.value as int, prod_pairs(t.exponents@, assign, m), m)
}

impl Term {
    /// Multiplies the coefficient by `variables[v]^e` for each monomial
    /// entry `(v, e)`.
    pub fn evaluate(&self, variables: &Vec<Fp>) -> (r: Fp)
        requires
            term_wf(*self, self.coefficient.modulus),
            monomial_vars_below(self.exponents@, variables@.len() as int),
            fp_seq_wf(variables@, self.coefficient.modulus),
        ensures
            r.wf(),
            r.modulus == self.coefficient.modulus,
            r.value == term_eval(*self, fp_vals(variables@), self.coefficient.modulus as int),
    {
        let m = self.coefficient.modulus;
        let ghost assign = fp_vals(variables@);
        let mut prod = Fp::one(m);
        proof {
            lemma_one_mod(m as int);
            assert(self.exponents@.take(0int) =~= Seq::<(usize, u64)>::empty());
        }
        let mut j: usize = 0;
        while j < self.exponents.len()
            invariant
                term_wf(*self, m),
                m == self.coefficient.modulus,
                monomial_vars_below(self.exponents@, variables@.len() as int),
                fp_seq_wf(variables@, m),
                assign == fp_vals(variables@),
                j <= self.exponents@.len(),
                prod.wf(),
                prod.modulus == m,
                prod.value == prod_pairs(self.exponents@.take(j as int), assign, m as int),
            decreases self.exponents@.len() - j,
        {
            let (v, e) = self.exponents[j];
            let factor = variables[v].pow(e);
            proof {
                let taken = self.exponents@.take(j as int + 1);
                assert(taken.drop_last() =~= self.exponents@.take(j as int));
                assert(taken.last() == self.exponents@[j as int]);
                assert(assign[v as int] == variables@[v as int].value as int);
            }
            prod = prod.mul(factor);
            j = j + 1;
        }
        proof {
            assert(self.exponents@.take(self.exponents@.len() as int) =~= self.exponents@);
        }
        self.coefficient.mul(prod)
    }

    /// The exponent of `variable` in the monomial, zero when absent.
    pub fn exponent_of(&self, variable: usize) -> (e: u64)
        requires
            monomial_wf(self.exponents@),
        ensures
            e == exp_in_pairs(self.exponents@, variable as int),
            e >= 1 <==> touched(self.exponents@, variable as int),
    {
        proof {
            lemma_exp_in_pairs(self.exponents@, variable as int);
        }
        let mut j: usize = 0;
        while j < self.exponents.len()
            invariant
                monomial_wf(self.exponents@),
                j <= self.exponents@.len(),
                forall|k: int| 0 <= k < j ==> (#[trigger] self.exponents@[k]).0 != variable,
            decreases self.exponents@.len() - j,
        {
            let (v, e) = self.exponents[j];
            if v == variable {
                proof {
                    lemma_exp_in_pairs(self.exponents@, variable as int);
                    assert((self.exponents@[j as int]).0 == variable);
                    assert(e == (self.exponents@[j as int]).1);
                    assert(touched(self.exponents@, variable as int));
                }
                return e;
            }
            j = j + 1;
        }
        proof {
            assert(!touched(self.exponents@, variable as int));
        }
        0
    }

    /// Whether the two terms have exactly the same monomial.
    pub fn same_monomial(&self, other: &Term) -> (r: bool)
        ensures
            r == (self.exponents@ == other.exponents@),
    {
        if self.exponents.len() != other.exponents.len() {
            proof {
                assert(self.exponents@ != other.exponents@);
            }
            return false;
        }
        let mut j: usize = 0;
        while j < self.exponents.len()
            invariant
                self.exponents@.len() == other.exponents@.len(),
                j <= self.exponents@.len(),
                forall|k: int| 0 <= k < j ==> self.exponents@[k] == other.exponents@[k],
            decreases self.exponents@.len() - j,
        {
            let (v1, e1) = self.exponents[j];
            let (v2, e2) = other.exponents[j];
            if v1 != v2 || e1 != e2 {
                proof {
                    assert(self.exponents@[j as int] != other.exponents@[j as int]);
                }
                return false;
            }
            j = j + 1;
        }
        proof {
            assert(self.exponents@ =~= other.exponents@);
        }
        true
    }
}

/// A list whose adjacent variable indices ascend strictly ascends strictly
/// everywhere.
pub proof fn lemma_adjacent_ascending(pairs: Seq<(usize, u64)>)
    requires
        forall|k: int| 0 < k < pairs.len() ==> (#[trigger] pairs[k]).0 > pairs[k - 1].0,
    ensures
        forall|j: int, k: int|
            0 <= j < k < pairs.len() ==> (#[trigger] pairs[j]).0 < (#[trigger] pairs[k]).0,
{
    assert forall|j: int, k: int|
        0 <= j < k < pairs.len() implies (#[trigger] pairs[j]).0 < (#[trigger] pairs[k]).0 by {
        lemma_ascending_step(pairs, j, k);
    }
}

proof fn lemma_ascending_step(pairs: Seq<(usize, u64)>, j: int, k: int)
    requires
        forall|i: int| 0 < i < pairs.len() ==> (#[trigger] pairs[i]).0 > pairs[i - 1].0,
        0 <= j < k < pairs.len(),
    ensures
        pairs[j].0 < pairs[k].0,
    decreases k - j,
{
    if j + 1 < k {
        lemma_ascending_step(pairs, j, k - 1);
    }
}

/// Two assignments that agree on every variable of the monomial give the
/// same monomial product.
pub proof fn lemma_prod_pairs_agree(
    pairs: Seq<(usize, u64)>,
    a1: Seq<int>,
    a2: Seq<int>,
    m: int,
)
    requires
        forall|j: int|
            0 <= j < pairs.len() ==> a1[(#[trigger] pairs[j]).0 as int] == a2[pairs[j].0 as int],
    ensures
        prod_pairs(pairs, a1, m) == prod_pairs(pairs, a2, m),
    decreases pairs.len(),
{
    if pairs.len() > 0 {
        lemma_prod_pairs_agree(pairs.drop_last(), a1, a2, m);
    }
}

/// A monomial entry whose variable is assigned zero makes the whole
/// monomial product vanish.
pub proof fn lemma_prod_pairs_zero(
    pairs: Seq<(usize, u64)>,
    assign: Seq<int>,
    m: int,
    j: int,
)
    requires
        0 < m,
        0 <= j < pairs.len(),
        pairs[j].1 >= 1,
        assign[pairs[j].0 as int] == 0,
    ensures
        prod_pairs(pairs, assign, m) == 0,
    decreases pairs.len(),
{
    if j == pairs.len() - 1 {
        lemma_fpow_zero_base(pairs.last().1 as nat, m);
        lemma_fmul_zero(prod_pairs(pairs.drop_last(), assign, m), m);
    } else {
        lemma_prod_pairs_zero(pairs.drop_last(), assign, m, j);
        lemma_fmul_zero(fpow(assign[pairs.last().0 as int], pairs.last().1 as nat, m), m);
    }
}

/// A monomial product is a reduced residue.
pub proof fn lemma_prod_pairs_range(pairs: Seq<(usize, u64)>, assign: Seq<int>, m: int)
    requires
        0 < m,
    ensures
        0 <= prod_pairs(pairs, assign, m) < m,
{
    if pairs.len() == 0 {
    }
}

/// In a well-formed monomial the entry for variable `v`, when present,
/// gives `exp_in_pairs`; when no entry names `v`, the exponent is zero.
pub proof fn lemma_exp_in_pairs(pairs: Seq<(usize, u64)>, v: int)
    requires
        monomial_wf(pairs),
    ensures
        !touched(pairs, v) ==> exp_in_pairs(pairs, v) == 0,
        forall|j: int|
            0 <= j < pairs.len() && (#[trigger] pairs[j]).0 == v ==> exp_in_pairs(pairs, v)
                == pairs[j].1,
        touched(pairs, v) ==> exp_in_pairs(pairs, v) >= 1,
    decreases pairs.len(),
{
    if pairs.len() > 0 {
        assert(monomial_wf(pairs.drop_last()));
        lemma_exp_in_pairs(pairs.drop_last(), v);
        if pairs.last().0 == v {
            assert forall|j: int| 0 <= j < pairs.len() - 1 implies (#[trigger] pairs[j]).0 != v by {
                assert(pairs[j].0 < pairs.last().0);
            }
        } else {
            if touched(pairs, v) {
                let j = choose|j: int| 0 <= j < pairs.len() && (#[trigger] pairs[j]).0 == v;
                assert(j < pairs.len() - 1);
                assert((pairs.drop_last()[j]).0 == v);
                assert(touched(pairs.drop_last(), v));
            }
            assert forall|j: int|
                0 <= j < pairs.len() && (#[trigger] pairs[j]).0 == v implies exp_in_pairs(
                pairs,
                v,
            ) == pairs[j].1 by {
                assert(j < pairs.len() - 1);
                assert((pairs.drop_last()[j]).0 == v);
                assert(touched(pairs.drop_last(), v));
            }
        }
    }
}

} // verus!
