//! Prime-field arithmetic on canonical residues.
//!
//! A field element is a reduced residue `value < modulus` together with its
//! modulus. The spec-level model is plain modular arithmetic on `int`:
//! `fadd`, `fmul` and `fpow`. The lemmas at the bottom are the algebraic
//! facts (associativity, commutativity, distributivity, identities) that the
//! protocol proofs build on.

use vstd::arithmetic::div_mod::{
    lemma_add_mod_noop, lemma_add_mod_noop_right, lemma_mul_mod_noop_left, lemma_mul_mod_noop_right,
    lemma_small_mod,
};
use vstd::arithmetic::mul::{lemma_mul_is_associative, lemma_mul_is_distributive_add};
use vstd::prelude::*;

verus! {

/// Largest modulus the arithmetic supports: the product of two reduced
/// residues must fit in a `u64`.
pub const MAX_MODULUS: u64 = 0xFFFF_FFFF;

/// Addition in the integers mod `m`.
pub open spec fn fadd(a: int, b: int, m: int) -> int {
    (a + b) % m
}

/// Multiplication in the integers mod `m`.
pub open spec fn fmul(a: int, b: int, m: int) -> int {
    (a * b) % m
}

/// Exponentiation in the integers mod `m`.
pub open spec fn fpow(b: int, e: nat, m: int) -> int
    decreases e,
{
    if e == 0 {
        1int % m
    } else {
        fmul(fpow(b, (e - 1) as nat, m), b, m)
    }
}

/// An element of the integers mod `modulus`, held as its canonical
/// representative.
#[derive(Clone, Copy, Debug, PartialEq, Eq, Structural)]
pub struct Fp {
    pub value: u64,
    pub modulus: u64,
}

impl Fp {
    /// The element is a reduced residue for a modulus the arithmetic supports.
    pub open spec fn wf(self) -> bool {
        &&& 2 <= self.modulus <= MAX_MODULUS
        &&& self.value < self.modulus
    }

    /// The modulus as a mathematical integer.
    pub open spec fn m(self) -> int {
        self.modulus as int
    }

    /// Reduces `value` mod `modulus`.
    pub fn new(value: u64, modulus: u64) -> (r: Fp)
        requires
            2 <= modulus <= MAX_MODULUS,
        ensures
            r.wf(),
            r.modulus == modulus,
            r.value == value as int % modulus as int,
    {
        Fp { value: value % modulus, modulus }
    }

    /// The additive identity.
    pub fn zero(modulus: u64) -> (r: Fp)
        requires
            2 <= modulus <= MAX_MODULUS,
        ensures
            r.wf(),
            r.modulus == modulus,
            r.value == 0,
    {
        Fp { value: 0, modulus }
    }

    /// The multiplicative identity.
    pub fn one(modulus: u64) -> (r: Fp)
        requires
            2 <= modulus <= MAX_MODULUS,
        ensures
            r.wf(),
            r.modulus == modulus,
            r.value == 1,
    {
        Fp { value: 1, modulus }
    }

    /// Field addition.
    pub fn add(self, other: Fp) -> (r: Fp)
        requires
            self.wf(),
            other.wf(),
            self.modulus == other.modulus,
        ensures
            r.wf(),
            r.modulus == self.modulus,
            r.value == fadd(self.value as int, other.value as int, self.m()),
    {
        Fp { value: (self.value + other.value) % self.modulus, modulus: self.modulus }
    }

    /// Field multiplication.
    pub fn mul(self, other: Fp) -> (r: Fp)
        requires
            self.wf(),
            other.wf(),
            self.modulus == other.modulus,
        ensures
            r.wf(),
            r.modulus == self.modulus,
            r.value == fmul(self.value as int, other.value as int, self.m()),
    {
        proof {
            assert((self.value as int) * (other.value as int) < 0x1_0000_0000_0000_0000)
                by (nonlinear_arith)
                requires
                    self.value < 0x1_0000_0000,
                    other.value < 0x1_0000_0000,
            ;
        }
        Fp { value: (self.value * other.value) % self.modulus, modulus: self.modulus }
    }

    /// Field exponentiation by a machine integer.
    pub fn pow(self, e: u64) -> (r: Fp)
        requires
            self.wf(),
        ensures
            r.wf(),
            r.modulus == self.modulus,
            r.value == fpow(self.value as int, e as nat, self.m()),
    {
        let mut acc = Fp { value: 1 % self.modulus, modulus: self.modulus };
        let mut i: u64 = 0;
        while i < e
            invariant
                self.wf(),
                acc.wf(),
                acc.modulus == self.modulus,
                i <= e,
                acc.value == fpow(self.value as int, i as nat, self.m()),
            decreases e - i,
        {
            acc = acc.mul(self);
            i = i + 1;
        }
        acc
    }
}

/// The values of a sequence of field elements, as mathematical integers.
pub open spec fn fp_vals(s: Seq<Fp>) -> Seq<int> {
    s.map_values(|f: Fp| f.value as int)
}

/// Every element of the sequence is a reduced residue for `modulus`.
pub open spec fn fp_seq_wf(s: Seq<Fp>, modulus: u64) -> bool {
    forall|i: int| 0 <= i < s.len() ==> (#[trigger] s[i]).wf() && s[i].modulus == modulus
}

/// One is its own residue for any modulus above one.
pub proof fn lemma_one_mod(m: int)
    requires
        2 <= m,
    ensures
        1int % m == 1,
{
    lemma_small_mod(1, m as nat);
}

/// A reduced residue is its own remainder.
pub proof fn lemma_mod_identity(a: int, m: int)
    requires
        0 <= a < m,
    ensures
        a % m == a,
{
    lemma_small_mod(a as nat, m as nat);
}

/// Addition mod `m` is associative.
pub proof fn lemma_fadd_assoc(a: int, b: int, c: int, m: int)
    requires
        0 < m,
    ensures
        fadd(fadd(a, b, m), c, m) == fadd(a, fadd(b, c, m), m),
{
    lemma_add_mod_noop_right(c, a + b, m);
    lemma_add_mod_noop_right(a, b + c, m);
    assert(fadd(fadd(a, b, m), c, m) == (c + (a + b) % m) % m);
    assert((c + (a + b)) % m == (a + (b + c)) % m);
}

/// Multiplication mod `m` is commutative.
pub proof fn lemma_fmul_comm(a: int, b: int, m: int)
    ensures
        fmul(a, b, m) == fmul(b, a, m),
{
}

/// Reducing the left factor first does not change a product mod `m`.
pub proof fn lemma_fmul_mod_left(a: int, b: int, m: int)
    requires
        0 < m,
    ensures
        fmul(a % m, b, m) == fmul(a, b, m),
{
    lemma_mul_mod_noop_left(a, b, m);
}

/// Multiplication mod `m` is associative.
pub proof fn lemma_fmul_assoc(a: int, b: int, c: int, m: int)
    requires
        0 < m,
    ensures
        fmul(fmul(a, b, m), c, m) == fmul(a, fmul(b, c, m), m),
{
    lemma_mul_mod_noop_left(a * b, c, m);
    lemma_mul_mod_noop_right(a, b * c, m);
    lemma_mul_is_associative(a, b, c);
}

/// Swapping the second and third operand of a double sum mod `m`.
pub proof fn lemma_fadd_exchange(a: int, b: int, c: int, m: int)
    requires
        0 < m,
    ensures
        fadd(fadd(a, b, m), c, m) == fadd(fadd(a, c, m), b, m),
{
    lemma_fadd_assoc(a, b, c, m);
    lemma_fadd_assoc(a, c, b, m);
}

/// Regrouping a sum of four summands mod `m`.
pub proof fn lemma_fadd_shuffle(a: int, b: int, c: int, d: int, m: int)
    requires
        0 < m,
    ensures
        fadd(fadd(a, b, m), fadd(c, d, m), m) == fadd(fadd(a, c, m), fadd(b, d, m), m),
{
    lemma_add_mod_noop(a + b, c + d, m);
    lemma_add_mod_noop(a + c, b + d, m);
    assert(((a + b) + (c + d)) % m == ((a + c) + (b + d)) % m);
}

/// Swapping the second and third factor of a double product mod `m`.
pub proof fn lemma_fmul_exchange(a: int, b: int, c: int, m: int)
    requires
        0 < m,
    ensures
        fmul(fmul(a, b, m), c, m) == fmul(fmul(a, c, m), b, m),
{
    lemma_fmul_assoc(a, b, c, m);
    lemma_fmul_assoc(a, c, b, m);
    lemma_fmul_comm(b, c, m);
}

/// Multiplication mod `m` distributes over addition mod `m`.
pub proof fn lemma_fmul_fadd_distrib(a: int, b: int, c: int, m: int)
    requires
        0 < m,
    ensures
        fmul(a, fadd(b, c, m), m) == fadd(fmul(a, b, m), fmul(a, c, m), m),
{
    lemma_mul_mod_noop_right(a, b + c, m);
    lemma_mul_is_distributive_add(a, b, c);
    lemma_add_mod_noop(a * b, a * c, m);
}

/// Multiplying a reduced residue by one mod `m` leaves it unchanged.
pub proof fn lemma_fmul_one(a: int, m: int)
    requires
        0 < m,
    ensures
        fmul(a, 1int % m, m) == a % m,
{
    lemma_mul_mod_noop_right(a, 1, m);
}

/// Zero absorbs multiplication mod `m`.
pub proof fn lemma_fmul_zero(a: int, m: int)
    requires
        0 < m,
    ensures
        fmul(a, 0, m) == 0,
        fmul(0, a, m) == 0,
{
    assert(a * 0 == 0) by (nonlinear_arith);
    assert(0 * a == 0) by (nonlinear_arith);
}

/// Adding zero mod `m` only reduces the other summand.
pub proof fn lemma_fadd_zero(a: int, m: int)
    requires
        0 < m,
    ensures
        fadd(a, 0, m) == a % m,
        fadd(0, a, m) == a % m,
{
}

/// Reducing the base first does not change a power mod `m`.
pub proof fn lemma_fpow_base_mod(b: int, e: nat, m: int)
    requires
        0 < m,
    ensures
        fpow(b % m, e, m) == fpow(b, e, m),
    decreases e,
{
    if e > 0 {
        lemma_fpow_base_mod(b, (e - 1) as nat, m);
        lemma_mul_mod_noop_right(fpow(b, (e - 1) as nat, m), b, m);
    }
}

/// One raised to any power mod `m` is one.
pub proof fn lemma_fpow_one_base(e: nat, m: int)
    requires
        2 <= m,
    ensures
        fpow(1, e, m) == 1,
    decreases e,
{
    lemma_small_mod(1, m as nat);
    if e > 0 {
        lemma_fpow_one_base((e - 1) as nat, m);
    }
}

/// Zero raised to a positive power mod `m` is zero.
pub proof fn lemma_fpow_zero_base(e: nat, m: int)
    requires
        0 < m,
        0 < e,
    ensures
        fpow(0, e, m) == 0,
{
    lemma_fmul_zero(fpow(0, (e - 1) as nat, m), m);
}

} // verus!
