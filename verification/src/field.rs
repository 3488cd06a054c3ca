//! Scalar-field elements as plain values, and the arithmetic of `Z/pZ` that
//! the contracts of this crate are stated in.

use vstd::prelude::*;
use rand::rngs::StdRng;
use crate::curve::{Curve, scalar_modulus, capacity_bits, limbs4_value, limbs4_less};
use crate::bls12_381;
use crate::bn254;

verus! {

/// The generator of randomness that sampling functions draw from.
#[verifier::external_type_specification]
#[verifier::external_body]
pub struct ExStdRng(StdRng);

/// Sum of two residues modulo `p`.
pub open spec fn fadd(p: nat, a: nat, b: nat) -> nat {
    (a + b) % p
}

/// Product of two residues modulo `p`.
pub open spec fn fmul(p: nat, a: nat, b: nat) -> nat {
    (a * b) % p
}

/// Additive inverse of a residue modulo `p`.
pub open spec fn fneg(p: nat, a: nat) -> nat {
    ((p - a % p) % (p as int)) as nat
}

/// `x` raised to the `e`-th power modulo `p`.
pub open spec fn fpow(p: nat, x: nat, e: nat) -> nat
    decreases e,
{
    if e == 0 {
        1nat % p
    } else {
        fmul(p, x, fpow(p, x, (e - 1) as nat))
    }
}

/// The multiplicative inverse of `a` modulo `p`, where there is one.
pub open spec fn finv(p: nat, a: nat) -> nat {
    choose|r: nat| r < p && fmul(p, a, r) == 1
}

/// A residue has at most one multiplicative inverse.
pub proof fn lemma_finv_unique(p: nat, a: nat, r: nat)
    requires
        r < p,
        fmul(p, a, r) == 1,
    ensures
        finv(p, a) == r,
{
    let s = finv(p, a);
    assert(s < p && fmul(p, a, s) == 1);
    let (pi, ai, ri, si) = (p as int, a as int, r as int, s as int);
    vstd::arithmetic::div_mod::lemma_mul_mod_noop_right(si, ai * ri, pi);
    vstd::arithmetic::div_mod::lemma_mul_mod_noop_right(ri, ai * si, pi);
    assert(si * (ai * ri) == ri * (ai * si)) by (nonlinear_arith);
    vstd::arithmetic::div_mod::lemma_small_mod(s, p);
    vstd::arithmetic::div_mod::lemma_small_mod(r, p);
}

/// A power modulo `p` is a residue.
pub proof fn lemma_fpow_reduced(p: nat, x: nat, e: nat)
    requires
        p > 0,
    ensures
        fpow(p, x, e) < p,
{
}

/// Whether `a` has a multiplicative inverse modulo `p`, as every non-zero
/// residue has when `p` is prime.
pub open spec fn invertible(p: nat, a: nat) -> bool {
    finv(p, a) < p && fmul(p, a, finv(p, a)) == 1
}

/// Addition modulo `p` is associative.
pub proof fn lemma_fadd_assoc(p: nat, a: nat, b: nat, c: nat)
    requires
        p > 0,
    ensures
        fadd(p, fadd(p, a, b), c) == fadd(p, a, fadd(p, b, c)),
{
    let (pi, ai, bi, ci) = (p as int, a as int, b as int, c as int);
    vstd::arithmetic::div_mod::lemma_add_mod_noop_right(ci, ai + bi, pi);
    vstd::arithmetic::div_mod::lemma_add_mod_noop_right(ai, bi + ci, pi);
}

/// Multiplication modulo `p` is commutative.
pub proof fn lemma_fmul_comm(p: nat, a: nat, b: nat)
    ensures
        fmul(p, a, b) == fmul(p, b, a),
{
}

/// Multiplication modulo `p` is associative.
pub proof fn lemma_fmul_assoc(p: nat, a: nat, b: nat, c: nat)
    requires
        p > 0,
    ensures
        fmul(p, fmul(p, a, b), c) == fmul(p, a, fmul(p, b, c)),
{
    let (pi, ai, bi, ci) = (p as int, a as int, b as int, c as int);
    vstd::arithmetic::div_mod::lemma_mul_mod_noop_left(ai * bi, ci, pi);
    vstd::arithmetic::div_mod::lemma_mul_mod_noop_right(ai, bi * ci, pi);
    assert((ai * bi) * ci == ai * (bi * ci)) by (nonlinear_arith);
}

/// Multiplication modulo `p` distributes over addition.
pub proof fn lemma_fmul_distributes(p: nat, a: nat, b: nat, c: nat)
    requires
        p > 0,
    ensures
        fmul(p, a, fadd(p, b, c)) == fadd(p, fmul(p, a, b), fmul(p, a, c)),
        fmul(p, fadd(p, b, c), a) == fadd(p, fmul(p, b, a), fmul(p, c, a)),
{
    let (pi, ai, bi, ci) = (p as int, a as int, b as int, c as int);
    vstd::arithmetic::div_mod::lemma_mul_mod_noop_right(ai, bi + ci, pi);
    vstd::arithmetic::div_mod::lemma_add_mod_noop(ai * bi, ai * ci, pi);
    assert(ai * (bi + ci) == ai * bi + ai * ci) by (nonlinear_arith);
    lemma_fmul_comm(p, fadd(p, b, c), a);
    lemma_fmul_comm(p, b, a);
    lemma_fmul_comm(p, c, a);
}

/// Zero is neutral for addition and absorbing for multiplication; one is
/// neutral for multiplication.
pub proof fn lemma_neutral(p: nat, a: nat)
    requires
        a < p,
    ensures
        fadd(p, a, 0) == a,
        fadd(p, 0, a) == a,
        fmul(p, a, 0) == 0,
        fmul(p, 0, a) == 0,
        fmul(p, a, 1) == a,
        fmul(p, 1, a) == a,
{
    vstd::arithmetic::div_mod::lemma_small_mod(a, p);
    vstd::arithmetic::div_mod::lemma_small_mod(0, p);
}

/// A residue and its negative sum to zero.
pub proof fn lemma_fneg_cancels(p: nat, a: nat)
    requires
        a < p,
    ensures
        fneg(p, a) < p,
        fadd(p, a, fneg(p, a)) == 0,
        fadd(p, fneg(p, a), a) == 0,
{
    vstd::arithmetic::div_mod::lemma_small_mod(a, p);
    if a == 0 {
        vstd::arithmetic::div_mod::lemma_mod_self_0(p as int);
        vstd::arithmetic::div_mod::lemma_small_mod(0, p);
    } else {
        vstd::arithmetic::div_mod::lemma_small_mod((p - a) as nat, p);
        vstd::arithmetic::div_mod::lemma_mod_self_0(p as int);
    }
}

/// Equal sums with a common summand have equal other summands.
pub proof fn lemma_fadd_cancel(p: nat, a: nat, b: nat, c: nat)
    requires
        a < p,
        b < p,
        c < p,
        fadd(p, a, c) == fadd(p, b, c),
    ensures
        a == b,
{
    let n = fneg(p, c);
    lemma_fneg_cancels(p, c);
    lemma_fadd_assoc(p, a, c, n);
    lemma_fadd_assoc(p, b, c, n);
    lemma_neutral(p, a);
    lemma_neutral(p, b);
}

/// Equal products with a common invertible factor have equal other factors.
pub proof fn lemma_fmul_cancel(p: nat, a: nat, b: nat, v: nat, w: nat)
    requires
        a < p,
        b < p,
        fmul(p, v, w) == 1,
        fmul(p, a, v) == fmul(p, b, v),
    ensures
        a == b,
{
    lemma_fmul_assoc(p, a, v, w);
    lemma_fmul_assoc(p, b, v, w);
    lemma_neutral(p, a);
    lemma_neutral(p, b);
}

/// An element of a scalar field, held as its canonical representative in four
/// little-endian 64-bit limbs.
#[derive(Clone, Copy, Debug, PartialEq, Eq)]
pub struct Fr {
    pub limbs: [u64; 4],
}

impl View for Fr {
    type V = nat;

    /// The residue this value stands for.
    open spec fn view(&self) -> nat {
        limbs4_value(self.limbs@)
    }
}

/// The residues of a sequence of field elements.
pub open spec fn values(s: Seq<Fr>) -> Seq<nat> {
    Seq::new(s.len(), |i: int| s[i]@)
}

/// Every entry of `s` is the canonical form of a scalar of `curve`.
pub open spec fn all_elements(s: Seq<Fr>, curve: Curve) -> bool {
    forall|i: int| 0 <= i < s.len() ==> (#[trigger] s[i]).is_element(curve)
}

impl Fr {
    /// Whether this value is the canonical form of a scalar of `curve`.
    pub open spec fn is_element(&self, curve: Curve) -> bool {
        self@ < scalar_modulus(curve)
    }

    /// The additive identity.
    pub fn zero() -> (r: Fr)
        ensures
            r@ == 0,
    {
        Fr { limbs: [0, 0, 0, 0] }
    }

    /// The multiplicative identity.
    pub fn one() -> (r: Fr)
        ensures
            r@ == 1,
    {
        Fr { limbs: [1, 0, 0, 0] }
    }

    /// The scalar whose residue is `x`; it is an element of every supported field.
    pub fn from_u64(x: u64) -> (r: Fr)
        ensures
            r@ == x,
            forall|curve: Curve| r.is_element(curve),
    {
        Fr { limbs: [x, 0, 0, 0] }
    }

    /// Accepts four limbs as a scalar of `curve` exactly when they are below its modulus.
    pub fn from_limbs(curve: Curve, limbs: [u64; 4]) -> (r: Option<Fr>)
        ensures
            r.is_some() <==> limbs4_value(limbs@) < scalar_modulus(curve),
            r.is_some() ==> r.unwrap().limbs == limbs && r.unwrap().is_element(curve),
    {
        let modulus = curve.scalar_modulus_limbs();
        if limbs4_less(&limbs, &modulus) {
            Some(Fr { limbs })
        } else {
            None
        }
    }

    /// Decides `is_element`.
    pub fn check_element(&self, curve: Curve) -> (r: bool)
        ensures
            r == self.is_element(curve),
    {
        let modulus = curve.scalar_modulus_limbs();
        limbs4_less(&self.limbs, &modulus)
    }

    /// Whether this is the additive identity.
    pub fn is_zero(&self) -> (r: bool)
        ensures
            r == (self@ == 0),
    {
        self.limbs[0] == 0 && self.limbs[1] == 0 && self.limbs[2] == 0 && self.limbs[3] == 0
    }
}

/// The number of bits that every scalar of `curve` can hold.
pub fn fr_capacity(curve: Curve) -> (r: u32)
    ensures
        r == capacity_bits(curve),
{
    match curve {
        Curve::Bls12_381 => bls12_381::capacity(),
        Curve::Bn254 => bn254::capacity(),
    }
}

/// `a + b` in the scalar field of `curve`.
pub fn fr_add(curve: Curve, a: Fr, b: Fr) -> (r: Fr)
    requires
        a.is_element(curve),
        b.is_element(curve),
    ensures
        r.is_element(curve),
        r@ == fadd(scalar_modulus(curve), a@, b@),
{
    match curve {
        Curve::Bls12_381 => bls12_381::fr_add(a, b),
        Curve::Bn254 => bn254::fr_add(a, b),
    }
}

/// `a * b` in the scalar field of `curve`.
pub fn fr_mul(curve: Curve, a: Fr, b: Fr) -> (r: Fr)
    requires
        a.is_element(curve),
        b.is_element(curve),
    ensures
        r.is_element(curve),
        r@ == fmul(scalar_modulus(curve), a@, b@),
{
    match curve {
        Curve::Bls12_381 => bls12_381::fr_mul(a, b),
        Curve::Bn254 => bn254::fr_mul(a, b),
    }
}

/// `-a` in the scalar field of `curve`.
pub fn fr_neg(curve: Curve, a: Fr) -> (r: Fr)
    requires
        a.is_element(curve),
    ensures
        r.is_element(curve),
        r@ == fneg(scalar_modulus(curve), a@),
{
    match curve {
        Curve::Bls12_381 => bls12_381::fr_neg(a),
        Curve::Bn254 => bn254::fr_neg(a),
    }
}

/// The multiplicative inverse of a non-zero scalar of `curve`.
pub fn fr_inverse(curve: Curve, a: Fr) -> (r: Fr)
    requires
        a.is_element(curve),
        a@ != 0,
    ensures
        r.is_element(curve),
        fmul(scalar_modulus(curve), a@, r@) == 1,
        r@ == finv(scalar_modulus(curve), a@),
{
    let r = match curve {
        Curve::Bls12_381 => bls12_381::fr_inverse(a),
        Curve::Bn254 => bn254::fr_inverse(a),
    };
    proof {
        lemma_finv_unique(scalar_modulus(curve), a@, r@);
    }
    r
}

/// `a` raised to the power `e` in the scalar field of `curve`.
pub fn fr_pow(curve: Curve, a: Fr, e: u64) -> (r: Fr)
    requires
        a.is_element(curve),
    ensures
        r.is_element(curve),
        r@ == fpow(scalar_modulus(curve), a@, e as nat),
{
    match curve {
        Curve::Bls12_381 => bls12_381::fr_pow(a, e),
        Curve::Bn254 => bn254::fr_pow(a, e),
    }
}

/// A scalar of `curve` drawn from `rng`.
pub fn fr_rand(curve: Curve, rng: &mut StdRng) -> (r: Fr)
    ensures
        r.is_element(curve),
{
    match curve {
        Curve::Bls12_381 => bls12_381::fr_rand(rng),
        Curve::Bn254 => bn254::fr_rand(rng),
    }
}

} // verus!
