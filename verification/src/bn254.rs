//! Arithmetic backend for BN254: the calls into the curve, polynomial and
//! commitment crates, each with the contract the rest of the crate relies on.

use vstd::prelude::*;
use ark_ec::{AffineCurve, ProjectiveCurve};
use ark_ff::{BigInteger256, Field, FpParameters, PrimeField, UniformRand};
use ark_poly::{EvaluationDomain, Evaluations, GeneralEvaluationDomain, UVPolynomial};
use ark_poly::univariate::DensePolynomial;
use ark_poly_commit::kzg10;
use ark_poly_commit::kzg10::{Commitment, KZG10, Powers, Proof};
use ark_serialize::{CanonicalDeserialize, CanonicalSerialize};
use ark_std::Zero;
use rand::rngs::StdRng;
use std::borrow::Cow;
use ark_bn254::{Bn254, Fr as Scalar, FrParameters, G1Affine};
use crate::curve::{Curve, scalar_modulus};
use crate::field::{Fr, fadd, fmul, fneg, fpow, values, all_elements};
use crate::poly::{
    root_of_unity, interpolation, quotient, supports_domain, domain_point, poly_eval,
};
use crate::kzg::{
    G1, VerifierKey, g1_decodes, g1_neutral, g1_sum, g1_scaled, key_decodes, kzg_commitment,
    kzg_accepts, encodings, all_decode,
};

verus! {

/// `FpParameters::CAPACITY` of the scalar field: the number of bits that every
/// element can hold, one less than the bit length of the modulus.
#[verifier::external_body]
pub(crate) fn capacity() -> (r: u32)
    ensures
        r == 253,
{
    <FrParameters as FpParameters>::CAPACITY
}

/// `Add` of `ark_bn254::Fr`: the sum of the two residues, reduced modulo the
/// scalar-field order.
#[verifier::external_body]
pub(crate) fn fr_add(a: Fr, b: Fr) -> (r: Fr)
    requires
        a.is_element(Curve::Bn254),
        b.is_element(Curve::Bn254),
    ensures
        r.is_element(Curve::Bn254),
        r@ == fadd(scalar_modulus(Curve::Bn254), a@, b@),
{
    let x = Scalar::from_repr(BigInteger256(a.limbs)).unwrap();
    let y = Scalar::from_repr(BigInteger256(b.limbs)).unwrap();
    Fr { limbs: (x + y).into_repr().0 }
}

/// `Mul` of `ark_bn254::Fr`: the product of the two residues, reduced modulo the
/// scalar-field order.
#[verifier::external_body]
pub(crate) fn fr_mul(a: Fr, b: Fr) -> (r: Fr)
    requires
        a.is_element(Curve::Bn254),
        b.is_element(Curve::Bn254),
    ensures
        r.is_element(Curve::Bn254),
        r@ == fmul(scalar_modulus(Curve::Bn254), a@, b@),
{
    let x = Scalar::from_repr(BigInteger256(a.limbs)).unwrap();
    let y = Scalar::from_repr(BigInteger256(b.limbs)).unwrap();
    Fr { limbs: (x * y).into_repr().0 }
}

/// `Neg` of `ark_bn254::Fr`: the residue that sums with the argument to zero.
#[verifier::external_body]
pub(crate) fn fr_neg(a: Fr) -> (r: Fr)
    requires
        a.is_element(Curve::Bn254),
    ensures
        r.is_element(Curve::Bn254),
        r@ == fneg(scalar_modulus(Curve::Bn254), a@),
{
    let x = Scalar::from_repr(BigInteger256(a.limbs)).unwrap();
    Fr { limbs: (-x).into_repr().0 }
}

/// `Field::inverse` of `ark_bn254::Fr`, which is `Some` for every non-zero
/// element: the residue whose product with the argument is one.
#[verifier::external_body]
pub(crate) fn fr_inverse(a: Fr) -> (r: Fr)
    requires
        a.is_element(Curve::Bn254),
        a@ != 0,
    ensures
        r.is_element(Curve::Bn254),
        fmul(scalar_modulus(Curve::Bn254), a@, r@) == 1,
{
    let x = Scalar::from_repr(BigInteger256(a.limbs)).unwrap();
    Fr { limbs: x.inverse().unwrap().into_repr().0 }
}

/// `Field::pow` of `ark_bn254::Fr` with a one-limb exponent: the argument
/// multiplied with itself `e` times, starting from one.
#[verifier::external_body]
pub(crate) fn fr_pow(a: Fr, e: u64) -> (r: Fr)
    requires
        a.is_element(Curve::Bn254),
    ensures
        r.is_element(Curve::Bn254),
        r@ == fpow(scalar_modulus(Curve::Bn254), a@, e as nat),
{
    let x = Scalar::from_repr(BigInteger256(a.limbs)).unwrap();
    Fr { limbs: x.pow([e]).into_repr().0 }
}

/// `UniformRand::rand` of `ark_bn254::Fr`: some element of the scalar field.
#[verifier::external_body]
pub(crate) fn fr_rand(rng: &mut StdRng) -> (r: Fr)
    ensures
        r.is_element(Curve::Bn254),
{
    Fr { limbs: Scalar::rand(rng).into_repr().0 }
}

/// `EvaluationDomain::element` of the general evaluation domain made by
/// `EvaluationDomain::new(size)`, which for a power of two within the field's
/// two-adicity has exactly `size` points: the domain's generator raised to the
/// power `i`.
#[verifier::external_body]
pub(crate) fn domain_element(size: usize, i: usize) -> (r: Fr)
    requires
        supports_domain(Curve::Bn254, size as nat),
    ensures
        r.is_element(Curve::Bn254),
        r@ == fpow(
            scalar_modulus(Curve::Bn254),
            root_of_unity(Curve::Bn254, size as nat),
            i as nat,
        ),
{
    let domain = GeneralEvaluationDomain::<Scalar>::new(size).unwrap();
    Fr { limbs: domain.element(i).into_repr().0 }
}

/// `DensePolynomial::evaluate_over_domain` on the domain of `size` points: a
/// polynomial with at most `size` coefficients is evaluated at every point of
/// the domain, in the order of the points.
#[verifier::external_body]
pub(crate) fn evaluate_over_domain(coeffs: &Vec<Fr>, size: usize) -> (r: Vec<Fr>)
    requires
        supports_domain(Curve::Bn254, size as nat),
        coeffs@.len() <= size,
        all_elements(coeffs@, Curve::Bn254),
    ensures
        r@.len() == size,
        all_elements(r@, Curve::Bn254),
        forall|i: int|
            0 <= i < size ==> (#[trigger] r@[i])@ == poly_eval(
                scalar_modulus(Curve::Bn254),
                values(coeffs@),
                domain_point(Curve::Bn254, size as nat, i as nat),
            ),
{
    let domain = GeneralEvaluationDomain::<Scalar>::new(size).unwrap();
    let c = coeffs.iter().map(|c| Scalar::from_repr(BigInteger256(c.limbs)).unwrap()).collect();
    let evals = DensePolynomial::from_coefficients_vec(c).evaluate_over_domain(domain).evals;
    evals.iter().map(|e| Fr { limbs: e.into_repr().0 }).collect()
}

/// `Evaluations::interpolate` on the domain of `evals.len()` points: the
/// coefficients, without trailing zeros, of the polynomial of degree below
/// `evals.len()` whose value at the `j`-th point of the domain is `evals[j]`.
#[verifier::external_body]
pub(crate) fn interpolate(evals: &Vec<Fr>) -> (r: Vec<Fr>)
    requires
        supports_domain(Curve::Bn254, evals@.len()),
        all_elements(evals@, Curve::Bn254),
    ensures
        all_elements(r@, Curve::Bn254),
        r@.len() <= evals@.len(),
        values(r@) == interpolation(Curve::Bn254, values(evals@)),
        forall|j: int|
            0 <= j < evals@.len() ==> poly_eval(
                scalar_modulus(Curve::Bn254),
                values(r@),
                domain_point(Curve::Bn254, evals@.len(), j as nat),
            ) == (#[trigger] evals@[j])@,
{
    let domain = GeneralEvaluationDomain::<Scalar>::new(evals.len()).unwrap();
    let e = evals.iter().map(|e| Scalar::from_repr(BigInteger256(e.limbs)).unwrap()).collect();
    let poly = Evaluations::from_vec_and_domain(e, domain).interpolate();
    poly.coeffs.iter().map(|c| Fr { limbs: c.into_repr().0 }).collect()
}

/// `Div` of `DensePolynomial` by a divisor that is not zero: the
/// coefficients of the quotient, which are no more than those of the dividend.
#[verifier::external_body]
pub(crate) fn poly_divide(dividend: &Vec<Fr>, divisor: &Vec<Fr>) -> (r: Vec<Fr>)
    requires
        all_elements(dividend@, Curve::Bn254),
        all_elements(divisor@, Curve::Bn254),
        divisor@.len() > 0,
        divisor@.last()@ != 0,
    ensures
        all_elements(r@, Curve::Bn254),
        r@.len() <= dividend@.len(),
        values(r@) == quotient(Curve::Bn254, values(dividend@), values(divisor@)),
{
    let a = dividend.iter().map(|c| Scalar::from_repr(BigInteger256(c.limbs)).unwrap()).collect();
    let b = divisor.iter().map(|c| Scalar::from_repr(BigInteger256(c.limbs)).unwrap()).collect();
    let q = &DensePolynomial::<Scalar>::from_coefficients_vec(a) / &DensePolynomial::from_coefficients_vec(b);
    q.coeffs.iter().map(|c| Fr { limbs: c.into_repr().0 }).collect()
}

/// `CanonicalDeserialize::deserialize_unchecked` of `ark_bn254::G1Affine`:
/// whether the bytes decode.
#[verifier::external_body]
pub(crate) fn g1_check(point: &G1) -> (r: bool)
    ensures
        r == g1_decodes(Curve::Bn254, point@),
{
    G1Affine::deserialize_unchecked(&point.bytes[..]).is_ok()
}

/// `Zero::zero` of `ark_bn254::G1Affine`: the point at infinity.
#[verifier::external_body]
pub(crate) fn g1_zero() -> (r: G1)
    ensures
        r@ == g1_neutral(Curve::Bn254),
        g1_decodes(Curve::Bn254, r@),
{
    let mut bytes = Vec::new();
    G1Affine::zero().serialize_uncompressed(&mut bytes).unwrap();
    G1 { bytes }
}

/// `Add` of `ark_bn254::G1Affine`: the sum of the two points, in affine form.
#[verifier::external_body]
pub(crate) fn g1_add(a: &G1, b: &G1) -> (r: G1)
    requires
        g1_decodes(Curve::Bn254, a@),
        g1_decodes(Curve::Bn254, b@),
    ensures
        r@ == g1_sum(Curve::Bn254, a@, b@),
        g1_decodes(Curve::Bn254, r@),
{
    let p = G1Affine::deserialize_unchecked(&a.bytes[..]).unwrap();
    let q = G1Affine::deserialize_unchecked(&b.bytes[..]).unwrap();
    let mut bytes = Vec::new();
    (p + q).serialize_uncompressed(&mut bytes).unwrap();
    G1 { bytes }
}

/// `AffineCurve::mul` of `ark_bn254::G1Affine`: the point multiplied by the
/// scalar, in affine form.
#[verifier::external_body]
pub(crate) fn g1_mul(point: &G1, scalar: Fr) -> (r: G1)
    requires
        g1_decodes(Curve::Bn254, point@),
        scalar.is_element(Curve::Bn254),
    ensures
        r@ == g1_scaled(Curve::Bn254, point@, scalar@),
        g1_decodes(Curve::Bn254, r@),
{
    let p = G1Affine::deserialize_unchecked(&point.bytes[..]).unwrap();
    let mut bytes = Vec::new();
    p.mul(BigInteger256(scalar.limbs)).into_affine().serialize_uncompressed(&mut bytes).unwrap();
    G1 { bytes }
}

/// `KZG10::setup` without powers in the second group: for a degree of at
/// least one it returns `max_degree + 1` powers of a generator of the first
/// group, and the group elements that make up the verifier key.
#[verifier::external_body]
pub(crate) fn kzg_setup(rng: &mut StdRng, max_degree: usize) -> (r: (Vec<G1>, VerifierKey))
    requires
        1 <= max_degree < usize::MAX,
    ensures
        r.0@.len() == max_degree + 1,
        all_decode(r.0@, Curve::Bn254),
        key_decodes(Curve::Bn254, r.1@),
{
    let pp = KZG10::<Bn254, DensePolynomial<Scalar>>::setup(max_degree, false, rng).unwrap();
    let (g, gamma_g, h, beta_h) = (pp.powers_of_g[0], pp.powers_of_gamma_g[&0], pp.h, pp.beta_h);
    let (prepared_h, prepared_beta_h) = (pp.prepared_h, pp.prepared_beta_h);
    let vk = kzg10::VerifierKey::<Bn254> { g, gamma_g, h, beta_h, prepared_h, prepared_beta_h };
    let mut key = VerifierKey { bytes: Vec::new() };
    vk.serialize_uncompressed(&mut key.bytes).unwrap();
    let encode = |p: &G1Affine| {
        let mut bytes = Vec::new();
        p.serialize_uncompressed(&mut bytes).unwrap();
        G1 { bytes }
    };
    (pp.powers_of_g.iter().map(encode).collect(), key)
}

/// `KZG10::commit` without hiding: the commitment to the polynomial with the
/// given coefficients, which needs one power per coefficient and at least one.
#[verifier::external_body]
pub(crate) fn kzg_commit(powers: &Vec<G1>, coeffs: &Vec<Fr>) -> (r: G1)
    requires
        powers@.len() >= 1,
        coeffs@.len() <= powers@.len(),
        all_decode(powers@, Curve::Bn254),
        all_elements(coeffs@, Curve::Bn254),
    ensures
        r@ == kzg_commitment(Curve::Bn254, encodings(powers@), values(coeffs@)),
        g1_decodes(Curve::Bn254, r@),
{
    let g: Vec<G1Affine> = powers.iter().map(|p| G1Affine::deserialize_unchecked(&p.bytes[..]).unwrap()).collect();
    let ck = Powers::<Bn254> { powers_of_g: Cow::Owned(g), powers_of_gamma_g: Cow::Owned(Vec::new()) };
    let c = coeffs.iter().map(|c| Scalar::from_repr(BigInteger256(c.limbs)).unwrap()).collect();
    let poly = DensePolynomial::from_coefficients_vec(c);
    let mut bytes = Vec::new();
    KZG10::commit(&ck, &poly, None, None).unwrap().0.0.serialize_uncompressed(&mut bytes).unwrap();
    G1 { bytes }
}

/// `KZG10::check` on a proof without hiding: the outcome of the pairing check.
#[verifier::external_body]
pub(crate) fn kzg_check(key: &VerifierKey, commitment: &G1, point: Fr, value: Fr, proof: &G1) -> (r: bool)
    requires
        key_decodes(Curve::Bn254, key@),
        g1_decodes(Curve::Bn254, commitment@),
        g1_decodes(Curve::Bn254, proof@),
        point.is_element(Curve::Bn254),
        value.is_element(Curve::Bn254),
    ensures
        r == kzg_accepts(Curve::Bn254, key@, commitment@, point@, value@, proof@),
{
    let vk = kzg10::VerifierKey::<Bn254>::deserialize_unchecked(&key.bytes[..]).unwrap();
    let c = Commitment(G1Affine::deserialize_unchecked(&commitment.bytes[..]).unwrap());
    let w = G1Affine::deserialize_unchecked(&proof.bytes[..]).unwrap();
    let z = Scalar::from_repr(BigInteger256(point.limbs)).unwrap();
    let y = Scalar::from_repr(BigInteger256(value.limbs)).unwrap();
    let p = Proof { w, random_v: None };
    KZG10::<Bn254, DensePolynomial<Scalar>>::check(&vk, &c, z, y, &p).unwrap()
}

} // verus!
