//! Polynomials over a scalar field in their two forms, coefficients and
//! evaluations on a multiplicative subgroup, and the conversions between them.

use vstd::prelude::*;
use crate::curve::{Curve, scalar_modulus, max_domain_size, is_power_of_two};
use crate::field::{Fr, fadd, fmul, fneg, fpow, fr_neg, values, all_elements};
use crate::bls12_381;
use crate::bn254;

verus! {

/// The generator that the polynomial crate picks for the multiplicative
/// subgroup of order `size` of the scalar field of `curve`.
pub uninterp spec fn root_of_unity(curve: Curve, size: nat) -> nat;

/// The coefficients, without trailing zeros, that interpolation over the
/// subgroup of order `evals.len()` yields for the evaluations `evals`.
pub uninterp spec fn interpolation(curve: Curve, evals: Seq<nat>) -> Seq<nat>;

/// The coefficients, without trailing zeros, of the quotient of the
/// polynomial `dividend` by the polynomial `divisor`.
pub uninterp spec fn quotient(curve: Curve, dividend: Seq<nat>, divisor: Seq<nat>) -> Seq<nat>;

/// Whether the scalar field of `curve` has an evaluation domain of exactly `size` points.
pub open spec fn supports_domain(curve: Curve, size: nat) -> bool {
    is_power_of_two(size) && size <= max_domain_size(curve)
}

/// The `i`-th point of the evaluation domain of order `size`.
pub open spec fn domain_point(curve: Curve, size: nat, i: nat) -> nat {
    fpow(scalar_modulus(curve), root_of_unity(curve, size), i)
}

/// The value at `x` of the polynomial made of the first `n` coefficients.
pub open spec fn eval_prefix(p: nat, coeffs: Seq<nat>, x: nat, n: nat) -> nat
    decreases n,
{
    if n == 0 {
        0
    } else {
        fadd(p, eval_prefix(p, coeffs, x, (n - 1) as nat), fmul(p, coeffs[n - 1], fpow(p, x, (n - 1) as nat)))
    }
}

/// The value at `x` of the polynomial with coefficients `coeffs`, lowest degree first.
pub open spec fn poly_eval(p: nat, coeffs: Seq<nat>, x: nat) -> nat {
    eval_prefix(p, coeffs, x, coeffs.len())
}

/// The evaluations of the polynomial `coeffs` on every point of the domain of order `size`.
pub open spec fn evaluations(curve: Curve, coeffs: Seq<nat>, size: nat) -> Seq<nat> {
    Seq::new(size, |i: int| poly_eval(scalar_modulus(curve), coeffs, domain_point(curve, size, i as nat)))
}

/// Decides `supports_domain`.
pub fn check_domain(curve: Curve, size: usize) -> (r: bool)
    ensures
        r == supports_domain(curve, size as nat),
{
    crate::curve::check_power_of_two(size) && size as u64 <= curve.max_domain_size()
}

/// The `i`-th point of the evaluation domain of order `size`.
pub fn domain_element(curve: Curve, size: usize, i: usize) -> (r: Fr)
    requires
        supports_domain(curve, size as nat),
    ensures
        r.is_element(curve),
        r@ == domain_point(curve, size as nat, i as nat),
{
    match curve {
        Curve::Bls12_381 => bls12_381::domain_element(size, i),
        Curve::Bn254 => bn254::domain_element(size, i),
    }
}

/// Evaluates the polynomial `coeffs` on the domain of order `size`.
pub fn evaluate_over_domain(curve: Curve, coeffs: &Vec<Fr>, size: usize) -> (r: Vec<Fr>)
    requires
        supports_domain(curve, size as nat),
        coeffs@.len() <= size,
        all_elements(coeffs@, curve),
    ensures
        all_elements(r@, curve),
        values(r@) == evaluations(curve, values(coeffs@), size as nat),
{
    let r = match curve {
        Curve::Bls12_381 => bls12_381::evaluate_over_domain(coeffs, size),
        Curve::Bn254 => bn254::evaluate_over_domain(coeffs, size),
    };
    proof {
        assert(values(r@) =~= evaluations(curve, values(coeffs@), size as nat));
    }
    r
}

/// Interpolates the polynomial of degree below `evals.len()` that takes the
/// values `evals` on the domain of that order.
pub fn interpolate(curve: Curve, evals: &Vec<Fr>) -> (r: Vec<Fr>)
    requires
        supports_domain(curve, evals@.len()),
        all_elements(evals@, curve),
    ensures
        all_elements(r@, curve),
        r@.len() <= evals@.len(),
        values(r@) == interpolation(curve, values(evals@)),
        evaluations(curve, values(r@), evals@.len()) == values(evals@),
{
    let r = match curve {
        Curve::Bls12_381 => bls12_381::interpolate(evals),
        Curve::Bn254 => bn254::interpolate(evals),
    };
    proof {
        assert(evaluations(curve, values(r@), evals@.len()) =~= values(evals@));
    }
    r
}

/// The coefficients of `X - point`.
pub open spec fn linear_divisor(p: nat, point: nat) -> Seq<nat> {
    seq![fneg(p, point), 1nat]
}

/// The quotient of the polynomial `coeffs` by `X - point`: the witness that
/// an evaluation proof commits to.
pub open spec fn witness(curve: Curve, coeffs: Seq<nat>, point: nat) -> Seq<nat> {
    quotient(curve, coeffs, linear_divisor(scalar_modulus(curve), point))
}

/// Divides the polynomial `dividend` by `divisor`, whose leading coefficient
/// is not zero, and drops the remainder.
pub fn poly_divide(curve: Curve, dividend: &Vec<Fr>, divisor: &Vec<Fr>) -> (r: Vec<Fr>)
    requires
        all_elements(dividend@, curve),
        all_elements(divisor@, curve),
        divisor@.len() > 0,
        divisor@.last()@ != 0,
    ensures
        all_elements(r@, curve),
        r@.len() <= dividend@.len(),
        values(r@) == quotient(curve, values(dividend@), values(divisor@)),
{
    match curve {
        Curve::Bls12_381 => bls12_381::poly_divide(dividend, divisor),
        Curve::Bn254 => bn254::poly_divide(dividend, divisor),
    }
}

/// Divides the polynomial `coeffs` by `X - point` and drops the remainder.
pub fn divide_by_linear(curve: Curve, coeffs: &Vec<Fr>, point: Fr) -> (r: Vec<Fr>)
    requires
        all_elements(coeffs@, curve),
        point.is_element(curve),
    ensures
        all_elements(r@, curve),
        r@.len() <= coeffs@.len(),
        values(r@) == witness(curve, values(coeffs@), point@),
{
    let mut divisor: Vec<Fr> = Vec::new();
    divisor.push(fr_neg(curve, point));
    divisor.push(Fr::one());
    proof {
        assert(values(divisor@) =~= linear_divisor(scalar_modulus(curve), point@));
        assert(divisor@.last() == divisor@[1]);
    }
    poly_divide(curve, coeffs, &divisor)
}

} // verus!
