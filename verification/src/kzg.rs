//! The commitment adapter: group elements and keys as plain byte strings, and
//! a minimal KZG interface without hiding.

use vstd::prelude::*;
use rand::rngs::StdRng;
use crate::curve::Curve;
use crate::field::{Fr, all_elements, values};
use crate::bls12_381;
use crate::bn254;

verus! {

/// Whether `bytes` is the uncompressed encoding of a point with coordinates
/// in the base field of `curve`.
pub uninterp spec fn g1_decodes(curve: Curve, bytes: Seq<u8>) -> bool;

/// The encoding of the neutral element of the first source group of `curve`.
pub uninterp spec fn g1_neutral(curve: Curve) -> Seq<u8>;

/// The encoding of the sum of the points encoded by `a` and `b`.
pub uninterp spec fn g1_sum(curve: Curve, a: Seq<u8>, b: Seq<u8>) -> Seq<u8>;

/// The encoding of the point encoded by `point`, multiplied by `scalar`.
pub uninterp spec fn g1_scaled(curve: Curve, point: Seq<u8>, scalar: nat) -> Seq<u8>;

/// Whether `bytes` is the uncompressed encoding of a verifier key for `curve`.
pub uninterp spec fn key_decodes(curve: Curve, bytes: Seq<u8>) -> bool;

/// The encoding of the commitment to the polynomial `coeffs` under `powers`,
/// without hiding.
pub uninterp spec fn kzg_commitment(curve: Curve, powers: Seq<Seq<u8>>, coeffs: Seq<nat>) -> Seq<u8>;

/// Whether the pairing check accepts `proof` as evidence that the polynomial
/// committed to in `commitment` takes `value` at `point`.
pub uninterp spec fn kzg_accepts(
    curve: Curve,
    key: Seq<u8>,
    commitment: Seq<u8>,
    point: nat,
    value: nat,
    proof: Seq<u8>,
) -> bool;

/// An element of the first source group, held as its uncompressed encoding.
#[derive(Debug, PartialEq, Eq)]
pub struct G1 {
    pub bytes: Vec<u8>,
}

impl View for G1 {
    type V = Seq<u8>;

    open spec fn view(&self) -> Seq<u8> {
        self.bytes@
    }
}

impl Clone for G1 {
    fn clone(&self) -> (r: G1)
        ensures
            r@ == self@,
    {
        G1 { bytes: self.bytes.clone() }
    }
}

impl G1 {
    /// Whether the two values are the same encoding, hence the same point.
    pub fn equals(&self, other: &G1) -> (r: bool)
        ensures
            r == (self@ == other@),
    {
        if self.bytes.len() != other.bytes.len() {
            return false;
        }
        let mut i: usize = 0;
        while i < self.bytes.len()
            invariant
                i <= self.bytes@.len(),
                self.bytes@.len() == other.bytes@.len(),
                forall|t: int| 0 <= t < i ==> self.bytes@[t] == other.bytes@[t],
            decreases self.bytes@.len() - i,
        {
            if self.bytes[i] != other.bytes[i] {
                return false;
            }
            i += 1;
        }
        assert(self.bytes@ =~= other.bytes@);
        true
    }
}

/// The verifier's part of a structured reference string, held as its
/// uncompressed encoding.
#[derive(Debug, PartialEq, Eq)]
pub struct VerifierKey {
    pub bytes: Vec<u8>,
}

impl View for VerifierKey {
    type V = Seq<u8>;

    open spec fn view(&self) -> Seq<u8> {
        self.bytes@
    }
}

/// The encodings of a sequence of group elements.
pub open spec fn encodings(points: Seq<G1>) -> Seq<Seq<u8>> {
    Seq::new(points.len(), |i: int| points[i]@)
}

/// Every entry of `points` encodes a point of `curve`.
pub open spec fn all_decode(points: Seq<G1>, curve: Curve) -> bool {
    forall|i: int| 0 <= i < points.len() ==> g1_decodes(curve, #[trigger] points[i]@)
}

/// Decides `g1_decodes`.
pub fn g1_check(curve: Curve, point: &G1) -> (r: bool)
    ensures
        r == g1_decodes(curve, point@),
{
    match curve {
        Curve::Bls12_381 => bls12_381::g1_check(point),
        Curve::Bn254 => bn254::g1_check(point),
    }
}

/// The neutral element of the first source group of `curve`.
pub fn g1_zero(curve: Curve) -> (r: G1)
    ensures
        r@ == g1_neutral(curve),
        g1_decodes(curve, r@),
{
    match curve {
        Curve::Bls12_381 => bls12_381::g1_zero(),
        Curve::Bn254 => bn254::g1_zero(),
    }
}

/// The sum of two points.
pub fn g1_add(curve: Curve, a: &G1, b: &G1) -> (r: G1)
    requires
        g1_decodes(curve, a@),
        g1_decodes(curve, b@),
    ensures
        r@ == g1_sum(curve, a@, b@),
        g1_decodes(curve, r@),
{
    match curve {
        Curve::Bls12_381 => bls12_381::g1_add(a, b),
        Curve::Bn254 => bn254::g1_add(a, b),
    }
}

/// A point multiplied by a scalar.
pub fn g1_mul(curve: Curve, point: &G1, scalar: Fr) -> (r: G1)
    requires
        g1_decodes(curve, point@),
        scalar.is_element(curve),
    ensures
        r@ == g1_scaled(curve, point@, scalar@),
        g1_decodes(curve, r@),
{
    match curve {
        Curve::Bls12_381 => bls12_381::g1_mul(point, scalar),
        Curve::Bn254 => bn254::g1_mul(point, scalar),
    }
}

/// A fresh structured reference string for polynomials of degree up to
/// `max_degree`: the powers for committing and the verifier key.
pub fn kzg_setup(curve: Curve, rng: &mut StdRng, max_degree: usize) -> (r: (Vec<G1>, VerifierKey))
    requires
        1 <= max_degree < usize::MAX,
    ensures
        r.0@.len() == max_degree + 1,
        all_decode(r.0@, curve),
        key_decodes(curve, r.1@),
{
    match curve {
        Curve::Bls12_381 => bls12_381::kzg_setup(rng, max_degree),
        Curve::Bn254 => bn254::kzg_setup(rng, max_degree),
    }
}

/// Commits to the polynomial `coeffs` without hiding.
pub fn kzg_commit(curve: Curve, powers: &Vec<G1>, coeffs: &Vec<Fr>) -> (r: G1)
    requires
        powers@.len() >= 1,
        coeffs@.len() <= powers@.len(),
        all_decode(powers@, curve),
        all_elements(coeffs@, curve),
    ensures
        r@ == kzg_commitment(curve, encodings(powers@), values(coeffs@)),
        g1_decodes(curve, r@),
{
    match curve {
        Curve::Bls12_381 => bls12_381::kzg_commit(powers, coeffs),
        Curve::Bn254 => bn254::kzg_commit(powers, coeffs),
    }
}

/// Checks an evaluation proof.
pub fn kzg_check(
    curve: Curve,
    key: &VerifierKey,
    commitment: &G1,
    point: Fr,
    value: Fr,
    proof: &G1,
) -> (r: bool)
    requires
        key_decodes(curve, key@),
        g1_decodes(curve, commitment@),
        g1_decodes(curve, proof@),
        point.is_element(curve),
        value.is_element(curve),
    ensures
        r == kzg_accepts(curve, key@, commitment@, point@, value@, proof@),
{
    match curve {
        Curve::Bls12_381 => bls12_381::kzg_check(key, commitment, point, value, proof),
        Curve::Bn254 => bn254::kzg_check(key, commitment, point, value, proof),
    }
}

} // verus!
