//! The closed set of supported pairing-friendly curves and their constants.

use vstd::prelude::*;

verus! {

/// Identifies the arithmetic backend a scheme instance works over.
#[derive(Clone, Copy, Debug, PartialEq, Eq, Structural)]
pub enum Curve {
    /// BLS12-381, with a scalar field of 255 bits.
    Bls12_381,
    /// BN254, with a scalar field of 254 bits.
    Bn254,
}

/// The prime order of the scalar field of `curve`.
pub open spec fn scalar_modulus(curve: Curve) -> nat {
    match curve {
        Curve::Bls12_381 => 0x73eda753299d7d483339d80809a1d80553bda402fffe5bfeffffffff00000001nat,
        Curve::Bn254 => 0x30644e72e131a029b85045b68181585d2833e84879b9709143e1f593f0000001nat,
    }
}

/// The number of bits that every scalar of `curve` can hold: one less than
/// the bit length of the modulus.
pub open spec fn capacity_bits(curve: Curve) -> nat {
    match curve {
        Curve::Bls12_381 => 254,
        Curve::Bn254 => 253,
    }
}

/// The largest size of a multiplicative subgroup of two-power order in the
/// scalar field of `curve`.
pub open spec fn max_domain_size(curve: Curve) -> nat {
    match curve {
        Curve::Bls12_381 => 0x1_0000_0000nat,
        Curve::Bn254 => 0x1000_0000nat,
    }
}

/// `n` is one of 1, 2, 4, 8, ...
pub open spec fn is_power_of_two(n: nat) -> bool
    decreases n,
{
    n == 1 || (n >= 2 && n % 2 == 0 && is_power_of_two(n / 2))
}

/// Decides whether `n` is a power of two.
pub fn check_power_of_two(n: usize) -> (r: bool)
    ensures
        r == is_power_of_two(n as nat),
{
    if n == 0 {
        return false;
    }
    let mut m: usize = n;
    while m % 2 == 0
        invariant
            m >= 1,
            is_power_of_two(m as nat) == is_power_of_two(n as nat),
        decreases m,
    {
        m = m / 2;
    }
    m == 1
}

/// The value of four little-endian 64-bit limbs.
pub open spec fn limbs4_value(l: Seq<u64>) -> nat {
    (l[0] as nat + 0x1_0000_0000_0000_0000nat * (l[1] as nat + 0x1_0000_0000_0000_0000nat * (l[2] as nat
        + 0x1_0000_0000_0000_0000nat * (l[3] as nat))))
}

impl Curve {
    /// The scalar-field modulus as little-endian limbs.
    pub fn scalar_modulus_limbs(self) -> (r: [u64; 4])
        ensures
            limbs4_value(r@) == scalar_modulus(self),
    {
        match self {
            Curve::Bls12_381 => [
                0xffffffff00000001,
                0x53bda402fffe5bfe,
                0x3339d80809a1d805,
                0x73eda753299d7d48,
            ],
            Curve::Bn254 => [
                0x43e1f593f0000001,
                0x2833e84879b97091,
                0xb85045b68181585d,
                0x30644e72e131a029,
            ],
        }
    }

    /// The largest evaluation-domain size the scalar field supports.
    pub fn max_domain_size(self) -> (r: u64)
        ensures
            r == max_domain_size(self),
    {
        match self {
            Curve::Bls12_381 => 0x1_0000_0000,
            Curve::Bn254 => 0x1000_0000,
        }
    }
}

/// Compares two four-limb numbers.
pub fn limbs4_less(a: &[u64; 4], b: &[u64; 4]) -> (r: bool)
    ensures
        r == (limbs4_value(a@) < limbs4_value(b@)),
{
    if a[3] != b[3] {
        a[3] < b[3]
    } else if a[2] != b[2] {
        a[2] < b[2]
    } else if a[1] != b[1] {
        a[1] < b[1]
    } else {
        a[0] < b[0]
    }
}

} // verus!
