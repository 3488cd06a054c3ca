use ark_ec::{AffineCurve, PairingEngine, ProjectiveCurve};
use ark_ff::{FpParameters, PrimeField};
use ark_poly::univariate::DensePolynomial;
use ark_poly::{EvaluationDomain, Evaluations, GeneralEvaluationDomain, UVPolynomial};
use ark_poly_commit::kzg10::{Commitment, Powers, Randomness, KZG10};
use ark_poly_commit::PCRandomness;
use ark_serialize::{CanonicalDeserialize, CanonicalSerialize};
use ark_std::Zero;
use rand::rngs::StdRng;
use rand::SeedableRng;
use semiavidpr::curve::Curve;
use semiavidpr::field::{fr_add, fr_mul, fr_rand, Fr};
use semiavidpr::kzg::{g1_add, g1_check, g1_mul, g1_zero, kzg_check, kzg_commit, kzg_setup, G1};
use semiavidpr::poly::{check_domain, divide_by_linear, interpolate};
use semiavidpr::scheme::SemiAvidPr;

const CURVES: [Curve; 2] = [Curve::Bls12_381, Curve::Bn254];

fn to_scalar<E: PairingEngine>(value: &Fr) -> E::Fr {
    let mut repr = <E::Fr as PrimeField>::BigInt::default();
    repr.as_mut().copy_from_slice(&value.limbs);
    E::Fr::from_repr(repr).unwrap()
}

fn to_point<E: PairingEngine>(point: &G1) -> E::G1Affine {
    E::G1Affine::deserialize_unchecked(&point.bytes[..]).unwrap()
}

fn from_point<E: PairingEngine>(point: &E::G1Affine) -> G1 {
    let mut bytes = Vec::new();
    point.serialize_uncompressed(&mut bytes).unwrap();
    G1 { bytes }
}

fn ark_column<E: PairingEngine>(data: &Vec<Vec<Fr>>, i: usize, l: usize) -> DensePolynomial<E::Fr> {
    let domain: GeneralEvaluationDomain<E::Fr> = EvaluationDomain::<E::Fr>::new(l).unwrap();
    let evals = data.iter().map(|r| to_scalar::<E>(&r[i])).collect();
    Evaluations::from_vec_and_domain(evals, domain).interpolate()
}

fn ark_powers<E: PairingEngine>(scheme: &SemiAvidPr) -> Powers<'static, E> {
    let powers: Vec<E::G1Affine> = scheme.get_powers().iter().map(|p| to_point::<E>(p)).collect();
    Powers {
        powers_of_g: std::borrow::Cow::Owned(powers),
        powers_of_gamma_g: std::borrow::Cow::Owned(Vec::new()),
    }
}

fn kzg_commit_three_ways<E: PairingEngine>(curve: Curve) {
    let mut rng = StdRng::seed_from_u64(5);
    let scheme = SemiAvidPr::setup(&mut rng, curve, 16, 8, 1024).unwrap();
    let data_uncoded = scheme.generate_random_file(&mut rng);
    let ck = ark_powers::<E>(&scheme);

    for i in 0..scheme.get_num_column_commitments() {
        // internal method
        let commitment1 = to_point::<E>(&scheme.commit_column(&data_uncoded, i));

        // explicit method
        let poly_poly = ark_column::<E>(&data_uncoded, i, 1024);
        let commitment2 = KZG10::<E, DensePolynomial<E::Fr>>::commit(&ck, &poly_poly, None, None)
            .unwrap()
            .0
            .0;

        // compute KZG commitment manually to double-check calculation
        let mut commitment3 = E::G1Projective::zero();
        assert_eq!(ck.powers_of_g.len(), poly_poly.coeffs.len());
        for j in 0..ck.powers_of_g.len() {
            commitment3 += ck.powers_of_g[j].mul(poly_poly.coeffs[j]);
        }
        let commitment3 = commitment3.into_affine();

        // the above three better be equal
        assert_eq!(commitment1, commitment2);
        assert_eq!(commitment1, commitment3);
        assert_eq!(commitment2, commitment3);
    }
}

#[test]
fn test_kzg_commit_bls12_381() {
    kzg_commit_three_ways::<ark_bls12_381::Bls12_381>(Curve::Bls12_381)
}

#[test]
fn test_kzg_commit_bn254() {
    kzg_commit_three_ways::<ark_bn254::Bn254>(Curve::Bn254)
}

fn kzg_commitment_unwrap_wrap<E: PairingEngine>(curve: Curve) {
    let mut rng = StdRng::seed_from_u64(6);
    let scheme = SemiAvidPr::setup(&mut rng, curve, 2, 1, 1024).unwrap();
    let data_uncoded = scheme.generate_random_file(&mut rng);

    let poly_poly = ark_column::<E>(&data_uncoded, 0, 1024);
    let ck = ark_powers::<E>(&scheme);
    let commitment = KZG10::<E, DensePolynomial<E::Fr>>::commit(&ck, &poly_poly, None, None).unwrap();

    // the group element alone, as the library holds it, and back
    let unwrapped = from_point::<E>(&commitment.0 .0);
    let wrapped = (
        Commitment::<E>(to_point::<E>(&unwrapped)),
        Randomness::<E::Fr, DensePolynomial<E::Fr>>::empty(),
    );
    assert_eq!(commitment, wrapped);
    assert_eq!(unwrapped, scheme.commit_column(&data_uncoded, 0));
}

#[test]
fn test_kzg_commitment_unwrap_wrap_bls12_381() {
    kzg_commitment_unwrap_wrap::<ark_bls12_381::Bls12_381>(Curve::Bls12_381)
}

#[test]
fn test_kzg_commitment_unwrap_wrap_bn254() {
    kzg_commitment_unwrap_wrap::<ark_bn254::Bn254>(Curve::Bn254)
}

#[test]
fn column_commitment_is_the_combination_of_the_powers() {
    for curve in CURVES {
        let mut rng = StdRng::seed_from_u64(12);
        let scheme = SemiAvidPr::setup(&mut rng, curve, 4, 2, 8).unwrap();
        let file = scheme.generate_random_file(&mut rng);
        let powers = scheme.get_powers();
        for i in 0..2 {
            let column: Vec<Fr> = file.iter().map(|r| r[i]).collect();
            let coeffs = interpolate(curve, &column);
            let mut sum = g1_zero(curve);
            for j in 0..coeffs.len() {
                sum = g1_add(curve, &sum, &g1_mul(curve, &powers[j], coeffs[j]));
            }
            assert_eq!(scheme.commit_column(&file, i), sum);
            assert_eq!(kzg_commit(curve, powers, &coeffs), sum);
        }
    }
}

#[test]
fn group_operations() {
    for curve in CURVES {
        let mut rng = StdRng::seed_from_u64(13);
        let (powers, _) = kzg_setup(curve, &mut rng, 3);
        assert_eq!(powers.len(), 4);
        let zero = g1_zero(curve);
        let p = &powers[0];
        let q = &powers[1];
        assert_ne!(p, q);
        assert_ne!(p, &zero);
        for point in powers.iter().chain([&zero]) {
            assert!(g1_check(curve, point));
        }
        assert_eq!(&g1_add(curve, p, &zero), p);
        assert_eq!(&g1_add(curve, &zero, p), p);
        assert_eq!(g1_add(curve, p, q), g1_add(curve, q, p));
        assert_ne!(&g1_add(curve, p, q), p);
        assert_eq!(g1_mul(curve, p, Fr::zero()), zero);
        assert_eq!(&g1_mul(curve, p, Fr::one()), p);
        assert_eq!(g1_mul(curve, p, Fr::from_u64(2)), g1_add(curve, p, p));
        let three = g1_add(curve, &g1_add(curve, p, p), p);
        assert_eq!(g1_mul(curve, p, Fr::from_u64(3)), three);
        assert!(p.equals(&p.clone()));
        assert!(!p.equals(q));
        assert!(!p.equals(&G1 { bytes: p.bytes[1..].to_vec() }));
    }
}

#[test]
fn encodings_are_told_from_other_bytes() {
    let mut rng = StdRng::seed_from_u64(14);
    let (bls, _) = kzg_setup(Curve::Bls12_381, &mut rng, 1);
    let (bn, _) = kzg_setup(Curve::Bn254, &mut rng, 1);
    assert_eq!(bls[0].bytes.len(), 96);
    assert_eq!(bn[0].bytes.len(), 64);
    assert!(g1_check(Curve::Bls12_381, &bls[0]));
    assert!(g1_check(Curve::Bn254, &bn[0]));
    assert!(!g1_check(Curve::Bls12_381, &bn[0]));
    assert!(!g1_check(Curve::Bls12_381, &G1 { bytes: vec![] }));
    assert!(!g1_check(Curve::Bn254, &G1 { bytes: vec![0xff; 64] }));
    assert!(!g1_check(Curve::Bls12_381, &G1 { bytes: vec![0xff; 96] }));
}

#[test]
fn commitment_to_simple_polynomials() {
    for curve in CURVES {
        let mut rng = StdRng::seed_from_u64(15);
        let (powers, _) = kzg_setup(curve, &mut rng, 3);
        let f = Fr::from_u64;
        assert_eq!(kzg_commit(curve, &powers, &vec![]), g1_zero(curve));
        assert_eq!(kzg_commit(curve, &powers, &vec![f(0), f(0)]), g1_zero(curve));
        assert_eq!(kzg_commit(curve, &powers, &vec![f(1)]), powers[0]);
        assert_eq!(kzg_commit(curve, &powers, &vec![f(0), f(0), f(1)]), powers[2]);
        assert_eq!(
            kzg_commit(curve, &powers, &vec![f(5), f(0), f(0), f(2)]),
            g1_add(
                curve,
                &g1_mul(curve, &powers[0], f(5)),
                &g1_mul(curve, &powers[3], f(2))
            )
        );
    }
}

#[test]
fn evaluation_proofs() {
    for curve in CURVES {
        let mut rng = StdRng::seed_from_u64(16);
        let (powers, key) = kzg_setup(curve, &mut rng, 7);
        let coeffs: Vec<Fr> = (0..8).map(|_| fr_rand(curve, &mut rng)).collect();
        let commitment = kzg_commit(curve, &powers, &coeffs);
        let z = Fr::from_u64(3);
        // Horner's rule
        let mut y = Fr::zero();
        for c in coeffs.iter().rev() {
            y = fr_add(curve, fr_mul(curve, y, z), *c);
        }
        let witness = divide_by_linear(curve, &coeffs, z);
        assert_eq!(witness.len(), 7);
        let proof = kzg_commit(curve, &powers, &witness);
        assert!(kzg_check(curve, &key, &commitment, z, y, &proof));
        assert!(!kzg_check(curve, &key, &commitment, z, fr_add(curve, y, Fr::one()), &proof));
        assert!(!kzg_check(curve, &key, &commitment, Fr::from_u64(4), y, &proof));
        assert!(!kzg_check(curve, &key, &proof, z, y, &commitment));
    }
}

#[test]
fn encoded_commitment_is_the_commitment_of_the_coded_column() {
    for curve in CURVES {
        let mut rng = StdRng::seed_from_u64(18);
        let scheme = SemiAvidPr::setup(&mut rng, curve, 8, 3, 4).unwrap();
        let file = scheme.generate_random_file(&mut rng);
        let commitments = scheme.disperse_compute_column_commitments(&file);
        let coded = scheme.disperse_encode_rows(&file);
        for i in 0..8 {
            assert_eq!(
                scheme.encode_commitments(&commitments, i),
                scheme.commit_column(&coded, i)
            );
        }
        // at node 0 the point is one, so the combination is the plain sum
        let sum = g1_add(curve, &g1_add(curve, &commitments[0], &commitments[1]), &commitments[2]);
        assert_eq!(scheme.encode_commitments(&commitments, 0), sum);
    }
}

#[test]
fn constants_agree_with_the_curve_crates() {
    assert_eq!(
        Curve::Bls12_381.scalar_modulus_limbs(),
        <ark_bls12_381::FrParameters as FpParameters>::MODULUS.0
    );
    assert_eq!(
        Curve::Bn254.scalar_modulus_limbs(),
        <ark_bn254::FrParameters as FpParameters>::MODULUS.0
    );
    let mut rng = StdRng::seed_from_u64(19);
    let scheme = SemiAvidPr::setup(&mut rng, Curve::Bls12_381, 2, 1, 2).unwrap();
    assert_eq!(
        scheme.get_filesize(),
        2 * <ark_bls12_381::FrParameters as FpParameters>::CAPACITY as u128
    );
    let scheme = SemiAvidPr::setup(&mut rng, Curve::Bn254, 2, 1, 2).unwrap();
    assert_eq!(
        scheme.get_filesize(),
        2 * <ark_bn254::FrParameters as FpParameters>::CAPACITY as u128
    );
}

#[test]
fn domain_check_agrees_with_the_polynomial_crate() {
    for size in [0usize, 1, 2, 3, 12, 1024, 1 << 28, (1 << 28) + 1, 1 << 29, 1 << 32, 1 << 33] {
        let bls = GeneralEvaluationDomain::<ark_bls12_381::Fr>::new(size);
        assert_eq!(
            check_domain(Curve::Bls12_381, size),
            bls.map_or(false, |d| d.size() == size)
        );
        let bn = GeneralEvaluationDomain::<ark_bn254::Fr>::new(size);
        assert_eq!(check_domain(Curve::Bn254, size), bn.map_or(false, |d| d.size() == size));
    }
}
