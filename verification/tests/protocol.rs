use rand::rngs::StdRng;
use rand::SeedableRng;
use semiavidpr::curve::Curve;
use semiavidpr::field::{fr_add, fr_mul, fr_pow, Fr};
use semiavidpr::kzg::G1;
use semiavidpr::matrix::InvertError;
use semiavidpr::poly::domain_element;
use semiavidpr::scheme::{check_table, SemiAvidPr, SetupError};

fn small_scheme(curve: Curve, seed: u64) -> (SemiAvidPr, StdRng) {
    let mut rng = StdRng::seed_from_u64(seed);
    let scheme = SemiAvidPr::setup(&mut rng, curve, 8, 4, 16).unwrap();
    (scheme, rng)
}

fn round_trip(curve: Curve) {
    let mut rng = StdRng::seed_from_u64(7);
    let (n, k, l) = (16usize, 8usize, 1024usize);
    let scheme = SemiAvidPr::setup(&mut rng, curve, n, k, l).unwrap();
    let file_uncoded = scheme.generate_random_file(&mut rng);
    let column_commitments = scheme.disperse_compute_column_commitments(&file_uncoded);
    let file_coded = scheme.disperse_encode_rows(&file_uncoded);
    assert!(scheme.disperse_verify_chunks(&column_commitments, &file_coded));

    let idxs_download_nodes: Vec<usize> = (k..2 * k).collect();
    let file_coded_downloaded = scheme.retrieve_download_chunks(&file_coded, &idxs_download_nodes);
    assert!(scheme.retrieve_verify_chunks(
        &column_commitments,
        &file_coded_downloaded,
        &idxs_download_nodes
    ));
    let decoder_aux = scheme.retrieve_prepare_decoding(&idxs_download_nodes).unwrap();
    let file_uncoded_downloaded = scheme.retrieve_decode_rows(&file_coded_downloaded, &decoder_aux);
    assert_eq!(file_uncoded_downloaded.len(), l);
    for row in 0..l {
        assert_eq!(file_uncoded_downloaded[row].len(), k);
        for col in 0..k {
            assert_eq!(file_uncoded[row][col], file_uncoded_downloaded[row][col]);
        }
    }
}

#[test]
fn round_trip_bls12_381() {
    round_trip(Curve::Bls12_381);
}

#[test]
fn round_trip_bn254() {
    round_trip(Curve::Bn254);
}

#[test]
fn round_trip_from_scattered_nodes() {
    for curve in [Curve::Bls12_381, Curve::Bn254] {
        let (scheme, mut rng) = small_scheme(curve, 11);
        let file = scheme.generate_random_file(&mut rng);
        let coded = scheme.disperse_encode_rows(&file);
        let idxs = vec![6usize, 0, 3, 5];
        let downloaded = scheme.retrieve_download_chunks(&coded, &idxs);
        let decoder = scheme.retrieve_prepare_decoding(&idxs).unwrap();
        assert_eq!(scheme.retrieve_decode_rows(&downloaded, &decoder), file);
    }
}

#[test]
fn tampered_chunk_is_detected() {
    let mut rng = StdRng::seed_from_u64(3);
    let scheme = SemiAvidPr::setup(&mut rng, Curve::Bls12_381, 16, 8, 1024).unwrap();
    let file = scheme.generate_random_file(&mut rng);
    let commitments = scheme.disperse_compute_column_commitments(&file);
    let mut coded = scheme.disperse_encode_rows(&file);
    assert!(scheme.disperse_verify_chunks(&commitments, &coded));

    let mut limbs = coded[0][5].limbs;
    limbs[0] ^= 1;
    coded[0][5] = Fr::from_limbs(Curve::Bls12_381, limbs).unwrap();
    assert!(!scheme.disperse_verify_chunks(&commitments, &coded));
}

#[test]
fn tampered_download_is_detected() {
    let (scheme, mut rng) = small_scheme(Curve::Bn254, 5);
    let file = scheme.generate_random_file(&mut rng);
    let commitments = scheme.disperse_compute_column_commitments(&file);
    let coded = scheme.disperse_encode_rows(&file);
    let idxs = vec![4usize, 5, 6, 7];
    let mut downloaded = scheme.retrieve_download_chunks(&coded, &idxs);
    assert!(scheme.retrieve_verify_chunks(&commitments, &downloaded, &idxs));
    downloaded[3][2] = fr_add(Curve::Bn254, downloaded[3][2], Fr::one());
    assert!(!scheme.retrieve_verify_chunks(&commitments, &downloaded, &idxs));
    // the right columns under the wrong node numbers do not pass either
    let coded_again = scheme.retrieve_download_chunks(&coded, &idxs);
    assert!(!scheme.retrieve_verify_chunks(&commitments, &coded_again, &vec![0usize, 1, 2, 3]));
}

fn sampling(curve: Curve) {
    let mut rng = StdRng::seed_from_u64(21);
    let (n, k, l) = (16usize, 8usize, 1024usize);
    let scheme = SemiAvidPr::setup(&mut rng, curve, n, k, l).unwrap();
    let file = scheme.generate_random_file(&mut rng);
    let commitments = scheme.disperse_compute_column_commitments(&file);
    for idx in 0..std::cmp::min(k, l) {
        let opening = scheme.sampling_open_entry(&commitments, &file, idx, idx);
        assert_eq!(opening.0, file[idx][idx]);
        assert_eq!(opening.1, idx);
        assert_eq!(opening.2, idx);
        assert_eq!(opening.3, commitments);
        assert!(scheme.sampling_verify_entry(opening));
    }
}

#[test]
fn sampling_bls12_381() {
    sampling(Curve::Bls12_381);
}

#[test]
fn sampling_bn254() {
    sampling(Curve::Bn254);
}

#[test]
fn sampling_off_the_diagonal() {
    let (scheme, mut rng) = small_scheme(Curve::Bls12_381, 2);
    let file = scheme.generate_random_file(&mut rng);
    let commitments = scheme.disperse_compute_column_commitments(&file);
    let opening = scheme.sampling_open_entry(&commitments, &file, 13, 2);
    assert_eq!(opening.0, file[13][2]);
    assert!(scheme.sampling_verify_entry(opening));
}

#[test]
fn wrong_value_is_rejected() {
    for curve in [Curve::Bls12_381, Curve::Bn254] {
        let (scheme, mut rng) = small_scheme(curve, 9);
        let file = scheme.generate_random_file(&mut rng);
        let commitments = scheme.disperse_compute_column_commitments(&file);
        let (y, row, col, comms, proof) = scheme.sampling_open_entry(&commitments, &file, 3, 1);
        let wrong = fr_add(curve, y, Fr::one());
        assert!(!scheme.sampling_verify_entry((wrong, row, col, comms, proof)));
    }
}

#[test]
fn opening_for_another_place_is_rejected() {
    let (scheme, mut rng) = small_scheme(Curve::Bls12_381, 4);
    let file = scheme.generate_random_file(&mut rng);
    let commitments = scheme.disperse_compute_column_commitments(&file);
    let (y, row, col, comms, proof) = scheme.sampling_open_entry(&commitments, &file, 3, 1);
    assert!(!scheme.sampling_verify_entry((y, row + 1, col, comms.clone(), proof.clone())));
    assert!(!scheme.sampling_verify_entry((y, row, col + 1, comms.clone(), proof.clone())));
    // out of range
    assert!(!scheme.sampling_verify_entry((y, 16, col, comms.clone(), proof.clone())));
    assert!(!scheme.sampling_verify_entry((y, row, 4, comms.clone(), proof.clone())));
    // too few commitments to hold the column
    assert!(!scheme.sampling_verify_entry((y, row, col, vec![comms[0].clone()], proof.clone())));
    // not a scalar
    let modulus = Curve::Bls12_381.scalar_modulus_limbs();
    assert!(!scheme.sampling_verify_entry((Fr { limbs: modulus }, row, col, comms.clone(), proof.clone())));
    // not a group element
    let junk = G1 { bytes: vec![0xff; 5] };
    assert!(!scheme.sampling_verify_entry((y, row, col, comms.clone(), junk)));
    assert!(scheme.sampling_verify_entry((y, row, col, comms, proof)));
}

#[test]
fn setup_rejects_bad_shape() {
    let mut rng = StdRng::seed_from_u64(1);
    for curve in [Curve::Bls12_381, Curve::Bn254] {
        assert_eq!(
            SemiAvidPr::setup(&mut rng, curve, 10, 8, 1024).err(),
            Some(SetupError::NodesNotPowerOfTwo)
        );
        assert_eq!(
            SemiAvidPr::setup(&mut rng, curve, 0, 0, 16).err(),
            Some(SetupError::NodesNotPowerOfTwo)
        );
        assert_eq!(
            SemiAvidPr::setup(&mut rng, curve, 16, 8, 1000).err(),
            Some(SetupError::LengthNotPowerOfTwo)
        );
        assert_eq!(
            SemiAvidPr::setup(&mut rng, curve, 16, 16, 1024).err(),
            Some(SetupError::TooManyColumns)
        );
        assert_eq!(
            SemiAvidPr::setup(&mut rng, curve, 16, 17, 1024).err(),
            Some(SetupError::TooManyColumns)
        );
        assert_eq!(
            SemiAvidPr::setup(&mut rng, curve, 16, 8, 1).err(),
            Some(SetupError::LengthTooShort)
        );
    }
    assert_eq!(
        SemiAvidPr::setup(&mut rng, Curve::Bn254, 1 << 29, 8, 16).err(),
        Some(SetupError::UnsupportedDomain)
    );
    assert_eq!(
        SemiAvidPr::setup(&mut rng, Curve::Bls12_381, 16, 8, 1 << 33).err(),
        Some(SetupError::UnsupportedDomain)
    );
    assert!(SemiAvidPr::setup(&mut rng, Curve::Bls12_381, 2, 1, 2).is_ok());
    assert!(SemiAvidPr::setup(&mut rng, Curve::Bn254, 1, 0, 2).is_ok());
}

#[test]
fn test_filesizes() {
    let mut rng = StdRng::seed_from_u64(1);
    let scheme = SemiAvidPr::setup(&mut rng, Curve::Bls12_381, 512, 256, 1024).unwrap();
    assert_eq!(scheme.get_filesize_in_bytes(), 254 * 256 * 1024 / 8);
    let scheme = SemiAvidPr::setup(&mut rng, Curve::Bn254, 512, 256, 1024).unwrap();
    assert_eq!(scheme.get_filesize_in_bytes(), 253 * 256 * 1024 / 8);
}

#[test]
fn filesize_fixtures() {
    let mut rng = StdRng::seed_from_u64(1);
    let scheme = SemiAvidPr::setup(&mut rng, Curve::Bls12_381, 512, 256, 1024).unwrap();
    assert_eq!(scheme.get_filesize(), 66_584_576);
    assert_eq!(scheme.get_filesize_in_bytes(), 8_323_072);
    let scheme = SemiAvidPr::setup(&mut rng, Curve::Bn254, 512, 256, 1024).unwrap();
    assert_eq!(scheme.get_filesize(), 66_322_432);
    assert_eq!(scheme.get_filesize_in_bytes(), 8_290_304);
    // the division by eight rounds down
    let scheme = SemiAvidPr::setup(&mut rng, Curve::Bn254, 4, 1, 2).unwrap();
    assert_eq!(scheme.get_filesize(), 506);
    assert_eq!(scheme.get_filesize_in_bytes(), 63);
}

#[test]
fn dimensions_are_reported() {
    let (scheme, _) = small_scheme(Curve::Bn254, 1);
    assert_eq!(scheme.get_curve(), Curve::Bn254);
    assert_eq!(scheme.get_num_column_commitments(), 4);
    assert_eq!(scheme.get_num_row_encodings(), 16);
    assert_eq!(scheme.get_num_chunk_verifications(), 8);
    assert_eq!(scheme.get_num_downloaded_chunk_verifications(), 4);
    assert_eq!(scheme.get_num_row_decodings(), 16);
    assert_eq!(scheme.get_powers().len(), 16);
    assert_eq!(scheme.dimensions(), (8, 4, 16));
    assert!(!scheme.get_verifier_key().bytes.is_empty());
}

#[test]
fn random_file_has_the_shape_of_the_scheme() {
    let (scheme, mut rng) = small_scheme(Curve::Bls12_381, 8);
    let file = scheme.generate_random_file(&mut rng);
    assert_eq!(file.len(), 16);
    for row in &file {
        assert_eq!(row.len(), 4);
        for value in row {
            assert!(value.check_element(Curve::Bls12_381));
        }
    }
    let other = scheme.generate_random_file(&mut rng);
    assert_ne!(file, other);
}

#[test]
fn coded_file_and_commitments_have_the_expected_shape() {
    let (scheme, mut rng) = small_scheme(Curve::Bn254, 8);
    let file = scheme.generate_random_file(&mut rng);
    let coded = scheme.disperse_encode_rows(&file);
    assert_eq!(coded.len(), 16);
    assert!(coded.iter().all(|row| row.len() == 8));
    let commitments = scheme.disperse_compute_column_commitments(&file);
    assert_eq!(commitments.len(), 4);
    assert!(scheme.check_commitments(&commitments));
}

#[test]
fn download_picks_the_named_columns_in_order() {
    let (scheme, _) = small_scheme(Curve::Bls12_381, 8);
    let coded: Vec<Vec<Fr>> = (0..3u64)
        .map(|j| (0..8u64).map(|i| Fr::from_u64(10 * j + i)).collect())
        .collect();
    let picked = scheme.retrieve_download_chunks(&coded, &vec![7, 2, 2, 0]);
    let expected: Vec<Vec<Fr>> = (0..3u64)
        .map(|j| [7u64, 2, 2, 0].iter().map(|i| Fr::from_u64(10 * j + i)).collect())
        .collect();
    assert_eq!(picked, expected);
}

#[test]
fn malformed_commitments_fail_verification() {
    let (scheme, mut rng) = small_scheme(Curve::Bls12_381, 6);
    let file = scheme.generate_random_file(&mut rng);
    let commitments = scheme.disperse_compute_column_commitments(&file);
    let coded = scheme.disperse_encode_rows(&file);
    assert!(scheme.disperse_verify_chunks(&commitments, &coded));

    let mut short = commitments.clone();
    short.pop();
    assert!(!scheme.check_commitments(&short));
    assert!(!scheme.disperse_verify_chunks(&short, &coded));

    let mut broken = commitments.clone();
    broken[1] = G1 { bytes: vec![1, 2, 3] };
    assert!(!scheme.check_commitments(&broken));
    assert!(!scheme.disperse_verify_chunks(&broken, &coded));

    let mut swapped = commitments.clone();
    swapped.swap(0, 1);
    assert!(scheme.check_commitments(&swapped));
    assert!(!scheme.disperse_verify_chunks(&swapped, &coded));
}

#[test]
fn decoder_for_a_repeated_node_does_not_exist() {
    let (scheme, _) = small_scheme(Curve::Bls12_381, 6);
    let outcome = scheme.retrieve_prepare_decoding(&vec![1, 1, 2, 3]);
    assert_eq!(outcome.err(), Some(InvertError::ZeroPivot));
}

#[test]
fn decoder_is_the_inverse_of_the_vandermonde_matrix() {
    for curve in [Curve::Bls12_381, Curve::Bn254] {
        let (scheme, _) = small_scheme(curve, 10);
        let idxs = vec![7usize, 1, 4, 2];
        let decoder = scheme.retrieve_prepare_decoding(&idxs).unwrap();
        assert_eq!((decoder.height(), decoder.width()), (4, 4));
        let v = |t: usize, u: usize| fr_pow(curve, domain_element(curve, 8, idxs[u]), t as u64);
        for r in 0..4 {
            for c in 0..4 {
                let mut right = Fr::zero();
                let mut left = Fr::zero();
                for t in 0..4 {
                    right = fr_add(curve, right, fr_mul(curve, v(r, t), decoder.get(t, c)));
                    left = fr_add(curve, left, fr_mul(curve, decoder.get(r, t), v(t, c)));
                }
                let expected = if r == c { Fr::one() } else { Fr::zero() };
                assert_eq!(right, expected);
                assert_eq!(left, expected);
            }
        }
    }
}

#[test]
fn tables_are_checked_for_shape_and_range() {
    let f = Fr::from_u64;
    let curve = Curve::Bn254;
    let table = vec![vec![f(1), f(2), f(3)], vec![f(4), f(5), f(6)]];
    assert!(check_table(&table, 2, 3, curve));
    assert!(!check_table(&table, 3, 3, curve));
    assert!(!check_table(&table, 2, 2, curve));
    assert!(check_table(&vec![], 0, 7, curve));
    let ragged = vec![vec![f(1), f(2), f(3)], vec![f(4), f(5)]];
    assert!(!check_table(&ragged, 2, 3, curve));
    let mut outside = table.clone();
    outside[1][2] = Fr { limbs: curve.scalar_modulus_limbs() };
    assert!(!check_table(&outside, 2, 3, curve));
    // an element of the larger field only
    let mut limbs = Curve::Bls12_381.scalar_modulus_limbs();
    limbs[0] -= 1;
    outside[1][2] = Fr { limbs };
    assert!(check_table(&outside, 2, 3, Curve::Bls12_381));
    assert!(!check_table(&outside, 2, 3, Curve::Bn254));
}
