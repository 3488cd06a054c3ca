use semiavidpr::curve::Curve;
use semiavidpr::field::{fr_add, fr_inverse, fr_mul, fr_neg, Fr};
use semiavidpr::matrix::{InvertError, Matrix};

const CURVES: [Curve; 2] = [Curve::Bls12_381, Curve::Bn254];

fn matrix(curve: Curve, rows: &[&[u64]]) -> Matrix {
    let width = if rows.is_empty() { 0 } else { rows[0].len() };
    let nested = rows.iter().map(|r| r.iter().map(|v| Fr::from_u64(*v)).collect()).collect();
    Matrix::from_nested_vec(curve, rows.len(), width, nested).unwrap()
}

fn entries(m: &Matrix) -> Vec<Vec<Fr>> {
    (0..m.height()).map(|r| (0..m.width()).map(|c| m.get(r, c)).collect()).collect()
}

fn numbers(rows: &[&[u64]]) -> Vec<Vec<Fr>> {
    rows.iter().map(|r| r.iter().map(|v| Fr::from_u64(*v)).collect()).collect()
}

fn product(curve: Curve, a: &Matrix, b: &Matrix) -> Vec<Vec<Fr>> {
    (0..a.height())
        .map(|r| {
            (0..b.width())
                .map(|c| {
                    let mut sum = Fr::zero();
                    for t in 0..a.width() {
                        sum = fr_add(curve, sum, fr_mul(curve, a.get(r, t), b.get(t, c)));
                    }
                    sum
                })
                .collect()
        })
        .collect()
}

#[test]
fn construction_from_rows() {
    let m = matrix(Curve::Bls12_381, &[&[1, 2, 3], &[4, 5, 6]]);
    assert_eq!(m.height(), 2);
    assert_eq!(m.width(), 3);
    assert_eq!(m.curve(), Curve::Bls12_381);
    assert_eq!(m.get(0, 0), Fr::from_u64(1));
    assert_eq!(m.get(0, 2), Fr::from_u64(3));
    assert_eq!(m.get(1, 0), Fr::from_u64(4));
    assert_eq!(m.get(1, 2), Fr::from_u64(6));
    let empty = Matrix::from_nested_vec(Curve::Bn254, 0, 0, vec![]).unwrap();
    assert_eq!((empty.height(), empty.width()), (0, 0));
}

#[test]
fn construction_fails_on_a_shape_mismatch() {
    let f = Fr::from_u64;
    let rows = vec![vec![f(1), f(2)], vec![f(3), f(4)]];
    assert!(Matrix::from_nested_vec(Curve::Bn254, 2, 2, rows.clone()).is_some());
    assert!(Matrix::from_nested_vec(Curve::Bn254, 3, 2, rows.clone()).is_none());
    assert!(Matrix::from_nested_vec(Curve::Bn254, 1, 2, rows.clone()).is_none());
    assert!(Matrix::from_nested_vec(Curve::Bn254, 2, 3, rows.clone()).is_none());
    let ragged = vec![vec![f(1), f(2)], vec![f(3)]];
    assert!(Matrix::from_nested_vec(Curve::Bn254, 2, 2, ragged).is_none());
    assert!(Matrix::from_nested_vec(Curve::Bn254, usize::MAX, 2, vec![]).is_none());
}

#[test]
fn a_clone_is_equal_and_independent() {
    let m = matrix(Curve::Bn254, &[&[1, 2], &[3, 4]]);
    let mut copy = m.clone();
    assert_eq!(entries(&copy), entries(&m));
    assert_eq!((copy.height(), copy.width(), copy.curve()), (2, 2, Curve::Bn254));
    copy.set(0, 0, Fr::from_u64(9));
    assert_eq!(entries(&m), numbers(&[&[1, 2], &[3, 4]]));
    assert_eq!(entries(&copy), numbers(&[&[9, 2], &[3, 4]]));
}

#[test]
fn set_replaces_one_entry() {
    let mut m = matrix(Curve::Bn254, &[&[1, 2], &[3, 4], &[5, 6]]);
    m.set(1, 0, Fr::from_u64(9));
    assert_eq!(entries(&m), numbers(&[&[1, 2], &[9, 4], &[5, 6]]));
    m.set(2, 1, Fr::from_u64(0));
    assert_eq!(entries(&m), numbers(&[&[1, 2], &[9, 4], &[5, 0]]));
}

#[test]
fn filled_and_diagonal_matrices() {
    let m = Matrix::filled(Curve::Bn254, 2, 3, Fr::from_u64(7));
    assert_eq!(entries(&m), numbers(&[&[7, 7, 7], &[7, 7, 7]]));
    let d = Matrix::from_diagonal_element(Curve::Bn254, 3, Fr::from_u64(2), Fr::from_u64(5));
    assert_eq!(entries(&d), numbers(&[&[5, 2, 2], &[2, 5, 2], &[2, 2, 5]]));
    let none = Matrix::from_diagonal_element(Curve::Bn254, 0, Fr::zero(), Fr::one());
    assert_eq!((none.height(), none.width()), (0, 0));
}

#[test]
fn horizontal_concatenation_and_column_selection() {
    let a = matrix(Curve::Bls12_381, &[&[1, 2], &[3, 4]]);
    let b = matrix(Curve::Bls12_381, &[&[5, 6, 7], &[8, 9, 10]]);
    let ab = a.hcat(&b);
    assert_eq!(entries(&ab), numbers(&[&[1, 2, 5, 6, 7], &[3, 4, 8, 9, 10]]));
    let ba = b.hcat(&a);
    assert_eq!(entries(&ba), numbers(&[&[5, 6, 7, 1, 2], &[8, 9, 10, 3, 4]]));
    let picked = ab.hpick(&vec![4, 0, 0, 2]);
    assert_eq!(entries(&picked), numbers(&[&[7, 1, 1, 5], &[10, 3, 3, 8]]));
    let nothing = ab.hpick(&vec![]);
    assert_eq!((nothing.height(), nothing.width()), (2, 0));
}

#[test]
fn row_operations() {
    for curve in CURVES {
        let mut m = matrix(curve, &[&[2, 4, 6], &[1, 1, 1], &[0, 3, 5]]);
        m.divide_row(0, Fr::from_u64(2));
        assert_eq!(entries(&m), numbers(&[&[1, 2, 3], &[1, 1, 1], &[0, 3, 5]]));
        m.multiply_row_and_add_to_row(0, Fr::from_u64(10), 2);
        assert_eq!(entries(&m), numbers(&[&[1, 2, 3], &[1, 1, 1], &[10, 23, 35]]));
        m.multiply_row_and_add_to_row(1, fr_neg(curve, Fr::from_u64(1)), 0);
        assert_eq!(entries(&m), numbers(&[&[0, 1, 2], &[1, 1, 1], &[10, 23, 35]]));
        m.multiply_row_and_add_to_row(1, Fr::from_u64(3), 1);
        assert_eq!(entries(&m), numbers(&[&[0, 1, 2], &[4, 4, 4], &[10, 23, 35]]));
        // division that does not come out even: 1 / 3 times 3 is 1 again
        m.divide_row(1, Fr::from_u64(3));
        let third = fr_inverse(curve, Fr::from_u64(3));
        assert_eq!(m.get(1, 0), fr_mul(curve, Fr::from_u64(4), third));
        m.divide_row(1, third);
        assert_eq!(entries(&m), numbers(&[&[0, 1, 2], &[4, 4, 4], &[10, 23, 35]]));
    }
}

#[test]
fn inverse_has_exact_entries() {
    for curve in CURVES {
        let f = Fr::from_u64;
        // [[1, 2], [3, 4]]^-1 = [[-2, 1], [3/2, -1/2]]
        let m = matrix(curve, &[&[1, 2], &[3, 4]]);
        let inverse = m.invert().unwrap();
        let half = fr_inverse(curve, f(2));
        let expected = vec![
            vec![fr_neg(curve, f(2)), f(1)],
            vec![fr_mul(curve, f(3), half), fr_neg(curve, half)],
        ];
        assert_eq!(entries(&inverse), expected);
        assert_eq!(inverse.curve(), curve);
        // [[2, 0], [0, 1]]^-1 = [[1/2, 0], [0, 1]]
        let m = matrix(curve, &[&[2, 0], &[0, 1]]);
        assert_eq!(entries(&m.invert().unwrap()), vec![vec![half, f(0)], vec![f(0), f(1)]]);
    }
}

#[test]
fn inverse_times_matrix_is_the_identity() {
    for curve in CURVES {
        let m = matrix(curve, &[&[2, 7, 1, 8], &[2, 8, 1, 8], &[3, 1, 4, 1], &[5, 9, 2, 7]]);
        let inverse = m.invert().unwrap();
        let identity = numbers(&[&[1, 0, 0, 0], &[0, 1, 0, 0], &[0, 0, 1, 0], &[0, 0, 0, 1]]);
        assert_eq!(product(curve, &m, &inverse), identity);
        assert_eq!(product(curve, &inverse, &m), identity);
        // the input is left as it was
        assert_eq!(entries(&m), numbers(&[&[2, 7, 1, 8], &[2, 8, 1, 8], &[3, 1, 4, 1], &[5, 9, 2, 7]]));
        // inverting twice gives the matrix back
        assert_eq!(entries(&inverse.invert().unwrap()), entries(&m));
    }
}

#[test]
fn identity_and_empty_matrix_invert_to_themselves() {
    let id = Matrix::from_diagonal_element(Curve::Bn254, 5, Fr::zero(), Fr::one());
    assert_eq!(entries(&id.invert().unwrap()), entries(&id));
    let empty = Matrix::from_nested_vec(Curve::Bn254, 0, 0, vec![]).unwrap();
    let inverse = empty.invert().unwrap();
    assert_eq!((inverse.height(), inverse.width()), (0, 0));
}

#[test]
fn inversion_fails_on_a_zero_pivot() {
    for curve in CURVES {
        // singular
        let m = matrix(curve, &[&[1, 2], &[2, 4]]);
        assert_eq!(m.invert().err(), Some(InvertError::ZeroPivot));
        let m = matrix(curve, &[&[0, 0], &[0, 0]]);
        assert_eq!(m.invert().err(), Some(InvertError::ZeroPivot));
        // regular, but the first diagonal entry is zero and rows are not exchanged
        let m = matrix(curve, &[&[0, 1], &[1, 0]]);
        assert_eq!(m.invert().err(), Some(InvertError::ZeroPivot));
        // the zero turns up at the second step only
        let m = matrix(curve, &[&[1, 1, 0], &[1, 1, 1], &[0, 1, 1]]);
        assert_eq!(m.invert().err(), Some(InvertError::ZeroPivot));
    }
}

#[test]
fn inversion_fails_on_a_matrix_that_is_not_square() {
    let m = matrix(Curve::Bls12_381, &[&[1, 2, 3], &[4, 5, 6]]);
    assert_eq!(m.invert().err(), Some(InvertError::NotSquare));
    let m = matrix(Curve::Bls12_381, &[&[1], &[4]]);
    assert_eq!(m.invert().err(), Some(InvertError::NotSquare));
}
