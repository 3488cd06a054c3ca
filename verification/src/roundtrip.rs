//! How retrieval fits dispersal: downloaded columns pass the check that the
//! coded columns they were taken from pass, and decoding gives the file back,
//! because encoding a row multiplies it with a Vandermonde matrix and the
//! decoder is a right inverse of the columns of that matrix that were
//! downloaded.

use vstd::prelude::*;
use crate::curve::{Curve, scalar_modulus};
use crate::field::{fadd, fmul, fpow, lemma_fpow_reduced};
use crate::inversion::{
    lemma_dot_combined, lemma_dot_unit_right, unit_entry, is_field,
    lemma_gauss_jordan_right_inverse, lemma_nonzero_pivots_are_invertible,
};
use crate::linalg::{
    Rows, is_matrix, is_reduced, identity, beside, pivots_nonzero, gauss_jordan, dot_prefix,
    column, product,
};
use crate::poly::{domain_point, eval_prefix, evaluations};
use crate::field::Fr;
use crate::kzg::G1;
use crate::scheme::{SemiAvidPr, vandermonde, picked, decoded, column_values};

verus! {

/// A downloaded column passes the chunk check for its storage node exactly
/// when the column of the coded file that it was taken from does.
pub proof fn lemma_download_keeps_matches(
    scheme: &SemiAvidPr,
    commitments: Seq<G1>,
    coded: Seq<Vec<Fr>>,
    downloaded: Seq<Vec<Fr>>,
    idxs: Seq<usize>,
    u: int,
)
    requires
        0 <= u < idxs.len(),
        downloaded.len() == coded.len(),
        forall|j: int|
            0 <= j < coded.len() ==> (#[trigger] downloaded[j])@[u] == coded[j]@[idxs[u] as int],
    ensures
        scheme.chunk_matches(commitments, downloaded, u, idxs[u] as nat) == scheme.chunk_matches(
            commitments,
            coded,
            idxs[u] as int,
            idxs[u] as nat,
        ),
{
    assert(column_values(downloaded, u) =~= column_values(coded, idxs[u] as int));
}

/// Evaluating a polynomial at `x` is the inner product of its coefficients
/// with the powers of `x`.
pub proof fn lemma_eval_is_dot(p: nat, coeffs: Seq<nat>, x: nat, powers: Seq<nat>, n: nat)
    requires
        n <= coeffs.len(),
        n <= powers.len(),
        forall|t: int| 0 <= t < n ==> #[trigger] powers[t] == fpow(p, x, t as nat),
    ensures
        eval_prefix(p, coeffs, x, n) == dot_prefix(p, coeffs, powers, n),
    decreases n,
{
    if n > 0 {
        lemma_eval_is_dot(p, coeffs, x, powers, (n - 1) as nat);
    }
}

/// The row vector `f`, cut to its first `n` entries, times the matrix `v` of width `k`.
pub open spec fn partial_sums(p: nat, f: Seq<nat>, v: Rows, k: nat, n: nat) -> Seq<nat> {
    Seq::new(k, |u: int| dot_prefix(p, f, column(v, u), n))
}

/// The matrix `v` of width `k` times the column vector `w`.
pub open spec fn row_products(p: nat, v: Rows, w: Seq<nat>, k: nat) -> Seq<nat> {
    Seq::new(v.len(), |t: int| dot_prefix(p, v[t], w, k))
}

/// A row vector times a matrix times a column vector may be computed from
/// either side.
pub proof fn lemma_vector_matrix_vector(p: nat, f: Seq<nat>, v: Rows, w: Seq<nat>, k: nat, n: nat)
    requires
        p > 0,
        n <= f.len(),
        n <= v.len(),
        k <= w.len(),
        forall|t: int| 0 <= t < v.len() ==> (#[trigger] v[t]).len() == k,
    ensures
        dot_prefix(p, partial_sums(p, f, v, k, n), w, k) == dot_prefix(
            p,
            f,
            row_products(p, v, w, k),
            n,
        ),
    decreases n,
{
    let now = partial_sums(p, f, v, k, n);
    if n == 0 {
        lemma_dot_of_zeros(p, now, w, k);
    } else {
        let before = partial_sums(p, f, v, k, (n - 1) as nat);
        lemma_vector_matrix_vector(p, f, v, w, k, (n - 1) as nat);
        assert forall|u: int| 0 <= u < k implies now[u] == fadd(
            p,
            before[u],
            fmul(p, f[n - 1], v[n - 1][u]),
        ) by {}
        lemma_dot_combined(p, before, v[n - 1], f[n - 1], now, w, k);
    }
}

/// The inner product of zeros with anything is zero.
pub proof fn lemma_dot_of_zeros(p: nat, a: Seq<nat>, w: Seq<nat>, n: nat)
    requires
        p > 0,
        n <= a.len(),
        n <= w.len(),
        forall|u: int| 0 <= u < n ==> #[trigger] a[u] == 0,
    ensures
        dot_prefix(p, a, w, n) == 0,
    decreases n,
{
    if n > 0 {
        lemma_dot_of_zeros(p, a, w, (n - 1) as nat);
        vstd::arithmetic::div_mod::lemma_small_mod(0, p);
    }
}

/// Decoding undoes encoding: a row of scalars that is encoded for `nodes`
/// storage nodes, downloaded from the nodes `idxs` and multiplied with a
/// right inverse of the Vandermonde matrix of those nodes, is the row again.
pub proof fn lemma_round_trip(curve: Curve, nodes: nat, idxs: Seq<usize>, row: Seq<nat>, decoder: Rows)
    requires
        forall|t: int| 0 <= t < row.len() ==> (#[trigger] row[t]) < scalar_modulus(curve),
        idxs.len() == row.len(),
        forall|u: int| 0 <= u < idxs.len() ==> (#[trigger] idxs[u]) < nodes,
        is_matrix(decoder, row.len(), row.len()),
        product(
            scalar_modulus(curve),
            vandermonde(curve, nodes, idxs, row.len()),
            decoder,
            row.len(),
        ) == identity(row.len()),
    ensures
        decoded(
            scalar_modulus(curve),
            picked(evaluations(curve, row, nodes), idxs),
            decoder,
            row.len(),
        ) == row,
{
    let p = scalar_modulus(curve);
    let k = row.len();
    let v = vandermonde(curve, nodes, idxs, k);
    let coded = evaluations(curve, row, nodes);
    let downloaded = picked(coded, idxs);
    let result = decoded(p, downloaded, decoder, k);
    assert forall|u: int| 0 <= u < k implies #[trigger] downloaded[u] == partial_sums(
        p,
        row,
        v,
        k,
        k,
    )[u] by {
        let x = domain_point(curve, nodes, idxs[u] as nat);
        assert forall|t: int| 0 <= t < k implies #[trigger] column(v, u)[t] == fpow(
            p,
            x,
            t as nat,
        ) by {}
        lemma_eval_is_dot(p, row, x, column(v, u), k);
    }
    assert(downloaded =~= partial_sums(p, row, v, k, k));
    assert forall|c: int| 0 <= c < k implies #[trigger] result[c] == row[c] by {
        let w = column(decoder, c);
        lemma_vector_matrix_vector(p, row, v, w, k, k);
        let e = row_products(p, v, w, k);
        assert forall|t: int| 0 <= t < k implies #[trigger] e[t] == unit_entry(t, c) && row[t]
            < p by {
            assert(product(p, v, decoder, k)[t][c] == e[t]);
        }
        lemma_dot_unit_right(p, row, e, k, c);
    }
}

/// Decoding with the inverse that elimination computes undoes encoding:
/// where the residues form a field and the elimination on the Vandermonde
/// matrix of the nodes `idxs` meets no zero pivot, a row that is encoded,
/// downloaded from those nodes and decoded is the row again.
pub proof fn lemma_round_trip_by_inversion(curve: Curve, nodes: nat, idxs: Seq<usize>, row: Seq<nat>)
    requires
        is_field(scalar_modulus(curve)),
        forall|t: int| 0 <= t < row.len() ==> (#[trigger] row[t]) < scalar_modulus(curve),
        idxs.len() == row.len(),
        forall|u: int| 0 <= u < idxs.len() ==> (#[trigger] idxs[u]) < nodes,
        pivots_nonzero(
            scalar_modulus(curve),
            beside(vandermonde(curve, nodes, idxs, row.len()), identity(row.len())),
            row.len(),
        ),
    ensures
        decoded(
            scalar_modulus(curve),
            picked(evaluations(curve, row, nodes), idxs),
            gauss_jordan(scalar_modulus(curve), vandermonde(curve, nodes, idxs, row.len())),
            row.len(),
        ) == row,
{
    let p = scalar_modulus(curve);
    let k = row.len();
    let v = vandermonde(curve, nodes, idxs, k);
    assert(is_matrix(v, k, k));
    assert(is_reduced(v, p)) by {
        assert forall|t: int, u: int| 0 <= t < v.len() && 0 <= u < v[t].len() implies (
        #[trigger] v[t][u]) < p by {
            lemma_fpow_reduced(p, domain_point(curve, nodes, idxs[u] as nat), t as nat);
        }
    }
    let start = beside(v, identity(k));
    assert(is_reduced(start, p)) by {
        assert forall|r: int, c: int| 0 <= r < start.len() && 0 <= c < start[r].len() implies (
        #[trigger] start[r][c]) < p by {
            if c < k {
                assert(start[r][c] == v[r][c]);
            } else {
                assert(start[r][c] == identity(k)[r][c - k]);
            }
        }
    }
    lemma_nonzero_pivots_are_invertible(p, start, k, k, k + k);
    lemma_gauss_jordan_right_inverse(p, v, k);
    lemma_round_trip(curve, nodes, idxs, row, gauss_jordan(p, v));
}

} // verus!
