//! Why Gauss-Jordan elimination on `[A | I]` leaves the inverse of `A`: the
//! row operations keep the solutions of every linear system they are applied
//! to, they keep the left half equal to the right half times `A`, and they
//! turn the left half into the identity.

use vstd::prelude::*;
use crate::field::{
    fadd, fmul, fneg, finv, invertible, lemma_fmul_assoc, lemma_fmul_comm,
    lemma_fmul_distributes, lemma_neutral, lemma_fneg_cancels, lemma_fadd_cancel,
    lemma_fmul_cancel,
};
use crate::linalg::{
    Rows, is_matrix, is_reduced, identity, beside, scale_row, combined_row, clear_column,
    pivot_step, reduce, pivots_invertible, pivots_nonzero, gauss_jordan, dot_prefix, column,
    product,
};

verus! {

/// The entry of an identity matrix at (`r`, `c`).
pub open spec fn unit_entry(r: int, c: int) -> nat {
    if r == c {
        1
    } else {
        0
    }
}

/// Two sums of two sums may exchange their inner summands.
pub proof fn lemma_fadd_interchange(p: nat, a: nat, b: nat, c: nat, d: nat)
    requires
        p > 0,
    ensures
        fadd(p, fadd(p, a, b), fadd(p, c, d)) == fadd(p, fadd(p, a, c), fadd(p, b, d)),
{
    let (pi, ai, bi, ci, di) = (p as int, a as int, b as int, c as int, d as int);
    vstd::arithmetic::div_mod::lemma_add_mod_noop(ai + bi, ci + di, pi);
    vstd::arithmetic::div_mod::lemma_add_mod_noop(ai + ci, bi + di, pi);
}

/// An inner product only reads as many entries as it sums.
pub proof fn lemma_dot_agree(p: nat, a: Seq<nat>, b: Seq<nat>, x: Seq<nat>, y: Seq<nat>, n: nat)
    requires
        n <= a.len() && n <= b.len() && n <= x.len() && n <= y.len(),
        forall|c: int| 0 <= c < n ==> a[c] == b[c] && x[c] == y[c],
    ensures
        dot_prefix(p, a, x, n) == dot_prefix(p, b, y, n),
    decreases n,
{
    if n > 0 {
        lemma_dot_agree(p, a, b, x, y, (n - 1) as nat);
    }
}

/// An inner product is a residue.
pub proof fn lemma_dot_reduced(p: nat, a: Seq<nat>, x: Seq<nat>, n: nat)
    requires
        p > 0,
    ensures
        dot_prefix(p, a, x, n) < p,
    decreases n,
{
    if n > 0 {
        lemma_dot_reduced(p, a, x, (n - 1) as nat);
    }
}

/// Scaling the first vector scales the inner product.
pub proof fn lemma_dot_scaled(p: nat, a: Seq<nat>, b: Seq<nat>, v: nat, x: Seq<nat>, n: nat)
    requires
        p > 0,
        n <= a.len() && n <= b.len() && n <= x.len(),
        forall|c: int| 0 <= c < n ==> b[c] == fmul(p, a[c], v),
    ensures
        dot_prefix(p, b, x, n) == fmul(p, dot_prefix(p, a, x, n), v),
    decreases n,
{
    if n == 0 {
        assert(0 * v == 0) by (nonlinear_arith);
        vstd::arithmetic::div_mod::lemma_small_mod(0, p);
    } else {
        lemma_dot_scaled(p, a, b, v, x, (n - 1) as nat);
        let d = dot_prefix(p, a, x, (n - 1) as nat);
        let t = fmul(p, a[n - 1], x[n - 1]);
        lemma_fmul_distributes(p, v, d, t);
        lemma_fmul_assoc(p, a[n - 1], x[n - 1], v);
        lemma_fmul_assoc(p, a[n - 1], v, x[n - 1]);
        lemma_fmul_comm(p, x[n - 1], v);
    }
}

/// The inner product is additive and homogeneous in its first vector.
pub proof fn lemma_dot_combined(
    p: nat,
    a: Seq<nat>,
    b: Seq<nat>,
    v: nat,
    r: Seq<nat>,
    x: Seq<nat>,
    n: nat,
)
    requires
        p > 0,
        n <= a.len() && n <= b.len() && n <= r.len() && n <= x.len(),
        forall|c: int| 0 <= c < n ==> r[c] == fadd(p, a[c], fmul(p, v, b[c])),
    ensures
        dot_prefix(p, r, x, n) == fadd(
            p,
            dot_prefix(p, a, x, n),
            fmul(p, v, dot_prefix(p, b, x, n)),
        ),
    decreases n,
{
    if n == 0 {
        assert(v * 0 == 0) by (nonlinear_arith);
        vstd::arithmetic::div_mod::lemma_small_mod(0, p);
    } else {
        lemma_dot_combined(p, a, b, v, r, x, (n - 1) as nat);
        let da = dot_prefix(p, a, x, (n - 1) as nat);
        let db = dot_prefix(p, b, x, (n - 1) as nat);
        let ta = fmul(p, a[n - 1], x[n - 1]);
        let tb = fmul(p, b[n - 1], x[n - 1]);
        lemma_fmul_distributes(p, x[n - 1], a[n - 1], fmul(p, v, b[n - 1]));
        lemma_fmul_assoc(p, v, b[n - 1], x[n - 1]);
        lemma_fmul_distributes(p, v, db, tb);
        lemma_fadd_interchange(p, da, fmul(p, v, db), ta, fmul(p, v, tb));
        assert(dot_prefix(p, r, x, n) == fadd(
            p,
            fadd(p, da, fmul(p, v, db)),
            fadd(p, ta, fmul(p, v, tb)),
        ));
    }
}

/// The inner product of row `r` of an identity matrix with `x` is `x[r]`.
pub proof fn lemma_dot_unit_left(p: nat, a: Seq<nat>, x: Seq<nat>, n: nat, r: int)
    requires
        p > 1,
        n <= a.len() && n <= x.len(),
        forall|c: int| 0 <= c < n ==> a[c] == unit_entry(r, c) && x[c] < p,
    ensures
        dot_prefix(p, a, x, n) == (if 0 <= r < n {
            x[r]
        } else {
            0
        }),
    decreases n,
{
    if n > 0 {
        lemma_dot_unit_left(p, a, x, (n - 1) as nat, r);
        assert(a[n - 1] == unit_entry(r, n - 1) && x[n - 1] < p);
        lemma_neutral(p, x[n - 1]);
        lemma_neutral(p, dot_prefix(p, a, x, (n - 1) as nat));
    }
}

/// The inner product of `a` with column `c` of an identity matrix is `a[c]`.
pub proof fn lemma_dot_unit_right(p: nat, a: Seq<nat>, e: Seq<nat>, n: nat, c: int)
    requires
        p > 1,
        n <= a.len() && n <= e.len(),
        forall|t: int| 0 <= t < n ==> e[t] == unit_entry(t, c) && a[t] < p,
    ensures
        dot_prefix(p, a, e, n) == (if 0 <= c < n {
            a[c]
        } else {
            0
        }),
    decreases n,
{
    if n > 0 {
        lemma_dot_unit_right(p, a, e, (n - 1) as nat, c);
        assert(e[n - 1] == unit_entry(n - 1, c) && a[n - 1] < p);
        lemma_neutral(p, a[n - 1]);
        lemma_neutral(p, dot_prefix(p, a, e, (n - 1) as nat));
    }
}

/// Clearing a column touches each row once: a row that has had its turn is
/// the row it was plus a multiple of the pivot row, and every other row is
/// as it was.
pub proof fn lemma_clear_column_rows(p: nat, m: Rows, i: int, j: nat)
    requires
        0 <= i < m.len(),
        j <= m.len(),
    ensures
        clear_column(p, m, i, j).len() == m.len(),
        forall|t: int|
            0 <= t < m.len() ==> #[trigger] clear_column(p, m, i, j)[t] == (if t < j && t != i {
                combined_row(p, m, i, fneg(p, m[t][i]), t)
            } else {
                m[t]
            }),
    decreases j,
{
    if j > 0 {
        lemma_clear_column_rows(p, m, i, (j - 1) as nat);
        let prev = clear_column(p, m, i, (j - 1) as nat);
        if j - 1 != i {
            assert(combined_row(p, prev, i, fneg(p, prev[j - 1][i]), j - 1) =~= combined_row(
                p,
                m,
                i,
                fneg(p, m[j - 1][i]),
                j - 1,
            ));
        }
    }
}

/// The entries of a matrix after a pivot step: the pivot row is scaled by the
/// inverse of the pivot, and every other row loses its multiple of the scaled
/// pivot row.
pub proof fn lemma_pivot_step_entries(p: nat, m: Rows, i: int, h: nat, w: nat)
    requires
        p > 0,
        is_matrix(m, h, w),
        0 <= i < h,
        i < w,
    ensures
        is_matrix(pivot_step(p, m, i), h, w),
        is_reduced(pivot_step(p, m, i), p),
        forall|t: int, c: int|
            0 <= t < h && 0 <= c < w ==> #[trigger] pivot_step(p, m, i)[t][c] == (if t == i {
                fmul(p, m[i][c], finv(p, m[i][i]))
            } else {
                fadd(
                    p,
                    m[t][c],
                    fmul(p, fneg(p, m[t][i]), fmul(p, m[i][c], finv(p, m[i][i]))),
                )
            }),
{
    let inv = finv(p, m[i][i]);
    let s = scale_row(p, m, i, inv);
    lemma_clear_column_rows(p, s, i, h);
    let n = pivot_step(p, m, i);
    assert forall|t: int| 0 <= t < h implies (#[trigger] n[t]).len() == w by {}
    assert forall|t: int, c: int| 0 <= t < h && 0 <= c < w implies #[trigger] n[t][c] == (if t
        == i {
        fmul(p, m[i][c], inv)
    } else {
        fadd(p, m[t][c], fmul(p, fneg(p, m[t][i]), fmul(p, m[i][c], inv)))
    }) by {}
    assert forall|t: int, c: int| 0 <= t < n.len() && 0 <= c < n[t].len() implies (
    #[trigger] n[t][c]) < p by {}
}

/// A pivot step on an invertible pivot leaves one more unit column on the left.
pub proof fn lemma_unit_columns_step(p: nat, m: Rows, i: int, h: nat, w: nat)
    requires
        p > 1,
        is_matrix(m, h, w),
        is_reduced(m, p),
        0 <= i < h,
        h <= w,
        invertible(p, m[i][i]),
        forall|r: int, c: int| 0 <= r < h && 0 <= c < i ==> (#[trigger] m[r][c]) == unit_entry(r, c),
    ensures
        forall|r: int, c: int|
            0 <= r < h && 0 <= c <= i ==> (#[trigger] pivot_step(p, m, i)[r][c]) == unit_entry(
                r,
                c,
            ),
{
    lemma_pivot_step_entries(p, m, i, h, w);
    let inv = finv(p, m[i][i]);
    let n = pivot_step(p, m, i);
    assert forall|r: int, c: int| 0 <= r < h && 0 <= c <= i implies (#[trigger] n[r][c])
        == unit_entry(r, c) by {
        let neg = fneg(p, m[r][i]);
        lemma_fneg_cancels(p, m[r][i]);
        lemma_neutral(p, inv);
        lemma_neutral(p, neg);
        lemma_neutral(p, m[r][c]);
    }
}

/// The equations `left half of m times x = column d + c of m` hold in the first `d` rows.
pub open spec fn solves(p: nat, m: Rows, d: nat, x: Seq<nat>, c: int) -> bool {
    forall|r: int| 0 <= r < d ==> dot_prefix(p, #[trigger] m[r], x, d) == m[r][d + c]
}

/// Whatever solves the equations after a pivot step on an invertible pivot
/// solved them before it.
pub proof fn lemma_solves_step(p: nat, m: Rows, i: int, d: nat, w: nat, x: Seq<nat>, c: int)
    requires
        p > 1,
        is_matrix(m, d, w),
        is_reduced(m, p),
        0 <= i < d,
        0 <= c,
        d + c < w,
        x.len() == d,
        invertible(p, m[i][i]),
        solves(p, pivot_step(p, m, i), d, x, c),
    ensures
        solves(p, m, d, x, c),
{
    lemma_pivot_step_entries(p, m, i, d, w);
    let inv = finv(p, m[i][i]);
    let n = pivot_step(p, m, i);
    // the pivot row
    assert forall|k: int| 0 <= k < d implies n[i][k] == fmul(p, m[i][k], inv) by {}
    lemma_dot_scaled(p, m[i], n[i], inv, x, d);
    lemma_dot_reduced(p, m[i], x, d);
    lemma_fmul_comm(p, m[i][i], inv);
    lemma_fmul_cancel(p, dot_prefix(p, m[i], x, d), m[i][d + c], inv, m[i][i]);
    // the other rows
    assert forall|r: int| 0 <= r < d implies dot_prefix(p, #[trigger] m[r], x, d) == m[r][d
        + c] by {
        if r != i {
            let v = fneg(p, m[r][i]);
            assert forall|k: int| 0 <= k < d implies n[r][k] == fadd(
                p,
                m[r][k],
                fmul(p, v, n[i][k]),
            ) by {}
            lemma_dot_combined(p, m[r], n[i], v, n[r], x, d);
            lemma_dot_reduced(p, m[r], x, d);
            lemma_fadd_cancel(
                p,
                dot_prefix(p, m[r], x, d),
                m[r][d + c],
                fmul(p, v, n[i][d + c]),
            );
        }
    }
}

/// After `i` steps on invertible pivots the matrix has kept its shape, holds
/// residues, and its first `i` columns are those of the identity.
pub proof fn lemma_reduce_unit_columns(p: nat, m: Rows, i: nat, h: nat, w: nat)
    requires
        p > 1,
        is_matrix(m, h, w),
        is_reduced(m, p),
        i <= h <= w,
        pivots_invertible(p, m, i),
    ensures
        is_matrix(reduce(p, m, i), h, w),
        is_reduced(reduce(p, m, i), p),
        forall|r: int, c: int|
            0 <= r < h && 0 <= c < i ==> (#[trigger] reduce(p, m, i)[r][c]) == unit_entry(r, c),
    decreases i,
{
    if i > 0 {
        let before = reduce(p, m, (i - 1) as nat);
        lemma_reduce_unit_columns(p, m, (i - 1) as nat, h, w);
        lemma_pivot_step_entries(p, before, i - 1, h, w);
        lemma_unit_columns_step(p, before, i - 1, h, w);
    }
}

/// Whatever solves the equations after `i` steps on invertible pivots solved
/// them at the start.
pub proof fn lemma_reduce_solves(p: nat, m: Rows, i: nat, d: nat, w: nat, x: Seq<nat>, c: int)
    requires
        p > 1,
        is_matrix(m, d, w),
        is_reduced(m, p),
        i <= d,
        0 <= c,
        d + c < w,
        x.len() == d,
        pivots_invertible(p, m, i),
        solves(p, reduce(p, m, i), d, x, c),
    ensures
        solves(p, m, d, x, c),
    decreases i,
{
    if i > 0 {
        let before = reduce(p, m, (i - 1) as nat);
        lemma_reduce_unit_columns(p, m, (i - 1) as nat, d, w);
        lemma_solves_step(p, before, i - 1, d, w, x, c);
        lemma_reduce_solves(p, m, (i - 1) as nat, d, w, x, c);
    }
}

/// Gauss-Jordan elimination that meets only invertible pivots yields a right
/// inverse: the matrix times the result is the identity.
pub proof fn lemma_gauss_jordan_right_inverse(p: nat, a: Rows, d: nat)
    requires
        p > 1,
        is_matrix(a, d, d),
        is_reduced(a, p),
        pivots_invertible(p, beside(a, identity(d)), d),
    ensures
        is_matrix(gauss_jordan(p, a), d, d),
        is_reduced(gauss_jordan(p, a), p),
        product(p, a, gauss_jordan(p, a), d) == identity(d),
{
    let start = beside(a, identity(d));
    assert(is_reduced(start, p)) by {
        assert forall|r: int, c: int| 0 <= r < start.len() && 0 <= c < start[r].len() implies (
        #[trigger] start[r][c]) < p by {}
    }
    let end = reduce(p, start, d);
    lemma_reduce_unit_columns(p, start, d, d, d + d);
    let inverse = gauss_jordan(p, a);
    assert(is_reduced(inverse, p)) by {
        assert forall|r: int, c: int|
            0 <= r < inverse.len() && 0 <= c < inverse[r].len() implies (#[trigger] inverse[r][c])
            < p by {}
    }
    let result = product(p, a, inverse, d);
    assert forall|r: int| 0 <= r < d implies #[trigger] result[r] == identity(d)[r] by {
        assert forall|c: int| 0 <= c < d implies #[trigger] result[r][c] == identity(d)[r][c] by {
            let x = column(inverse, c);
            assert forall|t: int| 0 <= t < d implies dot_prefix(p, #[trigger] end[t], x, d)
                == end[t][d + c] by {
                assert forall|k: int| 0 <= k < d implies end[t][k] == unit_entry(t, k) && x[k]
                    < p by {}
                lemma_dot_unit_left(p, end[t], x, d, t);
            }
            lemma_reduce_solves(p, start, d, d, d + d, x, c);
            lemma_dot_agree(p, start[r], a[r], x, x, d);
        }
    }
}

/// Row `r` of the `d` columns of `m` that start at column `d`.
pub open spec fn right_row(m: Rows, r: int, d: nat) -> Seq<nat> {
    Seq::new(d, |t: int| m[r][d + t])
}

/// The left half of `m` is its right half times `a`.
pub open spec fn left_is_right_times(p: nat, m: Rows, a: Rows, d: nat) -> bool {
    forall|r: int, c: int|
        0 <= r < d && 0 <= c < d ==> (#[trigger] m[r][c]) == dot_prefix(
            p,
            right_row(m, r, d),
            column(a, c),
            d,
        )
}

/// A pivot step keeps the left half equal to the right half times `a`.
pub proof fn lemma_left_is_right_times_step(p: nat, m: Rows, a: Rows, i: int, d: nat)
    requires
        p > 0,
        is_matrix(m, d, d + d),
        is_matrix(a, d, d),
        0 <= i < d,
        left_is_right_times(p, m, a, d),
    ensures
        left_is_right_times(p, pivot_step(p, m, i), a, d),
{
    lemma_pivot_step_entries(p, m, i, d, d + d);
    let inv = finv(p, m[i][i]);
    let n = pivot_step(p, m, i);
    assert forall|r: int, c: int| 0 <= r < d && 0 <= c < d implies (#[trigger] n[r][c])
        == dot_prefix(p, right_row(n, r, d), column(a, c), d) by {
        let x = column(a, c);
        assert forall|k: int| 0 <= k < d implies right_row(n, i, d)[k] == fmul(
            p,
            right_row(m, i, d)[k],
            inv,
        ) by {}
        lemma_dot_scaled(p, right_row(m, i, d), right_row(n, i, d), inv, x, d);
        if r != i {
            let v = fneg(p, m[r][i]);
            assert forall|k: int| 0 <= k < d implies right_row(n, r, d)[k] == fadd(
                p,
                right_row(m, r, d)[k],
                fmul(p, v, right_row(n, i, d)[k]),
            ) by {}
            lemma_dot_combined(p, right_row(m, r, d), right_row(n, i, d), v, right_row(n, r, d), x, d);
        }
    }
}

/// Every number of pivot steps keeps the left half equal to the right half times `a`.
pub proof fn lemma_reduce_left_is_right_times(p: nat, m: Rows, a: Rows, i: nat, d: nat)
    requires
        p > 1,
        is_matrix(m, d, d + d),
        is_reduced(m, p),
        is_matrix(a, d, d),
        i <= d,
        pivots_invertible(p, m, i),
        left_is_right_times(p, m, a, d),
    ensures
        left_is_right_times(p, reduce(p, m, i), a, d),
    decreases i,
{
    if i > 0 {
        lemma_reduce_unit_columns(p, m, (i - 1) as nat, d, d + d);
        lemma_reduce_left_is_right_times(p, m, a, (i - 1) as nat, d);
        lemma_left_is_right_times_step(p, reduce(p, m, (i - 1) as nat), a, i - 1, d);
    }
}

/// Gauss-Jordan elimination that meets only invertible pivots yields a left
/// inverse: the result times the matrix is the identity.
pub proof fn lemma_gauss_jordan_left_inverse(p: nat, a: Rows, d: nat)
    requires
        p > 1,
        is_matrix(a, d, d),
        is_reduced(a, p),
        pivots_invertible(p, beside(a, identity(d)), d),
    ensures
        product(p, gauss_jordan(p, a), a, d) == identity(d),
{
    let start = beside(a, identity(d));
    assert(is_reduced(start, p)) by {
        assert forall|r: int, c: int| 0 <= r < start.len() && 0 <= c < start[r].len() implies (
        #[trigger] start[r][c]) < p by {}
    }
    assert(left_is_right_times(p, start, a, d)) by {
        assert forall|r: int, c: int| 0 <= r < d && 0 <= c < d implies (#[trigger] start[r][c])
            == dot_prefix(p, right_row(start, r, d), column(a, c), d) by {
            let x = column(a, c);
            assert forall|k: int| 0 <= k < d implies right_row(start, r, d)[k] == unit_entry(
                r,
                k,
            ) && x[k] < p by {}
            lemma_dot_unit_left(p, right_row(start, r, d), x, d, r);
        }
    }
    let end = reduce(p, start, d);
    lemma_reduce_unit_columns(p, start, d, d, d + d);
    lemma_reduce_left_is_right_times(p, start, a, d, d);
    let inverse = gauss_jordan(p, a);
    let result = product(p, inverse, a, d);
    assert forall|r: int| 0 <= r < d implies #[trigger] result[r] == identity(d)[r] by {
        assert forall|c: int| 0 <= c < d implies #[trigger] result[r][c] == identity(d)[r][c] by {
            assert(end[r][c] == unit_entry(r, c));
        }
    }
}

/// Whether the residues modulo `p` form a field: every residue but zero has a
/// multiplicative inverse.
pub open spec fn is_field(p: nat) -> bool {
    p > 1 && forall|a: nat| 0 < a < p ==> #[trigger] invertible(p, a)
}

/// Over a field, pivots that are not zero are invertible.
pub proof fn lemma_nonzero_pivots_are_invertible(p: nat, m: Rows, i: nat, h: nat, w: nat)
    requires
        is_field(p),
        is_matrix(m, h, w),
        is_reduced(m, p),
        i <= h <= w,
        pivots_nonzero(p, m, i),
    ensures
        pivots_invertible(p, m, i),
    decreases i,
{
    if i > 0 {
        let before = (i - 1) as nat;
        assert(pivots_nonzero(p, m, before));
        lemma_nonzero_pivots_are_invertible(p, m, before, h, w);
        lemma_reduce_unit_columns(p, m, before, h, w);
        let pivot = reduce(p, m, before)[before as int][before as int];
        assert(pivot < p);
        assert(pivot != 0);
        assert(invertible(p, pivot));
    }
}

/// Over a field, Gauss-Jordan elimination that meets no zero pivot yields the
/// inverse: the product of the matrix and the result is the identity, in
/// either order.
pub proof fn lemma_gauss_jordan_inverse(p: nat, a: Rows, d: nat)
    requires
        is_field(p),
        is_matrix(a, d, d),
        is_reduced(a, p),
        pivots_nonzero(p, beside(a, identity(d)), d),
    ensures
        product(p, a, gauss_jordan(p, a), d) == identity(d),
        product(p, gauss_jordan(p, a), a, d) == identity(d),
{
    let start = beside(a, identity(d));
    assert(is_reduced(start, p)) by {
        assert forall|r: int, c: int| 0 <= r < start.len() && 0 <= c < start[r].len() implies (
        #[trigger] start[r][c]) < p by {
            if c < d {
                assert(start[r][c] == a[r][c]);
            } else {
                assert(start[r][c] == identity(d)[r][c - d]);
            }
        }
    }
    lemma_nonzero_pivots_are_invertible(p, start, d, d, d + d);
    lemma_gauss_jordan_right_inverse(p, a, d);
    lemma_gauss_jordan_left_inverse(p, a, d);
}

} // verus!
