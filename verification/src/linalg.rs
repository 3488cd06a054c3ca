//! Matrices over `Z/pZ` as mathematical objects: sequences of rows of
//! residues, with the row operations and the pivot-by-pivot reduction that
//! matrix inversion is specified by.

use vstd::prelude::*;
use crate::field::{fadd, fmul, fneg, finv, invertible};

verus! {

/// A matrix is a sequence of rows.
pub type Rows = Seq<Seq<nat>>;

/// `m` has `h` rows of `w` entries each.
pub open spec fn is_matrix(m: Rows, h: nat, w: nat) -> bool {
    m.len() == h && forall|r: int| 0 <= r < h ==> (#[trigger] m[r]).len() == w
}

/// Every entry of `m` is a residue modulo `p`.
pub open spec fn is_reduced(m: Rows, p: nat) -> bool {
    forall|r: int, c: int| 0 <= r < m.len() && 0 <= c < m[r].len() ==> (#[trigger] m[r][c]) < p
}

/// `m` with the entry at (`r`, `c`) replaced by `v`.
pub open spec fn with_entry(m: Rows, r: int, c: int, v: nat) -> Rows {
    m.update(r, m[r].update(c, v))
}

/// The `h` by `h` matrix with `on` on the diagonal and `off` elsewhere.
pub open spec fn diagonal(h: nat, off: nat, on: nat) -> Rows {
    Seq::new(h, |r: int| Seq::new(h, |c: int| if r == c { on } else { off }))
}

/// The `d` by `d` identity matrix.
pub open spec fn identity(d: nat) -> Rows {
    diagonal(d, 0, 1)
}

/// `a` and `b` side by side.
pub open spec fn beside(a: Rows, b: Rows) -> Rows {
    Seq::new(a.len(), |r: int| a[r] + b[r])
}

/// The columns of `m` named by `idxs`, in that order.
pub open spec fn columns(m: Rows, idxs: Seq<usize>) -> Rows {
    Seq::new(m.len(), |r: int| Seq::new(idxs.len(), |c: int| m[r][idxs[c] as int]))
}

/// The indexes `from, from + 1, ..., from + count - 1`.
pub open spec fn index_range(from: nat, count: nat) -> Seq<usize> {
    Seq::new(count, |i: int| (from + i) as usize)
}

/// The first `n` entries taken from `new`, the others from `old`.
pub open spec fn spliced(old: Seq<nat>, new: Seq<nat>, n: int) -> Seq<nat> {
    Seq::new(old.len(), |c: int| if c < n { new[c] } else { old[c] })
}

/// Row `r` of `m` scaled by `v`.
pub open spec fn scaled_row(p: nat, m: Rows, r: int, v: nat) -> Seq<nat> {
    Seq::new(m[r].len(), |c: int| fmul(p, m[r][c], v))
}

/// Row `dst` of `m` plus `v` times row `src`.
pub open spec fn combined_row(p: nat, m: Rows, src: int, v: nat, dst: int) -> Seq<nat> {
    Seq::new(m[dst].len(), |c: int| fadd(p, m[dst][c], fmul(p, v, m[src][c])))
}

/// `m` with every entry of row `r` multiplied by `v`.
pub open spec fn scale_row(p: nat, m: Rows, r: int, v: nat) -> Rows {
    m.update(r, scaled_row(p, m, r, v))
}

/// `m` with `v` times row `src` added to row `dst`.
pub open spec fn add_scaled_row(p: nat, m: Rows, src: int, v: nat, dst: int) -> Rows {
    m.update(dst, combined_row(p, m, src, v, dst))
}

/// `m` after column `i` has been cleared in each of the first `j` rows but row `i`,
/// by subtracting the fitting multiple of row `i`.
pub open spec fn clear_column(p: nat, m: Rows, i: int, j: nat) -> Rows
    decreases j,
{
    if j == 0 {
        m
    } else {
        let prev = clear_column(p, m, i, (j - 1) as nat);
        if j - 1 == i {
            prev
        } else {
            add_scaled_row(p, prev, i, fneg(p, prev[j - 1][i]), j - 1)
        }
    }
}

/// One step of the reduction: row `i` is rescaled so that its diagonal entry
/// is one, then column `i` is cleared in every other row.
pub open spec fn pivot_step(p: nat, m: Rows, i: int) -> Rows {
    clear_column(p, scale_row(p, m, i, finv(p, m[i][i])), i, m.len())
}

/// `m` after the first `i` pivot steps.
pub open spec fn reduce(p: nat, m: Rows, i: nat) -> Rows
    decreases i,
{
    if i == 0 {
        m
    } else {
        pivot_step(p, reduce(p, m, (i - 1) as nat), i - 1)
    }
}

/// No pivot among the first `d` is zero when its step is reached.
pub open spec fn pivots_nonzero(p: nat, m: Rows, d: nat) -> bool {
    forall|i: nat| i < d ==> (#[trigger] reduce(p, m, i))[i as int][i as int] != 0
}

/// Every pivot among the first `d` has a multiplicative inverse when its step
/// is reached. Modulo a prime this says as much as `pivots_nonzero`.
pub open spec fn pivots_invertible(p: nat, m: Rows, d: nat) -> bool {
    forall|i: nat| i < d ==> invertible(p, (#[trigger] reduce(p, m, i))[i as int][i as int])
}

/// The `d` columns of `m` that start at column `d`.
pub open spec fn right_half(m: Rows, d: nat) -> Rows {
    Seq::new(m.len(), |r: int| Seq::new(d, |c: int| m[r][d + c]))
}

/// What Gauss-Jordan elimination without pivoting leaves in the right half of
/// `[a | I]`.
pub open spec fn gauss_jordan(p: nat, a: Rows) -> Rows {
    right_half(reduce(p, beside(a, identity(a.len())), a.len()), a.len())
}

/// The sum of the products of the first `n` entries of `a` and `b`.
pub open spec fn dot_prefix(p: nat, a: Seq<nat>, b: Seq<nat>, n: nat) -> nat
    decreases n,
{
    if n == 0 {
        0
    } else {
        fadd(p, dot_prefix(p, a, b, (n - 1) as nat), fmul(p, a[n - 1], b[n - 1]))
    }
}

/// The inner product of `a` and `b`.
pub open spec fn dot(p: nat, a: Seq<nat>, b: Seq<nat>) -> nat {
    dot_prefix(p, a, b, a.len())
}

/// Column `c` of `m`.
pub open spec fn column(m: Rows, c: int) -> Seq<nat> {
    Seq::new(m.len(), |r: int| m[r][c])
}

/// The product of `a` (`h` by `n`) and `b` (`n` by `w`).
pub open spec fn product(p: nat, a: Rows, b: Rows, w: nat) -> Rows {
    Seq::new(a.len(), |r: int| Seq::new(w, |c: int| dot(p, a[r], column(b, c))))
}

} // verus!
