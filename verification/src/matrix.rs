//! Dense matrices over a scalar field, stored row-major, with Gauss-Jordan
//! inversion.

use vstd::prelude::*;
use crate::curve::{Curve, scalar_modulus};
use crate::field::{Fr, fr_add, fr_mul, fr_neg, fr_inverse, all_elements, finv, invertible};
use crate::inversion::{lemma_gauss_jordan_right_inverse, lemma_gauss_jordan_left_inverse};
use crate::linalg::{
    Rows, is_matrix, is_reduced, with_entry, diagonal, identity, beside, columns, index_range,
    scale_row, add_scaled_row, clear_column, reduce, pivots_nonzero,
    gauss_jordan, spliced, scaled_row, combined_row, right_half, product, pivots_invertible,
};

verus! {

/// A dense matrix of scalars of one curve.
#[derive(Debug)]
pub struct Matrix {
    curve: Curve,
    entries: Vec<Fr>,
    myheight: usize,
    mywidth: usize,
}

/// Why a matrix could not be inverted.
#[derive(Clone, Copy, Debug, PartialEq, Eq, Structural)]
pub enum InvertError {
    /// Height and width differ.
    NotSquare,
    /// The augmented workspace has more entries than can be addressed.
    TooLarge,
    /// A diagonal entry was zero when its elimination step was reached.
    ZeroPivot,
}

/// A row-major index stays within the entries.
proof fn lemma_flat_index(r: int, c: int, h: int, w: int)
    requires
        0 <= r < h,
        0 <= c < w,
    ensures
        0 <= r * w + c < h * w,
        0 <= r * w,
{
    assert(r * w + w <= h * w) by (nonlinear_arith)
        requires
            0 <= r < h,
            0 < w,
    ;
    assert(0 <= r * w) by (nonlinear_arith)
        requires
            0 <= r,
            0 < w,
    ;
}

/// Different places have different row-major indexes.
proof fn lemma_flat_index_injective(r1: int, c1: int, r2: int, c2: int, w: int)
    requires
        0 <= r1,
        0 <= r2,
        0 <= c1 < w,
        0 <= c2 < w,
        r1 * w + c1 == r2 * w + c2,
    ensures
        r1 == r2,
        c1 == c2,
{
    if r1 < r2 {
        assert(r1 * w + w <= r2 * w) by (nonlinear_arith)
            requires
                r1 < r2,
                0 < w,
        ;
    } else if r2 < r1 {
        assert(r2 * w + w <= r1 * w) by (nonlinear_arith)
            requires
                r2 < r1,
                0 < w,
        ;
    }
}

impl Clone for Matrix {
    fn clone(&self) -> (r: Matrix)
        ensures
            r@ == self@,
            r.spec_height() == self.spec_height(),
            r.spec_width() == self.spec_width(),
            r.spec_curve() == self.spec_curve(),
            self.wf() ==> r.wf(),
    {
        let mut entries: Vec<Fr> = Vec::new();
        let mut i: usize = 0;
        while i < self.entries.len()
            invariant
                i <= self.entries@.len(),
                entries@ == self.entries@.subrange(0, i as int),
            decreases self.entries@.len() - i,
        {
            entries.push(self.entries[i]);
            i += 1;
        }
        proof {
            assert(entries@ =~= self.entries@);
        }
        Matrix { curve: self.curve, entries, myheight: self.myheight, mywidth: self.mywidth }
    }
}

impl View for Matrix {
    type V = Rows;

    /// The rows of the matrix, each a sequence of residues.
    closed spec fn view(&self) -> Rows {
        Seq::new(
            self.myheight as nat,
            |r: int|
                Seq::new(self.mywidth as nat, |c: int| self.entries@[r * (self.mywidth as int) + c]@),
        )
    }
}

impl Matrix {
    /// The representation invariant: the entries fill the declared shape and
    /// are scalars of the matrix's curve.
    pub closed spec fn wf(&self) -> bool {
        &&& self.entries.len() == self.myheight * self.mywidth
        &&& all_elements(self.entries@, self.curve)
    }

    /// The number of rows.
    pub closed spec fn spec_height(&self) -> nat {
        self.myheight as nat
    }

    /// The number of columns.
    pub closed spec fn spec_width(&self) -> nat {
        self.mywidth as nat
    }

    /// The curve whose scalars the entries are.
    pub closed spec fn spec_curve(&self) -> Curve {
        self.curve
    }

    /// The modulus of the field the entries live in.
    pub open spec fn modulus(&self) -> nat {
        scalar_modulus(self.spec_curve())
    }

    /// A well-formed matrix views as reduced rows of its declared shape.
    pub proof fn lemma_view_shape(&self)
        requires
            self.wf(),
        ensures
            is_matrix(self@, self.spec_height(), self.spec_width()),
            is_reduced(self@, self.modulus()),
    {
        assert forall|r: int, c: int| 0 <= r < self@.len() && 0 <= c < self@[r].len() implies (
        #[trigger] self@[r][c]) < self.modulus() by {
            lemma_flat_index(r, c, self.myheight as int, self.mywidth as int);
        }
    }

    /// The number of rows.
    pub fn height(&self) -> (r: usize)
        ensures
            r == self.spec_height(),
    {
        self.myheight
    }

    /// The number of columns.
    pub fn width(&self) -> (r: usize)
        ensures
            r == self.spec_width(),
    {
        self.mywidth
    }

    /// The curve whose scalars the entries are.
    pub fn curve(&self) -> (r: Curve)
        ensures
            r == self.spec_curve(),
    {
        self.curve
    }

    /// The entry at (`row`, `col`).
    pub fn get(&self, row: usize, col: usize) -> (r: Fr)
        requires
            self.wf(),
            row < self.spec_height(),
            col < self.spec_width(),
        ensures
            r@ == self@[row as int][col as int],
            r.is_element(self.spec_curve()),
    {
        let width = self.width();
        proof {
            lemma_flat_index(row as int, col as int, self.myheight as int, self.mywidth as int);
        }
        self.entries[row * width + col]
    }

    /// Replaces the entry at (`row`, `col`) by `val`.
    pub fn set(&mut self, row: usize, col: usize, val: Fr)
        requires
            old(self).wf(),
            row < old(self).spec_height(),
            col < old(self).spec_width(),
            val.is_element(old(self).spec_curve()),
        ensures
            final(self).wf(),
            final(self).spec_height() == old(self).spec_height(),
            final(self).spec_width() == old(self).spec_width(),
            final(self).spec_curve() == old(self).spec_curve(),
            final(self)@ == with_entry(old(self)@, row as int, col as int, val@),
    {
        proof {
            lemma_flat_index(row as int, col as int, self.myheight as int, self.mywidth as int);
        }
        let width = self.width();
        self.entries.set(row * width + col, val);
        proof {
            let w = self.mywidth as int;
            let expected = with_entry(old(self)@, row as int, col as int, val@);
            assert forall|r: int| 0 <= r < self@.len() implies #[trigger] self@[r] == expected[r] by {
                assert forall|c: int| 0 <= c < self@[r].len() implies #[trigger] self@[r][c]
                    == expected[r][c] by {
                    lemma_flat_index(r, c, self.myheight as int, w);
                    if r * w + c == row * w + col {
                        lemma_flat_index_injective(r, c, row as int, col as int, w);
                    }
                }
            }
        }
    }

    /// The `height` by `width` matrix with `val` everywhere.
    pub fn filled(curve: Curve, height: usize, width: usize, val: Fr) -> (m: Matrix)
        requires
            height * width <= usize::MAX,
            val.is_element(curve),
        ensures
            m.wf(),
            m.spec_height() == height,
            m.spec_width() == width,
            m.spec_curve() == curve,
            m@ == Seq::new(height as nat, |r: int| Seq::new(width as nat, |c: int| val@)),
    {
        let total = height * width;
        let mut entries: Vec<Fr> = Vec::new();
        let mut i: usize = 0;
        while i < total
            invariant
                i <= total,
                entries.len() == i,
                forall|t: int| 0 <= t < i ==> entries@[t] == val,
            decreases total - i,
        {
            entries.push(val);
            i += 1;
        }
        let m = Matrix { curve, entries, myheight: height, mywidth: width };
        proof {
            let expected = Seq::new(height as nat, |r: int| Seq::new(width as nat, |c: int| val@));
            assert forall|r: int| 0 <= r < m@.len() implies #[trigger] m@[r] == expected[r] by {
                assert forall|c: int| 0 <= c < m@[r].len() implies #[trigger] m@[r][c]
                    == expected[r][c] by {
                    lemma_flat_index(r, c, height as int, width as int);
                }
            }
        }
        m
    }

    /// Builds a matrix from its rows. There is a matrix exactly when `vec` has
    /// `height` rows of `width` entries each and that many entries can be addressed.
    pub fn from_nested_vec(
        curve: Curve,
        height: usize,
        width: usize,
        vec: Vec<Vec<Fr>>,
    ) -> (r: Option<Matrix>)
        requires
            forall|i: int| 0 <= i < vec@.len() ==> all_elements(#[trigger] vec@[i]@, curve),
        ensures
            r.is_some() <==> {
                &&& vec@.len() == height
                &&& forall|i: int| 0 <= i < vec@.len() ==> (#[trigger] vec@[i]).len() == width
                &&& height * width <= usize::MAX
            },
            r.is_some() ==> {
                let m = r.unwrap();
                &&& m.wf()
                &&& m.spec_height() == height
                &&& m.spec_width() == width
                &&& m.spec_curve() == curve
                &&& m@ == Seq::new(
                    height as nat,
                    |i: int| Seq::new(width as nat, |j: int| vec@[i]@[j]@),
                )
            },
    {
        if vec.len() != height {
            return None;
        }
        let total = match height.checked_mul(width) {
            Some(t) => t,
            None => {
                // every row is still inspected, so that a shape mismatch is told apart
                let mut row: usize = 0;
                while row < height
                    invariant
                        row <= height,
                        vec@.len() == height,
                        forall|i: int| 0 <= i < row ==> (#[trigger] vec@[i]).len() == width,
                    decreases height - row,
                {
                    if vec[row].len() != width {
                        return None;
                    }
                    row += 1;
                }
                return None;
            },
        };
        let mut matrix = Matrix::filled(curve, height, width, Fr::zero());
        let mut row: usize = 0;
        while row < height
            invariant
                row <= height,
                vec@.len() == height,
                height * width <= usize::MAX,
                matrix.wf(),
                matrix.spec_height() == height,
                matrix.spec_width() == width,
                matrix.spec_curve() == curve,
                matrix@.len() == height,
                forall|i: int| 0 <= i < height ==> (#[trigger] matrix@[i]).len() == width,
                forall|i: int| 0 <= i < vec@.len() ==> all_elements(#[trigger] vec@[i]@, curve),
                forall|i: int| 0 <= i < row ==> (#[trigger] vec@[i]).len() == width,
                forall|i: int, j: int|
                    0 <= i < row && 0 <= j < width ==> (#[trigger] matrix@[i][j]) == vec@[i]@[j]@,
            decreases height - row,
        {
            if vec[row].len() != width {
                return None;
            }
            let mut col: usize = 0;
            while col < width
                invariant
                    row < height,
                    col <= width,
                    vec@.len() == height,
                    vec@[row as int].len() == width,
                    matrix.wf(),
                    matrix.spec_height() == height,
                    matrix.spec_width() == width,
                    matrix.spec_curve() == curve,
                    matrix@.len() == height,
                    forall|i: int| 0 <= i < height ==> (#[trigger] matrix@[i]).len() == width,
                    forall|i: int| 0 <= i < vec@.len() ==> all_elements(#[trigger] vec@[i]@, curve),
                    forall|i: int, j: int|
                        0 <= i < row && 0 <= j < width ==> (#[trigger] matrix@[i][j])
                            == vec@[i]@[j]@,
                    forall|j: int|
                        0 <= j < col ==> (#[trigger] matrix@[row as int][j]) == vec@[row as int]@[j]@,
                decreases width - col,
            {
                let val = vec[row][col];
                matrix.set(row, col, val);
                col += 1;
            }
            row += 1;
        }
        proof {
            let expected = Seq::new(
                height as nat,
                |i: int| Seq::new(width as nat, |j: int| vec@[i]@[j]@),
            );
            assert forall|i: int| 0 <= i < height implies #[trigger] matrix@[i] == expected[i] by {}
        }
        Some(matrix)
    }

    /// The square matrix of the given height with `on_diag_elem` on the
    /// diagonal and `off_diag_elem` elsewhere.
    pub fn from_diagonal_element(
        curve: Curve,
        height: usize,
        off_diag_elem: Fr,
        on_diag_elem: Fr,
    ) -> (m: Matrix)
        requires
            height * height <= usize::MAX,
            off_diag_elem.is_element(curve),
            on_diag_elem.is_element(curve),
        ensures
            m.wf(),
            m.spec_height() == height,
            m.spec_width() == height,
            m.spec_curve() == curve,
            m@ == diagonal(height as nat, off_diag_elem@, on_diag_elem@),
    {
        let mut matrix = Matrix::filled(curve, height, height, off_diag_elem);
        let mut row: usize = 0;
        while row < height
            invariant
                row <= height,
                matrix.wf(),
                matrix.spec_height() == height,
                matrix.spec_width() == height,
                matrix.spec_curve() == curve,
                on_diag_elem.is_element(curve),
                matrix@.len() == height,
                forall|i: int| 0 <= i < height ==> (#[trigger] matrix@[i]).len() == height,
                forall|i: int, j: int|
                    0 <= i < height && 0 <= j < height ==> (#[trigger] matrix@[i][j]) == (if i == j
                        && i < row {
                        on_diag_elem@
                    } else {
                        off_diag_elem@
                    }),
            decreases height - row,
        {
            matrix.set(row, row, on_diag_elem);
            row += 1;
        }
        proof {
            let expected = diagonal(height as nat, off_diag_elem@, on_diag_elem@);
            assert forall|i: int| 0 <= i < height implies #[trigger] matrix@[i] == expected[i] by {}
        }
        matrix
    }

    /// `self` and `other` side by side.
    pub fn hcat(&self, other: &Matrix) -> (m: Matrix)
        requires
            self.wf(),
            other.wf(),
            self.spec_curve() == other.spec_curve(),
            self.spec_height() == other.spec_height(),
            self.spec_height() * (self.spec_width() + other.spec_width()) <= usize::MAX,
            self.spec_width() + other.spec_width() <= usize::MAX,
        ensures
            m.wf(),
            m.spec_height() == self.spec_height(),
            m.spec_width() == self.spec_width() + other.spec_width(),
            m.spec_curve() == self.spec_curve(),
            m@ == beside(self@, other@),
    {
        let height = self.height();
        let left = self.width();
        let right = other.width();
        let width = left + right;
        let curve = self.curve;
        proof {
            self.lemma_view_shape();
            other.lemma_view_shape();
        }
        let mut matrix = Matrix::filled(curve, height, width, Fr::zero());
        let mut row: usize = 0;
        while row < height
            invariant
                row <= height,
                width == left + right,
                self.wf(),
                other.wf(),
                self.spec_curve() == curve,
                other.spec_curve() == curve,
                self.spec_height() == height,
                other.spec_height() == height,
                self.spec_width() == left,
                other.spec_width() == right,
                is_matrix(self@, height as nat, left as nat),
                is_matrix(other@, height as nat, right as nat),
                matrix.wf(),
                matrix.spec_height() == height,
                matrix.spec_width() == width,
                matrix.spec_curve() == curve,
                is_matrix(matrix@, height as nat, width as nat),
                forall|i: int, j: int|
                    0 <= i < row && 0 <= j < width ==> (#[trigger] matrix@[i][j]) == (self@[i]
                        + other@[i])[j],
            decreases height - row,
        {
            let mut col: usize = 0;
            while col < left
                invariant
                    row < height,
                    col <= left,
                    width == left + right,
                    self.wf(),
                    self.spec_curve() == curve,
                    self.spec_height() == height,
                    self.spec_width() == left,
                    is_matrix(self@, height as nat, left as nat),
                    is_matrix(other@, height as nat, right as nat),
                    matrix.wf(),
                    matrix.spec_height() == height,
                    matrix.spec_width() == width,
                    matrix.spec_curve() == curve,
                    is_matrix(matrix@, height as nat, width as nat),
                    forall|i: int, j: int|
                        0 <= i < row && 0 <= j < width ==> (#[trigger] matrix@[i][j]) == (self@[i]
                            + other@[i])[j],
                    forall|j: int|
                        0 <= j < col ==> (#[trigger] matrix@[row as int][j]) == (self@[row as int]
                            + other@[row as int])[j],
                decreases left - col,
            {
                let val = self.get(row, col);
                matrix.set(row, col, val);
                col += 1;
            }
            let mut col: usize = 0;
            while col < right
                invariant
                    row < height,
                    col <= right,
                    width == left + right,
                    other.wf(),
                    other.spec_curve() == curve,
                    other.spec_height() == height,
                    other.spec_width() == right,
                    is_matrix(self@, height as nat, left as nat),
                    is_matrix(other@, height as nat, right as nat),
                    matrix.wf(),
                    matrix.spec_height() == height,
                    matrix.spec_width() == width,
                    matrix.spec_curve() == curve,
                    is_matrix(matrix@, height as nat, width as nat),
                    forall|i: int, j: int|
                        0 <= i < row && 0 <= j < width ==> (#[trigger] matrix@[i][j]) == (self@[i]
                            + other@[i])[j],
                    forall|j: int|
                        0 <= j < left + col ==> (#[trigger] matrix@[row as int][j]) == (
                        self@[row as int] + other@[row as int])[j],
                decreases right - col,
            {
                let val = other.get(row, col);
                matrix.set(row, left + col, val);
                col += 1;
            }
            row += 1;
        }
        proof {
            let expected = beside(self@, other@);
            assert forall|i: int| 0 <= i < height implies #[trigger] matrix@[i] == expected[i] by {}
        }
        matrix
    }

    /// The columns named by `idxs`, in that order.
    pub fn hpick(&self, idxs: &Vec<usize>) -> (m: Matrix)
        requires
            self.wf(),
            forall|i: int| 0 <= i < idxs@.len() ==> (#[trigger] idxs@[i]) < self.spec_width(),
            self.spec_height() * idxs@.len() <= usize::MAX,
        ensures
            m.wf(),
            m.spec_height() == self.spec_height(),
            m.spec_width() == idxs@.len(),
            m.spec_curve() == self.spec_curve(),
            m@ == columns(self@, idxs@),
    {
        let height = self.height();
        let width = idxs.len();
        let curve = self.curve;
        proof {
            self.lemma_view_shape();
        }
        let mut matrix = Matrix::filled(curve, height, width, Fr::zero());
        let mut row: usize = 0;
        while row < height
            invariant
                row <= height,
                width == idxs@.len(),
                self.wf(),
                self.spec_curve() == curve,
                self.spec_height() == height,
                forall|i: int| 0 <= i < idxs@.len() ==> (#[trigger] idxs@[i]) < self.spec_width(),
                matrix.wf(),
                matrix.spec_height() == height,
                matrix.spec_width() == width,
                matrix.spec_curve() == curve,
                is_matrix(matrix@, height as nat, width as nat),
                forall|i: int, j: int|
                    0 <= i < row && 0 <= j < width ==> (#[trigger] matrix@[i][j])
                        == self@[i][idxs@[j] as int],
            decreases height - row,
        {
            let mut col: usize = 0;
            while col < width
                invariant
                    row < height,
                    col <= width,
                    width == idxs@.len(),
                    self.wf(),
                    self.spec_curve() == curve,
                    self.spec_height() == height,
                    forall|i: int|
                        0 <= i < idxs@.len() ==> (#[trigger] idxs@[i]) < self.spec_width(),
                    matrix.wf(),
                    matrix.spec_height() == height,
                    matrix.spec_width() == width,
                    matrix.spec_curve() == curve,
                    is_matrix(matrix@, height as nat, width as nat),
                    forall|i: int, j: int|
                        0 <= i < row && 0 <= j < width ==> (#[trigger] matrix@[i][j])
                            == self@[i][idxs@[j] as int],
                    forall|j: int|
                        0 <= j < col ==> (#[trigger] matrix@[row as int][j])
                            == self@[row as int][idxs@[j] as int],
                decreases width - col,
            {
                let val = self.get(row, idxs[col]);
                matrix.set(row, col, val);
                col += 1;
            }
            row += 1;
        }
        proof {
            let expected = columns(self@, idxs@);
            assert forall|i: int| 0 <= i < height implies #[trigger] matrix@[i] == expected[i] by {}
        }
        matrix
    }

    /// Multiplies every entry of `row` by the inverse of `val`.
    pub fn divide_row(&mut self, row: usize, val: Fr)
        requires
            old(self).wf(),
            row < old(self).spec_height(),
            val.is_element(old(self).spec_curve()),
            val@ != 0,
        ensures
            final(self).wf(),
            final(self).spec_height() == old(self).spec_height(),
            final(self).spec_width() == old(self).spec_width(),
            final(self).spec_curve() == old(self).spec_curve(),
            invertible(old(self).modulus(), val@),
            final(self)@ == scale_row(
                old(self).modulus(),
                old(self)@,
                row as int,
                finv(old(self).modulus(), val@),
            ),
    {
        let curve = self.curve;
        let width = self.width();
        let inverse = fr_inverse(curve, val);
        let ghost before = self@;
        let ghost p = scalar_modulus(curve);
        let ghost target = scaled_row(p, before, row as int, inverse@);
        proof {
            self.lemma_view_shape();
            assert(spliced(before[row as int], target, 0) =~= before[row as int]);
        }
        let mut col: usize = 0;
        while col < width
            invariant
                col <= width,
                row < self.spec_height(),
                self.wf(),
                self.spec_height() == old(self).spec_height(),
                self.spec_width() == width,
                self.spec_curve() == curve,
                inverse.is_element(curve),
                p == scalar_modulus(curve),
                is_matrix(before, self.spec_height(), width as nat),
                target == scaled_row(p, before, row as int, inverse@),
                self@ == before.update(row as int, spliced(before[row as int], target, col as int)),
            decreases width - col,
        {
            let val = fr_mul(curve, self.get(row, col), inverse);
            self.set(row, col, val);
            proof {
                assert(self@ =~= before.update(
                    row as int,
                    spliced(before[row as int], target, col + 1),
                )) by {
                    assert(self@[row as int] =~= spliced(before[row as int], target, col + 1));
                }
            }
            col += 1;
        }
        proof {
            assert(spliced(before[row as int], target, width as int) =~= target);
        }
    }

    /// Adds `val` times row `row_src` to row `row_dst`.
    pub fn multiply_row_and_add_to_row(&mut self, row_src: usize, val: Fr, row_dst: usize)
        requires
            old(self).wf(),
            row_src < old(self).spec_height(),
            row_dst < old(self).spec_height(),
            val.is_element(old(self).spec_curve()),
        ensures
            final(self).wf(),
            final(self).spec_height() == old(self).spec_height(),
            final(self).spec_width() == old(self).spec_width(),
            final(self).spec_curve() == old(self).spec_curve(),
            final(self)@ == add_scaled_row(
                old(self).modulus(),
                old(self)@,
                row_src as int,
                val@,
                row_dst as int,
            ),
    {
        let curve = self.curve;
        let width = self.width();
        let ghost before = self@;
        let ghost p = scalar_modulus(curve);
        let ghost target = combined_row(p, before, row_src as int, val@, row_dst as int);
        proof {
            self.lemma_view_shape();
            assert(spliced(before[row_dst as int], target, 0) =~= before[row_dst as int]);
            assert(self@ =~= before.update(
                row_dst as int,
                spliced(before[row_dst as int], target, 0),
            ));
        }
        let mut col: usize = 0;
        while col < width
            invariant
                col <= width,
                row_src < self.spec_height(),
                row_dst < self.spec_height(),
                self.wf(),
                self.spec_height() == old(self).spec_height(),
                self.spec_width() == width,
                self.spec_curve() == curve,
                val.is_element(curve),
                p == scalar_modulus(curve),
                is_matrix(before, self.spec_height(), width as nat),
                target == combined_row(p, before, row_src as int, val@, row_dst as int),
                self@ == before.update(
                    row_dst as int,
                    spliced(before[row_dst as int], target, col as int),
                ),
            decreases width - col,
        {
            let sum = fr_add(
                curve,
                self.get(row_dst, col),
                fr_mul(curve, val, self.get(row_src, col)),
            );
            self.set(row_dst, col, sum);
            proof {
                assert(self@ =~= before.update(
                    row_dst as int,
                    spliced(before[row_dst as int], target, col + 1),
                )) by {
                    assert(self@[row_dst as int] =~= spliced(
                        before[row_dst as int],
                        target,
                        col + 1,
                    ));
                }
            }
            col += 1;
        }
        proof {
            assert(spliced(before[row_dst as int], target, width as int) =~= target);
        }
    }

    /// Whether `invert` has room for its workspace, `[self | I]`.
    pub open spec fn fits_workspace(&self) -> bool {
        2 * self.spec_height() * self.spec_height() <= usize::MAX
    }

    /// The inverse by Gauss-Jordan elimination without pivoting on `[self | I]`.
    ///
    /// There is a result exactly when the matrix is square, the workspace can
    /// be addressed and no diagonal entry is zero when its step is reached.
    pub fn invert(&self) -> (r: Result<Matrix, InvertError>)
        requires
            self.wf(),
        ensures
            match r {
                Ok(m) => {
                    &&& self.spec_height() == self.spec_width()
                    &&& self.fits_workspace()
                    &&& pivots_nonzero(
                        self.modulus(),
                        beside(self@, identity(self.spec_height())),
                        self.spec_height(),
                    )
                    &&& pivots_invertible(
                        self.modulus(),
                        beside(self@, identity(self.spec_height())),
                        self.spec_height(),
                    )
                    &&& m.wf()
                    &&& m.spec_height() == self.spec_height()
                    &&& m.spec_width() == self.spec_height()
                    &&& m.spec_curve() == self.spec_curve()
                    &&& m@ == gauss_jordan(self.modulus(), self@)
                    &&& product(self.modulus(), self@, m@, self.spec_height()) == identity(
                        self.spec_height(),
                    )
                    &&& product(self.modulus(), m@, self@, self.spec_height()) == identity(
                        self.spec_height(),
                    )
                },
                Err(InvertError::NotSquare) => self.spec_height() != self.spec_width(),
                Err(InvertError::TooLarge) => {
                    &&& self.spec_height() == self.spec_width()
                    &&& !self.fits_workspace()
                },
                Err(InvertError::ZeroPivot) => {
                    &&& self.spec_height() == self.spec_width()
                    &&& self.fits_workspace()
                    &&& !pivots_nonzero(
                        self.modulus(),
                        beside(self@, identity(self.spec_height())),
                        self.spec_height(),
                    )
                },
            },
    {
        if self.height() != self.width() {
            return Err(InvertError::NotSquare);
        }
        let d = self.height();
        let curve = self.curve;
        let square = match d.checked_mul(d) {
            Some(s) => s,
            None => {
                assert(2 * d * d > usize::MAX) by (nonlinear_arith)
                    requires
                        d * d > usize::MAX,
                ;
                return Err(InvertError::TooLarge);
            },
        };
        if square.checked_mul(2).is_none() {
            assert(2 * d * d == (d * d) * 2) by (nonlinear_arith);
            return Err(InvertError::TooLarge);
        }
        proof {
            assert(2 * d * d == (d * d) * 2) by (nonlinear_arith);
            assert(d * (d + d) == (d * d) * 2) by (nonlinear_arith);
            assert(d + d <= (d * d) * 2) by (nonlinear_arith)
                requires
                    d >= 0,
            ;
            self.lemma_view_shape();
        }
        let unit = Matrix::from_diagonal_element(curve, d, Fr::zero(), Fr::one());
        let mut matrix = self.hcat(&unit);
        let ghost p = scalar_modulus(curve);
        let ghost start = matrix@;
        proof {
            matrix.lemma_view_shape();
        }
        let mut i: usize = 0;
        while i < d
            invariant
                i <= d,
                d * d <= usize::MAX,
                d + d <= usize::MAX,
                p == scalar_modulus(curve),
                matrix.wf(),
                matrix.spec_height() == d,
                matrix.spec_width() == d + d,
                matrix.spec_curve() == curve,
                matrix@ == reduce(p, start, i as nat),
                start == beside(self@, identity(d as nat)),
                self.spec_height() == d,
                self.spec_width() == d,
                self.spec_curve() == curve,
                self.fits_workspace(),
                forall|t: nat| t < i ==> (#[trigger] reduce(p, start, t))[t as int][t as int] != 0,
                forall|t: nat|
                    t < i ==> invertible(p, (#[trigger] reduce(p, start, t))[t as int][t as int]),
            decreases d - i,
        {
            let pivot = matrix.get(i, i);
            if pivot.is_zero() {
                return Err(InvertError::ZeroPivot);
            }
            proof {
                matrix.lemma_view_shape();
            }
            matrix.divide_row(i, pivot);
            let ghost scaled = matrix@;
            let mut j: usize = 0;
            while j < d
                invariant
                    i < d,
                    j <= d,
                    p == scalar_modulus(curve),
                    matrix.wf(),
                    matrix.spec_height() == d,
                    matrix.spec_width() == d + d,
                    matrix.spec_curve() == curve,
                    matrix@ == clear_column(p, scaled, i as int, j as nat),
                decreases d - j,
            {
                if j != i {
                    let factor = fr_neg(curve, matrix.get(j, i));
                    matrix.multiply_row_and_add_to_row(i, factor, j);
                }
                j += 1;
            }
            i += 1;
        }
        let mut idxs: Vec<usize> = Vec::new();
        let mut c: usize = 0;
        while c < d
            invariant
                c <= d,
                d + d <= usize::MAX,
                idxs@ =~= index_range(d as nat, c as nat),
            decreases d - c,
        {
            idxs.push(d + c);
            c += 1;
        }
        let inverse = matrix.hpick(&idxs);
        proof {
            matrix.lemma_view_shape();
            assert forall|r: int| 0 <= r < d implies #[trigger] inverse@[r] == right_half(
                matrix@,
                d as nat,
            )[r] by {}
            assert(inverse@ =~= right_half(matrix@, d as nat));
            lemma_gauss_jordan_right_inverse(p, self@, d as nat);
            lemma_gauss_jordan_left_inverse(p, self@, d as nat);
        }
        Ok(inverse)
    }
}

} // verus!
