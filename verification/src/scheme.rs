//! The dispersal, retrieval and sampling protocol.

use vstd::prelude::*;
use rand::rngs::StdRng;
use crate::curve::{Curve, scalar_modulus, capacity_bits, is_power_of_two, check_power_of_two};
use crate::field::{
    Fr, fpow, fr_add, fr_mul, fr_pow, fr_rand, fr_capacity, values, all_elements,
};
use crate::poly::{
    supports_domain, check_domain, domain_point, domain_element, evaluate_over_domain,
    evaluations, interpolate, interpolation, divide_by_linear, witness, poly_eval,
};
use crate::kzg::{
    G1, VerifierKey, g1_decodes, g1_neutral, g1_sum, g1_scaled, key_decodes, kzg_commitment,
    kzg_accepts, encodings, all_decode, g1_check, g1_zero, g1_add, g1_mul, kzg_setup, kzg_commit,
    kzg_check,
};
use crate::linalg::{
    Rows, beside, identity, pivots_nonzero, gauss_jordan, dot, dot_prefix, column, product,
};
use crate::matrix::{Matrix, InvertError};

verus! {

/// Why a scheme could not be set up.
#[derive(Clone, Copy, Debug, PartialEq, Eq, Structural)]
pub enum SetupError {
    /// The number of storage nodes is not a power of two.
    NodesNotPowerOfTwo,
    /// The chunk length is not a power of two.
    LengthNotPowerOfTwo,
    /// There are not more storage nodes than uncoded columns.
    TooManyColumns,
    /// The scalar field has no subgroup of the order of the nodes or of the chunk length.
    UnsupportedDomain,
    /// The chunk length is below two, so that there is nothing to commit to.
    LengthTooShort,
}

/// `data` has `rows` rows of `cols` scalars of `curve` each.
pub open spec fn is_table(data: Seq<Vec<Fr>>, rows: nat, cols: nat, curve: Curve) -> bool {
    &&& data.len() == rows
    &&& forall|j: int|
        0 <= j < rows ==> (#[trigger] data[j])@.len() == cols && all_elements(data[j]@, curve)
}

/// Decides `is_table`.
pub fn check_table(data: &Vec<Vec<Fr>>, rows: usize, cols: usize, curve: Curve) -> (r: bool)
    ensures
        r == is_table(data@, rows as nat, cols as nat, curve),
{
    if data.len() != rows {
        return false;
    }
    let mut j: usize = 0;
    while j < rows
        invariant
            j <= rows,
            data@.len() == rows,
            is_table(data@.subrange(0, j as int), j as nat, cols as nat, curve),
        decreases rows - j,
    {
        if data[j].len() != cols {
            return false;
        }
        let mut i: usize = 0;
        while i < cols
            invariant
                i <= cols,
                j < rows,
                data@.len() == rows,
                data@[j as int]@.len() == cols,
                forall|t: int| 0 <= t < i ==> (#[trigger] data@[j as int]@[t]).is_element(curve),
            decreases cols - i,
        {
            if !data[j][i].check_element(curve) {
                return false;
            }
            i += 1;
        }
        proof {
            assert forall|t: int| 0 <= t < j + 1 implies (#[trigger] data@.subrange(
                0,
                j + 1,
            )[t])@.len() == cols && all_elements(data@.subrange(0, j + 1)[t]@, curve) by {}
        }
        j += 1;
    }
    proof {
        assert(data@.subrange(0, rows as int) =~= data@);
    }
    true
}

/// The residues in column `i` of `data`, top to bottom.
pub open spec fn column_values(data: Seq<Vec<Fr>>, i: int) -> Seq<nat> {
    Seq::new(data.len(), |j: int| data[j]@[i]@)
}

/// The commitment to the polynomial that takes the values of column `i` of
/// `data` on the commitment domain.
pub open spec fn column_commitment(
    curve: Curve,
    powers: Seq<Seq<u8>>,
    data: Seq<Vec<Fr>>,
    i: int,
) -> Seq<u8> {
    kzg_commitment(curve, powers, interpolation(curve, column_values(data, i)))
}

/// The combination of the first `count` commitments with the scalars
/// `point^0, point^1, ...`.
pub open spec fn encoded_commitment(
    curve: Curve,
    commitments: Seq<Seq<u8>>,
    point: nat,
    count: nat,
) -> Seq<u8>
    decreases count,
{
    if count == 0 {
        g1_neutral(curve)
    } else {
        g1_sum(
            curve,
            encoded_commitment(curve, commitments, point, (count - 1) as nat),
            g1_scaled(
                curve,
                commitments[count - 1],
                fpow(scalar_modulus(curve), point, (count - 1) as nat),
            ),
        )
    }
}

/// The matrix whose entry in row `t` and column `u` is the `t`-th power of
/// the encoding-domain point of node `idxs[u]`.
pub open spec fn vandermonde(curve: Curve, nodes: nat, idxs: Seq<usize>, degree: nat) -> Rows {
    Seq::new(
        degree,
        |t: int|
            Seq::new(
                idxs.len(),
                |u: int|
                    fpow(
                        scalar_modulus(curve),
                        domain_point(curve, nodes, idxs[u] as nat),
                        t as nat,
                    ),
            ),
    )
}

/// The entries of `row` at the places `idxs`, in that order.
pub open spec fn picked(row: Seq<nat>, idxs: Seq<usize>) -> Seq<nat> {
    Seq::new(idxs.len(), |u: int| row[idxs[u] as int])
}

/// The row vector `row` times the `width` columns of `decoder`.
pub open spec fn decoded(p: nat, row: Seq<nat>, decoder: Rows, width: nat) -> Seq<nat> {
    Seq::new(width, |c: int| dot(p, row, column(decoder, c)))
}

/// An opened entry: its value, row and column, the column commitments, and
/// the evaluation proof.
pub type Opening = (Fr, usize, usize, Vec<G1>, G1);

/// The parameters of one scheme instance: the curve, the dimensions, and the
/// structured reference string cut to the chunk length.
#[derive(Debug)]
#[allow(non_snake_case)]
pub struct SemiAvidPr {
    curve: Curve,
    n: usize,
    k: usize,
    L: usize,
    kzg10_ck: Vec<G1>,
    kzg10_vk: VerifierKey,
}

impl SemiAvidPr {
    #[verifier::type_invariant]
    spec fn inv(&self) -> bool {
        &&& supports_domain(self.curve, self.n as nat)
        &&& supports_domain(self.curve, self.L as nat)
        &&& self.k < self.n
        &&& self.L >= 2
        &&& self.kzg10_ck@.len() == self.L
        &&& all_decode(self.kzg10_ck@, self.curve)
        &&& key_decodes(self.curve, self.kzg10_vk@)
    }

    /// The curve the scheme works over.
    pub closed spec fn spec_curve(&self) -> Curve {
        self.curve
    }

    /// The number of storage nodes, which is the number of coded columns.
    pub closed spec fn nodes(&self) -> nat {
        self.n as nat
    }

    /// The number of uncoded columns.
    pub closed spec fn columns(&self) -> nat {
        self.k as nat
    }

    /// The chunk length, which is the number of rows.
    pub closed spec fn length(&self) -> nat {
        self.L as nat
    }

    /// The encodings of the powers used for committing.
    pub closed spec fn powers(&self) -> Seq<Seq<u8>> {
        encodings(self.kzg10_ck@)
    }

    /// The encoding of the verifier key.
    pub closed spec fn key(&self) -> Seq<u8> {
        self.kzg10_vk@
    }

    /// The modulus of the scalar field.
    pub open spec fn modulus(&self) -> nat {
        scalar_modulus(self.spec_curve())
    }

    /// The dimensions that a scheme over `curve` accepts.
    pub open spec fn valid_shape(curve: Curve, n: nat, k: nat, l: nat) -> bool {
        &&& supports_domain(curve, n)
        &&& supports_domain(curve, l)
        &&& k < n
        &&& l >= 2
    }

    /// Sets a scheme up with a fresh structured reference string drawn from `rng`.
    ///
    /// The dimensions are examined in the order of the error variants, and the
    /// first requirement that fails is reported.
    #[allow(non_snake_case)]
    pub fn setup(
        rng: &mut StdRng,
        curve: Curve,
        n: usize,
        k: usize,
        L: usize,
    ) -> (r: Result<SemiAvidPr, SetupError>)
        ensures
            match r {
                Ok(scheme) => {
                    &&& Self::valid_shape(curve, n as nat, k as nat, L as nat)
                    &&& scheme.spec_curve() == curve
                    &&& scheme.nodes() == n
                    &&& scheme.columns() == k
                    &&& scheme.length() == L
                    &&& scheme.powers().len() == L
                },
                Err(SetupError::NodesNotPowerOfTwo) => !is_power_of_two(n as nat),
                Err(SetupError::LengthNotPowerOfTwo) => {
                    &&& is_power_of_two(n as nat)
                    &&& !is_power_of_two(L as nat)
                },
                Err(SetupError::TooManyColumns) => {
                    &&& is_power_of_two(n as nat)
                    &&& is_power_of_two(L as nat)
                    &&& k >= n
                },
                Err(SetupError::UnsupportedDomain) => {
                    &&& is_power_of_two(n as nat)
                    &&& is_power_of_two(L as nat)
                    &&& k < n
                    &&& !(supports_domain(curve, n as nat) && supports_domain(curve, L as nat))
                },
                Err(SetupError::LengthTooShort) => {
                    &&& supports_domain(curve, n as nat)
                    &&& supports_domain(curve, L as nat)
                    &&& k < n
                    &&& L < 2
                },
            },
    {
        if !check_power_of_two(n) {
            return Err(SetupError::NodesNotPowerOfTwo);
        }
        if !check_power_of_two(L) {
            return Err(SetupError::LengthNotPowerOfTwo);
        }
        if k >= n {
            return Err(SetupError::TooManyColumns);
        }
        if !check_domain(curve, n) || !check_domain(curve, L) {
            return Err(SetupError::UnsupportedDomain);
        }
        if L < 2 {
            return Err(SetupError::LengthTooShort);
        }
        let (powers, key) = kzg_setup(curve, rng, L - 1);
        Ok(SemiAvidPr { curve, n, k, L, kzg10_ck: powers, kzg10_vk: key })
    }

    /// The dimensions `(n, k, L)`: storage nodes, uncoded columns, chunk length.
    pub fn dimensions(&self) -> (r: (usize, usize, usize))
        ensures
            r.0 == self.nodes(),
            r.1 == self.columns(),
            r.2 == self.length(),
            Self::valid_shape(self.spec_curve(), self.nodes(), self.columns(), self.length()),
    {
        proof {
            use_type_invariant(self);
        }
        (self.n, self.k, self.L)
    }

    /// The powers of the structured reference string that commitments are made with.
    pub fn get_powers(&self) -> (r: &Vec<G1>)
        ensures
            encodings(r@) == self.powers(),
            r@.len() == self.length(),
            all_decode(r@, self.spec_curve()),
    {
        proof {
            use_type_invariant(self);
        }
        &self.kzg10_ck
    }

    /// The verifier key of the structured reference string.
    pub fn get_verifier_key(&self) -> (r: &VerifierKey)
        ensures
            r@ == self.key(),
            key_decodes(self.spec_curve(), r@),
    {
        proof {
            use_type_invariant(self);
        }
        &self.kzg10_vk
    }

    /// The curve the scheme works over.
    pub fn get_curve(&self) -> (r: Curve)
        ensures
            r == self.spec_curve(),
    {
        self.curve
    }

    /// The number of payload bits of a file: the capacity of a scalar times the
    /// number of entries.
    pub fn get_filesize(&self) -> (r: u128)
        ensures
            r == capacity_bits(self.spec_curve()) * self.columns() * self.length(),
    {
        proof {
            use_type_invariant(self);
        }
        let capacity = fr_capacity(self.curve) as u128;
        let k = self.k as u128;
        let l = self.L as u128;
        assert(capacity * k <= 254 * 0x1_0000_0000 && capacity * k * l <= 254 * 0x1_0000_0000
            * 0x1_0000_0000) by (nonlinear_arith)
            requires
                0 <= capacity <= 254,
                0 <= k <= 0x1_0000_0000,
                0 <= l <= 0x1_0000_0000,
        ;
        capacity * k * l
    }

    /// The number of whole payload bytes of a file.
    pub fn get_filesize_in_bytes(&self) -> (r: u128)
        ensures
            r == (capacity_bits(self.spec_curve()) * self.columns() * self.length()) / 8,
    {
        self.get_filesize() / 8
    }

    /// The number of column commitments of a file.
    pub fn get_num_column_commitments(&self) -> (r: usize)
        ensures
            r == self.columns(),
    {
        self.k
    }

    /// The number of rows that dispersal encodes.
    pub fn get_num_row_encodings(&self) -> (r: usize)
        ensures
            r == self.length(),
    {
        self.L
    }

    /// The number of chunks that dispersal verifies.
    pub fn get_num_chunk_verifications(&self) -> (r: usize)
        ensures
            r == self.nodes(),
    {
        self.n
    }

    /// The number of chunks that retrieval verifies.
    pub fn get_num_downloaded_chunk_verifications(&self) -> (r: usize)
        ensures
            r == self.columns(),
    {
        self.k
    }

    /// The number of rows that retrieval decodes.
    pub fn get_num_row_decodings(&self) -> (r: usize)
        ensures
            r == self.length(),
    {
        self.L
    }

    /// A file of `length()` rows and `columns()` columns of scalars drawn from
    /// `rng`, column by column.
    pub fn generate_random_file(&self, rng: &mut StdRng) -> (data: Vec<Vec<Fr>>)
        ensures
            is_table(data@, self.length(), self.columns(), self.spec_curve()),
    {
        let curve = self.curve;
        let mut drawn: Vec<Vec<Fr>> = Vec::new();
        let mut i: usize = 0;
        while i < self.k
            invariant
                i <= self.k,
                is_table(drawn@, i as nat, self.L as nat, curve),
            decreases self.k - i,
        {
            let mut column: Vec<Fr> = Vec::new();
            let mut j: usize = 0;
            while j < self.L
                invariant
                    j <= self.L,
                    column@.len() == j,
                    all_elements(column@, curve),
                decreases self.L - j,
            {
                column.push(fr_rand(curve, rng));
                j += 1;
            }
            drawn.push(column);
            i += 1;
        }
        let mut data: Vec<Vec<Fr>> = Vec::new();
        let mut j: usize = 0;
        while j < self.L
            invariant
                j <= self.L,
                is_table(drawn@, self.k as nat, self.L as nat, curve),
                is_table(data@, j as nat, self.k as nat, curve),
            decreases self.L - j,
        {
            let mut row: Vec<Fr> = Vec::new();
            let mut i: usize = 0;
            while i < self.k
                invariant
                    i <= self.k,
                    j < self.L,
                    is_table(drawn@, self.k as nat, self.L as nat, curve),
                    row@.len() == i,
                    all_elements(row@, curve),
                decreases self.k - i,
            {
                row.push(drawn[i][j]);
                i += 1;
            }
            data.push(row);
            j += 1;
        }
        data
    }

    /// Commits to column `idx` of `data`, read as the evaluations of a
    /// polynomial on the commitment domain.
    pub fn commit_column(&self, data: &Vec<Vec<Fr>>, idx: usize) -> (r: G1)
        requires
            data@.len() == self.length(),
            forall|j: int|
                0 <= j < data@.len() ==> idx < (#[trigger] data@[j])@.len() && all_elements(
                    data@[j]@,
                    self.spec_curve(),
                ),
        ensures
            r@ == column_commitment(self.spec_curve(), self.powers(), data@, idx as int),
            g1_decodes(self.spec_curve(), r@),
    {
        proof {
            use_type_invariant(self);
        }
        let curve = self.curve;
        let mut evals: Vec<Fr> = Vec::new();
        let mut j: usize = 0;
        while j < self.L
            invariant
                j <= self.L,
                data@.len() == self.L,
                forall|t: int|
                    0 <= t < data@.len() ==> idx < (#[trigger] data@[t])@.len() && all_elements(
                        data@[t]@,
                        curve,
                    ),
                evals@.len() == j,
                all_elements(evals@, curve),
                forall|t: int| 0 <= t < j ==> evals@[t] == data@[t]@[idx as int],
            decreases self.L - j,
        {
            evals.push(data[j][idx]);
            j += 1;
        }
        proof {
            assert(values(evals@) =~= column_values(data@, idx as int));
        }
        let coeffs = interpolate(curve, &evals);
        kzg_commit(curve, &self.kzg10_ck, &coeffs)
    }

    /// Combines the column commitments with the powers of the encoding-domain
    /// point of node `idx`.
    pub fn encode_commitments(&self, column_commitments: &Vec<G1>, idx: usize) -> (r: G1)
        requires
            column_commitments@.len() == self.columns(),
            all_decode(column_commitments@, self.spec_curve()),
        ensures
            r@ == encoded_commitment(
                self.spec_curve(),
                encodings(column_commitments@),
                domain_point(self.spec_curve(), self.nodes(), idx as nat),
                self.columns(),
            ),
            g1_decodes(self.spec_curve(), r@),
    {
        proof {
            use_type_invariant(self);
        }
        let curve = self.curve;
        let point = domain_element(curve, self.n, idx);
        let mut commitment = g1_zero(curve);
        let mut j: usize = 0;
        while j < self.k
            invariant
                j <= self.k,
                column_commitments@.len() == self.k,
                all_decode(column_commitments@, curve),
                point.is_element(curve),
                g1_decodes(curve, commitment@),
                commitment@ == encoded_commitment(
                    curve,
                    encodings(column_commitments@),
                    point@,
                    j as nat,
                ),
            decreases self.k - j,
        {
            let eval_exponent = fr_pow(curve, point, j as u64);
            let term = g1_mul(curve, &column_commitments[j], eval_exponent);
            commitment = g1_add(curve, &commitment, &term);
            j += 1;
        }
        commitment
    }

    /// The commitments to the columns of the uncoded file, in column order.
    pub fn disperse_compute_column_commitments(&self, data_uncoded: &Vec<Vec<Fr>>) -> (r: Vec<G1>)
        requires
            is_table(data_uncoded@, self.length(), self.columns(), self.spec_curve()),
        ensures
            r@.len() == self.columns(),
            all_decode(r@, self.spec_curve()),
            forall|i: int|
                0 <= i < self.columns() ==> (#[trigger] r@[i])@ == column_commitment(
                    self.spec_curve(),
                    self.powers(),
                    data_uncoded@,
                    i,
                ),
    {
        let mut column_commitments: Vec<G1> = Vec::new();
        let mut i: usize = 0;
        while i < self.k
            invariant
                i <= self.k,
                is_table(data_uncoded@, self.length(), self.columns(), self.spec_curve()),
                column_commitments@.len() == i,
                all_decode(column_commitments@, self.spec_curve()),
                forall|t: int|
                    0 <= t < i ==> (#[trigger] column_commitments@[t])@ == column_commitment(
                        self.spec_curve(),
                        self.powers(),
                        data_uncoded@,
                        t,
                    ),
            decreases self.k - i,
        {
            let commitment = self.commit_column(data_uncoded, i);
            column_commitments.push(commitment);
            i += 1;
        }
        column_commitments
    }

    /// The coded file: every row of the uncoded file, read as the coefficients
    /// of a polynomial, evaluated on the encoding domain.
    pub fn disperse_encode_rows(&self, data_uncoded: &Vec<Vec<Fr>>) -> (r: Vec<Vec<Fr>>)
        requires
            is_table(data_uncoded@, self.length(), self.columns(), self.spec_curve()),
        ensures
            is_table(r@, self.length(), self.nodes(), self.spec_curve()),
            forall|j: int|
                0 <= j < self.length() ==> values((#[trigger] r@[j])@) == evaluations(
                    self.spec_curve(),
                    values(data_uncoded@[j]@),
                    self.nodes(),
                ),
    {
        proof {
            use_type_invariant(self);
        }
        let curve = self.curve;
        let mut data_coded: Vec<Vec<Fr>> = Vec::new();
        let mut j: usize = 0;
        while j < self.L
            invariant
                j <= self.L,
                self.k < self.n,
                supports_domain(curve, self.n as nat),
                is_table(data_uncoded@, self.L as nat, self.k as nat, curve),
                is_table(data_coded@, j as nat, self.n as nat, curve),
                forall|t: int|
                    0 <= t < j ==> values((#[trigger] data_coded@[t])@) == evaluations(
                        curve,
                        values(data_uncoded@[t]@),
                        self.n as nat,
                    ),
            decreases self.L - j,
        {
            let row = evaluate_over_domain(curve, &data_uncoded[j], self.n);
            proof {
                assert(values(row@).len() == self.n);
            }
            data_coded.push(row);
            j += 1;
        }
        data_coded
    }

    /// Whether `commitments` has one decodable commitment per uncoded column.
    pub open spec fn commitments_fit(&self, commitments: Seq<G1>) -> bool {
        commitments.len() == self.columns() && all_decode(commitments, self.spec_curve())
    }

    /// Whether the commitment to column `column` of `data` is the combination
    /// of `commitments` that belongs to storage node `node`.
    pub open spec fn chunk_matches(
        &self,
        commitments: Seq<G1>,
        data: Seq<Vec<Fr>>,
        column: int,
        node: nat,
    ) -> bool {
        column_commitment(self.spec_curve(), self.powers(), data, column) == encoded_commitment(
            self.spec_curve(),
            encodings(commitments),
            domain_point(self.spec_curve(), self.nodes(), node),
            self.columns(),
        )
    }

    /// Decides `commitments_fit`.
    pub fn check_commitments(&self, column_commitments: &Vec<G1>) -> (r: bool)
        ensures
            r == self.commitments_fit(column_commitments@),
    {
        if column_commitments.len() != self.k {
            return false;
        }
        let mut i: usize = 0;
        while i < column_commitments.len()
            invariant
                i <= column_commitments@.len(),
                forall|t: int|
                    0 <= t < i ==> g1_decodes(self.spec_curve(), (#[trigger] column_commitments@[t])@),
            decreases column_commitments@.len() - i,
        {
            if !g1_check(self.curve, &column_commitments[i]) {
                return false;
            }
            i += 1;
        }
        true
    }

    /// Checks every coded column against the column commitments.
    pub fn disperse_verify_chunks(
        &self,
        column_commitments: &Vec<G1>,
        data_coded: &Vec<Vec<Fr>>,
    ) -> (r: bool)
        requires
            is_table(data_coded@, self.length(), self.nodes(), self.spec_curve()),
        ensures
            r == {
                &&& self.commitments_fit(column_commitments@)
                &&& forall|i: int|
                    0 <= i < self.nodes() ==> #[trigger] self.chunk_matches(
                        column_commitments@,
                        data_coded@,
                        i,
                        i as nat,
                    )
            },
    {
        if !self.check_commitments(column_commitments) {
            return false;
        }
        let mut i: usize = 0;
        while i < self.n
            invariant
                i <= self.n,
                is_table(data_coded@, self.length(), self.nodes(), self.spec_curve()),
                self.nodes() == self.n,
                self.commitments_fit(column_commitments@),
                forall|t: int|
                    0 <= t < i ==> #[trigger] self.chunk_matches(
                        column_commitments@,
                        data_coded@,
                        t,
                        t as nat,
                    ),
            decreases self.n - i,
        {
            let commitment = self.commit_column(data_coded, i);
            let commitment_check = self.encode_commitments(column_commitments, i);
            if !commitment.equals(&commitment_check) {
                proof {
                    let t = i as int;
                    assert(!self.chunk_matches(column_commitments@, data_coded@, t, t as nat));
                }
                return false;
            }
            i += 1;
        }
        true
    }

    /// The columns of the coded file held by the storage nodes `idxs_download_nodes`.
    pub fn retrieve_download_chunks(
        &self,
        data_coded: &Vec<Vec<Fr>>,
        idxs_download_nodes: &Vec<usize>,
    ) -> (r: Vec<Vec<Fr>>)
        requires
            forall|j: int, u: int|
                0 <= j < data_coded@.len() && 0 <= u < idxs_download_nodes@.len()
                    ==> #[trigger] idxs_download_nodes@[u] < (#[trigger] data_coded@[j])@.len(),
        ensures
            r@.len() == data_coded@.len(),
            forall|j: int|
                0 <= j < r@.len() ==> (#[trigger] r@[j])@.len() == idxs_download_nodes@.len(),
            forall|j: int, u: int|
                0 <= j < r@.len() && 0 <= u < idxs_download_nodes@.len() ==> (#[trigger] r@[j]@[u])
                    == data_coded@[j]@[idxs_download_nodes@[u] as int],
            forall|j: int|
                0 <= j < r@.len() ==> values((#[trigger] r@[j])@) == picked(
                    values(data_coded@[j]@),
                    idxs_download_nodes@,
                ),
    {
        let mut data_coded_downloaded: Vec<Vec<Fr>> = Vec::new();
        let mut j: usize = 0;
        while j < data_coded.len()
            invariant
                j <= data_coded@.len(),
                forall|t: int, u: int|
                    0 <= t < data_coded@.len() && 0 <= u < idxs_download_nodes@.len()
                        ==> #[trigger] idxs_download_nodes@[u] < (#[trigger] data_coded@[t])@.len(),
                data_coded_downloaded@.len() == j,
                forall|t: int|
                    0 <= t < j ==> (#[trigger] data_coded_downloaded@[t])@.len()
                        == idxs_download_nodes@.len(),
                forall|t: int, u: int|
                    0 <= t < j && 0 <= u < idxs_download_nodes@.len() ==> (
                    #[trigger] data_coded_downloaded@[t]@[u])
                        == data_coded@[t]@[idxs_download_nodes@[u] as int],
            decreases data_coded@.len() - j,
        {
            let mut row: Vec<Fr> = Vec::new();
            let mut u: usize = 0;
            while u < idxs_download_nodes.len()
                invariant
                    j < data_coded@.len(),
                    u <= idxs_download_nodes@.len(),
                    forall|t: int, v: int|
                        0 <= t < data_coded@.len() && 0 <= v < idxs_download_nodes@.len()
                            ==> #[trigger] idxs_download_nodes@[v] < (
                        #[trigger] data_coded@[t])@.len(),
                    row@.len() == u,
                    forall|v: int|
                        0 <= v < u ==> (#[trigger] row@[v])
                            == data_coded@[j as int]@[idxs_download_nodes@[v] as int],
                decreases idxs_download_nodes@.len() - u,
            {
                let i = idxs_download_nodes[u];
                row.push(data_coded[j][i]);
                u += 1;
            }
            data_coded_downloaded.push(row);
            j += 1;
        }
        proof {
            assert forall|j: int| 0 <= j < data_coded_downloaded@.len() implies values(
                (#[trigger] data_coded_downloaded@[j])@,
            ) == picked(values(data_coded@[j]@), idxs_download_nodes@) by {
                assert forall|u: int| 0 <= u < idxs_download_nodes@.len() implies values(
                    data_coded_downloaded@[j]@,
                )[u] == picked(values(data_coded@[j]@), idxs_download_nodes@)[u] by {
                    assert(data_coded_downloaded@[j]@[u]
                        == data_coded@[j]@[idxs_download_nodes@[u] as int]);
                }
                assert(values(data_coded_downloaded@[j]@) =~= picked(
                    values(data_coded@[j]@),
                    idxs_download_nodes@,
                ));
            }
        }
        data_coded_downloaded
    }

    /// Checks every downloaded column against the column commitments, in the
    /// order of `idxs_download_nodes`.
    pub fn retrieve_verify_chunks(
        &self,
        column_commitments: &Vec<G1>,
        data_coded_downloaded: &Vec<Vec<Fr>>,
        idxs_download_nodes: &Vec<usize>,
    ) -> (r: bool)
        requires
            is_table(
                data_coded_downloaded@,
                self.length(),
                idxs_download_nodes@.len(),
                self.spec_curve(),
            ),
        ensures
            r == {
                &&& self.commitments_fit(column_commitments@)
                &&& forall|u: int|
                    0 <= u < idxs_download_nodes@.len() ==> #[trigger] self.chunk_matches(
                        column_commitments@,
                        data_coded_downloaded@,
                        u,
                        idxs_download_nodes@[u] as nat,
                    )
            },
    {
        if !self.check_commitments(column_commitments) {
            return false;
        }
        let mut idx: usize = 0;
        while idx < idxs_download_nodes.len()
            invariant
                idx <= idxs_download_nodes@.len(),
                is_table(
                    data_coded_downloaded@,
                    self.length(),
                    idxs_download_nodes@.len(),
                    self.spec_curve(),
                ),
                self.commitments_fit(column_commitments@),
                forall|u: int|
                    0 <= u < idx ==> #[trigger] self.chunk_matches(
                        column_commitments@,
                        data_coded_downloaded@,
                        u,
                        idxs_download_nodes@[u] as nat,
                    ),
            decreases idxs_download_nodes@.len() - idx,
        {
            let col = idxs_download_nodes[idx];
            let commitment = self.commit_column(data_coded_downloaded, idx);
            let commitment_check = self.encode_commitments(column_commitments, col);
            if !commitment.equals(&commitment_check) {
                assert(!self.chunk_matches(
                    column_commitments@,
                    data_coded_downloaded@,
                    idx as int,
                    idxs_download_nodes@[idx as int] as nat,
                ));
                return false;
            }
            assert(self.chunk_matches(
                column_commitments@,
                data_coded_downloaded@,
                idx as int,
                idxs_download_nodes@[idx as int] as nat,
            ));
            idx += 1;
        }
        true
    }

    /// The commitment domain point of row `row`.
    pub open spec fn row_point(&self, row: nat) -> nat {
        domain_point(self.spec_curve(), self.length(), row)
    }

    /// The decoder for the columns held by the storage nodes
    /// `idxs_download_nodes`: the inverse of their Vandermonde matrix.
    ///
    /// The outcome is that of `Matrix::invert` on that matrix.
    pub fn retrieve_prepare_decoding(
        &self,
        idxs_download_nodes: &Vec<usize>,
    ) -> (r: Result<Matrix, InvertError>)
        requires
            idxs_download_nodes@.len() == self.columns(),
        ensures
            match r {
                Ok(m) => {
                    &&& 2 * self.columns() * self.columns() <= usize::MAX
                    &&& pivots_nonzero(
                        self.modulus(),
                        beside(
                            vandermonde(
                                self.spec_curve(),
                                self.nodes(),
                                idxs_download_nodes@,
                                self.columns(),
                            ),
                            identity(self.columns()),
                        ),
                        self.columns(),
                    )
                    &&& m.wf()
                    &&& m.spec_height() == self.columns()
                    &&& m.spec_width() == self.columns()
                    &&& m.spec_curve() == self.spec_curve()
                    &&& m@ == gauss_jordan(
                        self.modulus(),
                        vandermonde(
                            self.spec_curve(),
                            self.nodes(),
                            idxs_download_nodes@,
                            self.columns(),
                        ),
                    )
                    &&& product(
                        self.modulus(),
                        vandermonde(
                            self.spec_curve(),
                            self.nodes(),
                            idxs_download_nodes@,
                            self.columns(),
                        ),
                        m@,
                        self.columns(),
                    ) == identity(self.columns())
                    &&& product(
                        self.modulus(),
                        m@,
                        vandermonde(
                            self.spec_curve(),
                            self.nodes(),
                            idxs_download_nodes@,
                            self.columns(),
                        ),
                        self.columns(),
                    ) == identity(self.columns())
                },
                Err(InvertError::NotSquare) => false,
                Err(InvertError::TooLarge) => 2 * self.columns() * self.columns() > usize::MAX,
                Err(InvertError::ZeroPivot) => {
                    &&& 2 * self.columns() * self.columns() <= usize::MAX
                    &&& !pivots_nonzero(
                        self.modulus(),
                        beside(
                            vandermonde(
                                self.spec_curve(),
                                self.nodes(),
                                idxs_download_nodes@,
                                self.columns(),
                            ),
                            identity(self.columns()),
                        ),
                        self.columns(),
                    )
                },
            },
    {
        proof {
            use_type_invariant(self);
        }
        let curve = self.curve;
        let ghost target = vandermonde(curve, self.n as nat, idxs_download_nodes@, self.k as nat);
        let mut matrix: Vec<Vec<Fr>> = Vec::new();
        let mut i: usize = 0;
        while i < self.k
            invariant
                i <= self.k,
                supports_domain(curve, self.n as nat),
                idxs_download_nodes@.len() == self.k,
                target == vandermonde(curve, self.n as nat, idxs_download_nodes@, self.k as nat),
                matrix@.len() == i,
                forall|t: int|
                    0 <= t < i ==> (#[trigger] matrix@[t])@.len() == self.k && all_elements(
                        matrix@[t]@,
                        curve,
                    ),
                forall|t: int, u: int|
                    0 <= t < i && 0 <= u < self.k ==> (#[trigger] matrix@[t]@[u])@ == target[t][u],
            decreases self.k - i,
        {
            let mut row: Vec<Fr> = Vec::new();
            let mut u: usize = 0;
            while u < self.k
                invariant
                    i < self.k,
                    u <= self.k,
                    supports_domain(curve, self.n as nat),
                    idxs_download_nodes@.len() == self.k,
                    target == vandermonde(
                        curve,
                        self.n as nat,
                        idxs_download_nodes@,
                        self.k as nat,
                    ),
                    row@.len() == u,
                    all_elements(row@, curve),
                    forall|v: int| 0 <= v < u ==> (#[trigger] row@[v])@ == target[i as int][v],
                decreases self.k - u,
            {
                let point = domain_element(curve, self.n, idxs_download_nodes[u]);
                row.push(fr_pow(curve, point, i as u64));
                u += 1;
            }
            matrix.push(row);
            i += 1;
        }
        match Matrix::from_nested_vec(curve, self.k, self.k, matrix) {
            Some(m) => {
                proof {
                    assert forall|t: int| 0 <= t < self.k implies #[trigger] m@[t] == target[t] by {}
                    assert(m@ =~= target);
                }
                m.invert()
            },
            None => {
                assert(2 * self.k * self.k > usize::MAX) by (nonlinear_arith)
                    requires
                        self.k * self.k > usize::MAX,
                ;
                Err(InvertError::TooLarge)
            },
        }
    }

    /// Decodes every row of the downloaded columns with the decoder: entry
    /// `c` of a decoded row is the inner product of the downloaded row with
    /// column `c` of the decoder.
    pub fn retrieve_decode_rows(
        &self,
        data_coded_downloaded: &Vec<Vec<Fr>>,
        decoder_aux: &Matrix,
    ) -> (r: Vec<Vec<Fr>>)
        requires
            decoder_aux.wf(),
            decoder_aux.spec_curve() == self.spec_curve(),
            decoder_aux.spec_height() == decoder_aux.spec_width(),
            is_table(
                data_coded_downloaded@,
                self.length(),
                decoder_aux.spec_height(),
                self.spec_curve(),
            ),
        ensures
            is_table(r@, self.length(), decoder_aux.spec_width(), self.spec_curve()),
            forall|j: int|
                0 <= j < self.length() ==> values((#[trigger] r@[j])@) == decoded(
                    self.modulus(),
                    values(data_coded_downloaded@[j]@),
                    decoder_aux@,
                    decoder_aux.spec_width(),
                ),
    {
        proof {
            use_type_invariant(self);
            decoder_aux.lemma_view_shape();
        }
        let curve = self.curve;
        let d = decoder_aux.height();
        let ghost p = scalar_modulus(curve);
        let mut data_decoded: Vec<Vec<Fr>> = Vec::new();
        let mut j: usize = 0;
        while j < self.L
            invariant
                j <= self.L,
                p == scalar_modulus(curve),
                decoder_aux.wf(),
                decoder_aux.spec_curve() == curve,
                decoder_aux.spec_height() == d,
                decoder_aux.spec_width() == d,
                decoder_aux@.len() == d,
                is_table(data_coded_downloaded@, self.L as nat, d as nat, curve),
                is_table(data_decoded@, j as nat, d as nat, curve),
                forall|t: int, c: int|
                    0 <= t < j && 0 <= c < d ==> (#[trigger] data_decoded@[t]@[c])@ == dot(
                        p,
                        values(data_coded_downloaded@[t]@),
                        column(decoder_aux@, c),
                    ),
            decreases self.L - j,
        {
            let mut decoded_row: Vec<Fr> = Vec::new();
            let mut col: usize = 0;
            while col < d
                invariant
                    j < self.L,
                    col <= d,
                    p == scalar_modulus(curve),
                    decoder_aux.wf(),
                    decoder_aux.spec_curve() == curve,
                    decoder_aux.spec_height() == d,
                    decoder_aux.spec_width() == d,
                    decoder_aux@.len() == d,
                    is_table(data_coded_downloaded@, self.L as nat, d as nat, curve),
                    decoded_row@.len() == col,
                    all_elements(decoded_row@, curve),
                    forall|c: int|
                        0 <= c < col ==> (#[trigger] decoded_row@[c])@ == dot(
                            p,
                            values(data_coded_downloaded@[j as int]@),
                            column(decoder_aux@, c),
                        ),
                decreases d - col,
            {
                let mut sum = Fr::zero();
                let mut row: usize = 0;
                while row < d
                    invariant
                        j < self.L,
                        col < d,
                        row <= d,
                        p == scalar_modulus(curve),
                        decoder_aux.wf(),
                        decoder_aux.spec_curve() == curve,
                        decoder_aux.spec_height() == d,
                        decoder_aux.spec_width() == d,
                        decoder_aux@.len() == d,
                        is_table(data_coded_downloaded@, self.L as nat, d as nat, curve),
                        sum.is_element(curve),
                        sum@ == dot_prefix(
                            p,
                            values(data_coded_downloaded@[j as int]@),
                            column(decoder_aux@, col as int),
                            row as nat,
                        ),
                    decreases d - row,
                {
                    let term = fr_mul(
                        curve,
                        data_coded_downloaded[j][row],
                        decoder_aux.get(row, col),
                    );
                    sum = fr_add(curve, sum, term);
                    row += 1;
                }
                decoded_row.push(sum);
                col += 1;
            }
            data_decoded.push(decoded_row);
            j += 1;
        }
        proof {
            assert forall|t: int| 0 <= t < self.L implies values((#[trigger] data_decoded@[t])@)
                == decoded(p, values(data_coded_downloaded@[t]@), decoder_aux@, d as nat) by {
                assert forall|c: int| 0 <= c < d implies values(data_decoded@[t]@)[c] == decoded(
                    p,
                    values(data_coded_downloaded@[t]@),
                    decoder_aux@,
                    d as nat,
                )[c] by {
                    assert(data_decoded@[t]@[c]@ == dot(
                        p,
                        values(data_coded_downloaded@[t]@),
                        column(decoder_aux@, c),
                    ));
                }
                assert(values(data_decoded@[t]@) =~= decoded(
                    p,
                    values(data_coded_downloaded@[t]@),
                    decoder_aux@,
                    d as nat,
                ));
            }
        }
        data_decoded
    }

    /// Opens the entry at (`row`, `col`) of the uncoded file: the proof is the
    /// commitment to the quotient of the column's polynomial by `X - z`, where
    /// `z` is the commitment-domain point of the row.
    pub fn sampling_open_entry(
        &self,
        column_commitments: &Vec<G1>,
        data_uncoded: &Vec<Vec<Fr>>,
        row: usize,
        col: usize,
    ) -> (r: Opening)
        requires
            is_table(data_uncoded@, self.length(), self.columns(), self.spec_curve()),
            row < self.length(),
            col < self.columns(),
        ensures
            r.0 == data_uncoded@[row as int]@[col as int],
            r.0@ == poly_eval(
                self.modulus(),
                interpolation(self.spec_curve(), column_values(data_uncoded@, col as int)),
                self.row_point(row as nat),
            ),
            r.1 == row,
            r.2 == col,
            encodings(r.3@) == encodings(column_commitments@),
            r.4@ == kzg_commitment(
                self.spec_curve(),
                self.powers(),
                witness(
                    self.spec_curve(),
                    interpolation(self.spec_curve(), column_values(data_uncoded@, col as int)),
                    self.row_point(row as nat),
                ),
            ),
            g1_decodes(self.spec_curve(), r.4@),
    {
        proof {
            use_type_invariant(self);
        }
        let curve = self.curve;
        let mut evals: Vec<Fr> = Vec::new();
        let mut j: usize = 0;
        while j < self.L
            invariant
                j <= self.L,
                col < self.k,
                is_table(data_uncoded@, self.L as nat, self.k as nat, curve),
                evals@.len() == j,
                all_elements(evals@, curve),
                forall|t: int| 0 <= t < j ==> evals@[t] == data_uncoded@[t]@[col as int],
            decreases self.L - j,
        {
            evals.push(data_uncoded[j][col]);
            j += 1;
        }
        proof {
            assert(values(evals@) =~= column_values(data_uncoded@, col as int));
        }
        let poly = interpolate(curve, &evals);
        proof {
            let taken = evaluations(curve, values(poly@), self.L as nat);
            assert(taken[row as int] == values(evals@)[row as int]);
        }
        let point = domain_element(curve, self.L, row);
        let witness = divide_by_linear(curve, &poly, point);
        let proof = kzg_commit(curve, &self.kzg10_ck, &witness);
        let mut commitments: Vec<G1> = Vec::new();
        let mut i: usize = 0;
        while i < column_commitments.len()
            invariant
                i <= column_commitments@.len(),
                commitments@.len() == i,
                forall|t: int| 0 <= t < i ==> (#[trigger] commitments@[t])@ == column_commitments@[t]@,
            decreases column_commitments@.len() - i,
        {
            commitments.push(column_commitments[i].clone());
            i += 1;
        }
        (data_uncoded[row][col], row, col, commitments, proof)
    }

    /// Whether an opening is acceptable: row and column are in range, the
    /// value is a scalar, commitment and proof decode, and the pairing check
    /// accepts.
    pub open spec fn opening_accepted(&self, opening: Opening) -> bool {
        let (value, row, col, column_commitments, proof) = opening;
        &&& row < self.length()
        &&& col < self.columns()
        &&& col < column_commitments@.len()
        &&& value.is_element(self.spec_curve())
        &&& g1_decodes(self.spec_curve(), column_commitments@[col as int]@)
        &&& g1_decodes(self.spec_curve(), proof@)
        &&& kzg_accepts(
            self.spec_curve(),
            self.key(),
            column_commitments@[col as int]@,
            self.row_point(row as nat),
            value@,
            proof@,
        )
    }

    /// Verifies an opened entry against the commitment of its column.
    pub fn sampling_verify_entry(&self, opening: Opening) -> (r: bool)
        ensures
            r == self.opening_accepted(opening),
    {
        proof {
            use_type_invariant(self);
        }
        let (value, row, col, column_commitments, proof) = opening;
        if row >= self.L || col >= self.k || col >= column_commitments.len() {
            return false;
        }
        if !value.check_element(self.curve) {
            return false;
        }
        if !g1_check(self.curve, &column_commitments[col]) || !g1_check(self.curve, &proof) {
            return false;
        }
        let point = domain_element(self.curve, self.L, row);
        kzg_check(self.curve, &self.kzg10_vk, &column_commitments[col], point, value, &proof)
    }
}

} // verus!
