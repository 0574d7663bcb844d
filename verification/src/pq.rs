//! Product quantizers, flat code indexes, encoding and reconstruction.

use vstd::prelude::*;
use crate::error::{AppError, is_invalid_config, is_invalid_pq_code, invalid_config, invalid_pq_code};
use crate::vector::VectorSet;
use crate::vector::set::all_finite;
use crate::vector::float_bits::is_finite_bits;
use crate::vector::float_bits::POSITIVE_INFINITY_BITS;
use crate::vector::nearest::{
    first_nearest_from, scan_nearest, lemma_first_nearest_in_range, is_lowest_minimum,
    lemma_first_nearest_is_lowest_minimum,
};
use crate::vector::float_bits::is_nan_bits;
use crate::config::PqConfig;
use crate::rng::{derive_kmeans_seed, spec_derive_kmeans_seed};

verus! {

/// The centroids of one subspace (coordinates as `f32` bit patterns).
#[derive(Clone, Debug, PartialEq)]
pub struct SubspaceCodebook {
    pub subspace_index: usize,
    pub subvector_dimension: usize,
    pub centroids: Vec<Vec<u32>>,
}

/// One codebook per subspace; a vector is split into `subspaces` equal
/// subvectors, each replaced by the id of a centroid of its codebook.
#[derive(Clone, Debug, PartialEq)]
pub struct ProductQuantizer {
    pub dimension: usize,
    pub subspaces: usize,
    pub centroids_per_subspace: usize,
    pub codebooks: Vec<SubspaceCodebook>,
}

/// Work done by an encoding run.
#[derive(Clone, Copy, Debug, PartialEq, Eq)]
pub struct EncodingCounters {
    pub vectors_encoded: u64,
    pub centroid_comparisons: u64,
    pub coordinate_distance_operations: u64,
}

impl Default for EncodingCounters {
    fn default() -> (counters: Self)
        ensures
            counters.vectors_encoded == 0,
            counters.centroid_comparisons == 0,
            counters.coordinate_distance_operations == 0,
    {
        EncodingCounters { vectors_encoded: 0, centroid_comparisons: 0, coordinate_distance_operations: 0 }
    }
}

/// The codes of `vector_count` vectors, `subspaces` centroid ids each, stored
/// vector after vector.
#[derive(Debug, PartialEq)]
pub struct PqIndex {
    subspaces: usize,
    vector_count: usize,
    codes: Vec<u8>,
}

impl PqIndex {
    #[verifier::type_invariant]
    spec fn layout_holds(self) -> bool {
        &&& self.subspaces > 0
        &&& self.codes@.len() == self.subspaces * self.vector_count
    }

    /// Centroid ids per code.
    pub closed spec fn spec_subspaces(&self) -> nat {
        self.subspaces as nat
    }

    /// Number of codes.
    pub closed spec fn spec_len(&self) -> nat {
        self.vector_count as nat
    }

    /// All centroid ids, code after code.
    pub closed spec fn spec_codes(&self) -> Seq<u8> {
        self.codes@
    }

    /// The code of vector `vector_id`.
    pub open spec fn spec_code(&self, vector_id: int) -> Seq<u8> {
        self.spec_codes().subrange(
            vector_id * self.spec_subspaces(),
            vector_id * self.spec_subspaces() + self.spec_subspaces(),
        )
    }

    /// Checks that `codes` holds `vector_count` codes of `subspaces` ids.
    pub fn new(subspaces: usize, vector_count: usize, codes: Vec<u8>) -> (index: Result<
        Self,
        AppError,
    >)
        ensures
            match index {
                Ok(index) => {
                    &&& subspaces > 0
                    &&& codes@.len() == subspaces * vector_count
                    &&& index.spec_subspaces() == subspaces
                    &&& index.spec_len() == vector_count
                    &&& index.spec_codes() == codes@
                },
                Err(e) => {
                    &&& (subspaces == 0 || codes@.len() != subspaces * vector_count)
                    &&& is_invalid_pq_code(
                        e,
                        "flat code length must equal vector_count \u{d7} subspaces"@,
                    )
                },
            },
    {
        let code_count = codes.len();
        if subspaces == 0 {
            return Err(invalid_pq_code("flat code length must equal vector_count \u{d7} subspaces"));
        }
        match subspaces.checked_mul(vector_count) {
            Some(total) => {
                if code_count != total {
                    return Err(
                        invalid_pq_code("flat code length must equal vector_count \u{d7} subspaces"),
                    );
                }
            },
            None => {
                return Err(invalid_pq_code("flat code length must equal vector_count \u{d7} subspaces"));
            },
        }
        Ok(PqIndex { subspaces, vector_count, codes })
    }

    /// Centroid ids per code.
    pub fn subspaces(&self) -> (subspaces: usize)
        ensures
            subspaces == self.spec_subspaces(),
            subspaces > 0,
            self.spec_codes().len() == self.spec_subspaces() * self.spec_len(),
    {
        proof {
            use_type_invariant(self);
        }
        self.subspaces
    }

    /// Number of codes.
    pub fn len(&self) -> (len: usize)
        ensures
            len == self.spec_len(),
            self.spec_subspaces() > 0,
            self.spec_codes().len() == self.spec_subspaces() * self.spec_len(),
    {
        proof {
            use_type_invariant(self);
        }
        self.vector_count
    }

    /// Whether the index holds no code.
    pub fn is_empty(&self) -> (empty: bool)
        ensures
            empty == (self.spec_len() == 0),
    {
        self.vector_count == 0
    }

    /// The code of vector `vector_id`.
    pub fn code(&self, vector_id: usize) -> (code: &[u8])
        requires
            vector_id < self.spec_len(),
        ensures
            code@ == self.spec_code(vector_id as int),
            code@.len() == self.spec_subspaces(),
    {
        proof {
            use_type_invariant(self);
            crate::vector::set::lemma_row_in_bounds(
                vector_id as int,
                self.vector_count as int,
                self.subspaces as int,
            );
            assert(self.vector_count * self.subspaces == self.subspaces * self.vector_count)
                by (nonlinear_arith);
            assert(vector_id * self.subspaces + self.subspaces <= self.codes.len());
        }
        let start = vector_id * self.subspaces;
        vstd::slice::slice_subrange(self.codes.as_slice(), start, start + self.subspaces)
    }

    /// All centroid ids, code after code: the codes of vectors `0`, `1`, ...
    /// concatenated.
    pub fn codes(&self) -> (codes: &[u8])
        ensures
            codes@ == self.spec_codes(),
            self.spec_subspaces() > 0,
            codes@.len() == self.spec_len() * self.spec_subspaces(),
            codes@ == Seq::new(self.spec_len(), |v: int| self.spec_code(v)).flatten(),
    {
        proof {
            use_type_invariant(self);
            let m = self.spec_subspaces();
            let n = self.spec_len();
            let codes = self.spec_codes();
            let rows = Seq::new(n, |v: int| self.spec_code(v));
            assert(codes.len() == n * m) by (nonlinear_arith)
                requires
                    codes.len() == m * n,
            ;
            assert forall|v: int| 0 <= v < rows.len() implies (#[trigger] rows[v]).len() == m by {
                crate::vector::set::lemma_row_in_bounds(v, n as int, m as int);
            }
            crate::vector::set::lemma_flatten_equal_rows(rows, m);
            let flat = rows.flatten();
            assert forall|k: int| 0 <= k < codes.len() implies flat[k] == codes[k] by {
                let v = k / (m as int);
                let j = k % (m as int);
                vstd::arithmetic::div_mod::lemma_fundamental_div_mod(k, m as int);
                assert(0 <= v < n) by (nonlinear_arith)
                    requires
                        0 <= k < n * m,
                        k == m * v + j,
                        0 <= j < m,
                ;
                assert(v * m == m * v) by (nonlinear_arith);
                crate::vector::set::lemma_row_in_bounds(v, n as int, m as int);
                assert(flat.subrange(v * m, v * m + m) == rows[v]);
                assert(flat.subrange(v * m, v * m + m)[j] == flat[k]);
            }
            assert(flat =~= codes);
        }
        self.codes.as_slice()
    }
}

impl Clone for PqIndex {
    fn clone(&self) -> (copy: Self)
        ensures
            copy.spec_subspaces() == self.spec_subspaces(),
            copy.spec_len() == self.spec_len(),
            copy.spec_codes() == self.spec_codes(),
    {
        proof {
            use_type_invariant(self);
        }
        let mut codes: Vec<u8> = Vec::new();
        let mut i: usize = 0;
        while i < self.codes.len()
            invariant
                i <= self.codes@.len(),
                codes@ == self.codes@.take(i as int),
            decreases self.codes@.len() - i,
        {
            codes.push(self.codes[i]);
            i += 1;
            assert(codes@ == self.codes@.take(i as int));
        }
        assert(self.codes@.take(self.codes@.len() as int) == self.codes@);
        PqIndex { subspaces: self.subspaces, vector_count: self.vector_count, codes }
    }
}

impl ProductQuantizer {
    /// Codebook `i` has index `i`, the quantizer's subvector dimension, one
    /// centroid per id, and centroids of the subvector dimension.
    pub open spec fn codebook_fits(&self, i: int) -> bool {
        let codebook = self.codebooks@[i];
        &&& codebook.subspace_index == i
        &&& codebook.subvector_dimension == self.dimension / self.subspaces
        &&& codebook.centroids@.len() == self.centroids_per_subspace
        &&& forall|j: int|
            0 <= j < codebook.centroids@.len() ==> #[trigger] codebook.centroids@[j]@.len()
                == self.dimension / self.subspaces
    }

    /// The layout that `validate` accepts.
    pub open spec fn is_valid(&self) -> bool {
        &&& self.subspaces > 0
        &&& self.dimension % self.subspaces == 0
        &&& 0 < self.centroids_per_subspace <= 256
        &&& self.codebooks@.len() == self.subspaces
        &&& forall|i: int| 0 <= i < self.subspaces ==> #[trigger] self.codebook_fits(i)
    }

    /// Coordinates per subvector.
    pub fn subvector_dimension(&self) -> (subvector_dimension: usize)
        requires
            self.subspaces > 0,
        ensures
            subvector_dimension == self.dimension / self.subspaces,
    {
        self.dimension / self.subspaces
    }

    /// Checks the layout (see `is_valid`).
    pub fn validate(&self) -> (checked: Result<(), AppError>)
        ensures
            match checked {
                Ok(()) => self.is_valid(),
                Err(e) => !self.is_valid() && self.validate_error(e),
            },
    {
        if self.subspaces == 0 || self.dimension % self.subspaces != 0 {
            return Err(invalid_config("PQ dimension must be divisible by positive subspaces"));
        }
        if self.centroids_per_subspace == 0 || self.centroids_per_subspace > 256 {
            return Err(invalid_config("PQ centroid count must be in 1..=256"));
        }
        if self.codebooks.len() != self.subspaces {
            return Err(invalid_config("PQ must contain one codebook per subspace"));
        }
        let subvector_dimension = self.subvector_dimension();
        let mut i: usize = 0;
        while i < self.codebooks.len()
            invariant
                i <= self.codebooks@.len(),
                self.subspaces > 0,
                self.dimension % self.subspaces == 0,
                0 < self.centroids_per_subspace <= 256,
                self.codebooks@.len() == self.subspaces,
                subvector_dimension == self.dimension / self.subspaces,
                forall|k: int| 0 <= k < i ==> #[trigger] self.codebook_fits(k),
            decreases self.codebooks@.len() - i,
        {
            let codebook = &self.codebooks[i];
            if codebook.subspace_index != i || codebook.subvector_dimension != subvector_dimension
                || codebook.centroids.len() != self.centroids_per_subspace {
                assert(!self.codebook_fits(i as int));
                return Err(invalid_config("PQ codebook layout is inconsistent"));
            }
            let mut j: usize = 0;
            while j < codebook.centroids.len()
                invariant
                    j <= codebook.centroids@.len(),
                    i < self.codebooks@.len(),
                    *codebook == self.codebooks@[i as int],
                    codebook.subspace_index == i,
                    codebook.subvector_dimension == subvector_dimension,
                    codebook.centroids@.len() == self.centroids_per_subspace,
                    self.subspaces > 0,
                    self.dimension % self.subspaces == 0,
                    0 < self.centroids_per_subspace <= 256,
                    self.codebooks@.len() == self.subspaces,
                    subvector_dimension == self.dimension / self.subspaces,
                    forall|m: int|
                        0 <= m < j ==> #[trigger] codebook.centroids@[m]@.len()
                            == subvector_dimension,
                decreases codebook.centroids@.len() - j,
            {
                if codebook.centroids[j].len() != subvector_dimension {
                    assert(!self.codebook_fits(i as int));
                    return Err(invalid_config("PQ codebook layout is inconsistent"));
                }
                j += 1;
            }
            assert(self.codebook_fits(i as int));
            i += 1;
        }
        Ok(())
    }

    /// Centroid `code[i]` of codebook `i`, for each of the first `count`
    /// subspaces, concatenated.
    pub open spec fn spec_reconstruction(&self, code: Seq<u8>, count: nat) -> Seq<u32>
        decreases count,
    {
        if count == 0 {
            Seq::empty()
        } else {
            self.spec_reconstruction(code, (count - 1) as nat) + self.codebooks@[count
                - 1].centroids@[code[count - 1] as int]@
        }
    }

    /// Coordinate `j` of subvector `s` of a reconstruction is coordinate `j`
    /// of centroid `code[s]` of codebook `s`.
    pub proof fn lemma_reconstruction_entries(&self, code: Seq<u8>, count: nat)
        requires
            self.is_valid(),
            count <= self.subspaces,
            code.len() == self.subspaces,
            forall|i: int| 0 <= i < code.len() ==> (#[trigger] code[i]) < self.centroids_per_subspace,
        ensures
            forall|s: int, j: int|
                0 <= s < count && 0 <= j < self.dimension / self.subspaces ==> self.spec_reconstruction(
                    code,
                    count,
                )[s * (self.dimension / self.subspaces) + j]
                    == #[trigger] self.codebooks@[s].centroids@[code[s] as int]@[j],
        decreases count,
    {
        if count > 0 {
            let d = self.dimension / self.subspaces;
            let previous = (count - 1) as nat;
            self.lemma_reconstruction_entries(code, previous);
            self.lemma_reconstruction_len(code, previous);
            let head = self.spec_reconstruction(code, previous);
            let last = self.codebooks@[count - 1].centroids@[code[count - 1] as int]@;
            assert(self.codebook_fits(count - 1));
            assert(last.len() == d);
            assert forall|s: int, j: int| 0 <= s < count && 0 <= j < d implies self.spec_reconstruction(
                code,
                count,
            )[s * d + j] == #[trigger] self.codebooks@[s].centroids@[code[s] as int]@[j] by {
                if s < previous {
                    assert(s * d + j < previous * d) by (nonlinear_arith)
                        requires
                            s + 1 <= previous,
                            0 <= j < d,
                    ;
                    assert(0 <= s * d) by (nonlinear_arith)
                        requires
                            0 <= s,
                            0 <= d,
                    ;
                } else {
                    assert(s * d == previous * d);
                }
            }
        }
    }

    /// A reconstruction of `count` valid subspaces has `count` subvectors of
    /// coordinates.
    pub proof fn lemma_reconstruction_len(&self, code: Seq<u8>, count: nat)
        requires
            self.is_valid(),
            count <= self.subspaces,
            code.len() == self.subspaces,
            forall|i: int| 0 <= i < code.len() ==> (#[trigger] code[i]) < self.centroids_per_subspace,
        ensures
            self.spec_reconstruction(code, count).len() == count * (self.dimension / self.subspaces),
        decreases count,
    {
        if count > 0 {
            self.lemma_reconstruction_len(code, (count - 1) as nat);
            assert(self.codebook_fits(count - 1));
            assert(code[count - 1] < self.centroids_per_subspace);
            assert(self.codebooks@[count - 1].centroids@[code[count - 1] as int]@.len()
                == self.dimension / self.subspaces);
            let d = self.dimension / self.subspaces;
            let previous = (count - 1) as nat;
            assert(self.spec_reconstruction(code, count).len() == self.spec_reconstruction(
                code,
                previous,
            ).len() + d);
            assert(previous * d + d == count * d) by (nonlinear_arith)
                requires
                    previous + 1 == count,
            ;
        } else {
            let d = self.dimension / self.subspaces;
            assert(count * d == 0) by (nonlinear_arith)
                requires
                    count == 0,
            ;
        }
    }
}

/// Decodes `code`: the centroids it names, one per subspace, concatenated.
/// A valid reconstruction has the quantizer's dimension.
pub fn reconstruct(quantizer: &ProductQuantizer, code: &[u8]) -> (reconstructed: Result<
    Vec<u32>,
    AppError,
>)
    ensures
        match reconstructed {
            Ok(r) => {
                &&& quantizer.is_valid()
                &&& code@.len() == quantizer.subspaces
                &&& forall|i: int|
                    0 <= i < code@.len() ==> (#[trigger] code@[i]) < quantizer.centroids_per_subspace
                &&& r@ == quantizer.spec_reconstruction(code@, code@.len())
                &&& r@.len() == quantizer.dimension
                &&& forall|s: int, j: int|
                    0 <= s < quantizer.subspaces && 0 <= j < quantizer.dimension / quantizer.subspaces
                        ==> r@[s * (quantizer.dimension / quantizer.subspaces) + j]
                        == #[trigger] quantizer.codebooks@[s].centroids@[code@[s] as int]@[j]
            },
            Err(e) => if !quantizer.is_valid() {
                quantizer.validate_error(e)
            } else if code@.len() != quantizer.subspaces {
                is_invalid_pq_code(e, "code must contain one centroid ID per subspace"@)
            } else {
                &&& exists|i: int|
                    0 <= i < code@.len() && (#[trigger] code@[i]) >= quantizer.centroids_per_subspace
                &&& is_invalid_pq_code(e, "centroid ID is out of range"@)
            },
        },
{
    match quantizer.validate() {
        Ok(()) => {},
        Err(e) => {
            return Err(e);
        },
    }
    if code.len() != quantizer.subspaces {
        return Err(invalid_pq_code("code must contain one centroid ID per subspace"));
    }
    let mut reconstructed: Vec<u32> = Vec::new();
    let mut i: usize = 0;
    while i < code.len()
        invariant
            quantizer.is_valid(),
            code@.len() == quantizer.subspaces,
            i <= code@.len(),
            forall|k: int| 0 <= k < i ==> (#[trigger] code@[k]) < quantizer.centroids_per_subspace,
            reconstructed@ == quantizer.spec_reconstruction(code@, i as nat),
        decreases code@.len() - i,
    {
        let centroids = &quantizer.codebooks[i].centroids;
        let centroid_id = code[i] as usize;
        assert(quantizer.codebook_fits(i as int));
        if centroid_id >= centroids.len() {
            return Err(invalid_pq_code("centroid ID is out of range"));
        }
        let centroid = &centroids[centroid_id];
        let ghost before = reconstructed@;
        let mut k: usize = 0;
        while k < centroid.len()
            invariant
                k <= centroid@.len(),
                reconstructed@ == before + centroid@.take(k as int),
            decreases centroid@.len() - k,
        {
            reconstructed.push(centroid[k]);
            k += 1;
            assert(centroid@.take(k as int) == centroid@.take(k - 1).push(centroid@[k - 1]));
        }
        assert(centroid@.take(centroid@.len() as int) == centroid@);
        i += 1;
    }
    proof {
        quantizer.lemma_reconstruction_len(code@, code@.len());
        quantizer.lemma_reconstruction_entries(code@, code@.len());
        vstd::arithmetic::div_mod::lemma_fundamental_div_mod(
            quantizer.dimension as int,
            quantizer.subspaces as int,
        );
        assert(quantizer.subspaces * (quantizer.dimension / quantizer.subspaces) == (
        quantizer.dimension / quantizer.subspaces) * quantizer.subspaces) by (nonlinear_arith);
    }
    Ok(reconstructed)
}

impl ProductQuantizer {
    /// `e` is the error `validate` returns for this quantizer.
    pub open spec fn validate_error(&self, e: AppError) -> bool {
        if self.subspaces == 0 || self.dimension % self.subspaces != 0 {
            is_invalid_config(e, "PQ dimension must be divisible by positive subspaces"@)
        } else if self.centroids_per_subspace == 0 || self.centroids_per_subspace > 256 {
            is_invalid_config(e, "PQ centroid count must be in 1..=256"@)
        } else if self.codebooks@.len() != self.subspaces {
            is_invalid_config(e, "PQ must contain one codebook per subspace"@)
        } else {
            is_invalid_config(e, "PQ codebook layout is inconsistent"@)
        }
    }
}

/// For each of the `code_count` consecutive groups of `centroid_count`
/// distances, the index of the nearest centroid: the first distance `<` all
/// before it in a scan that starts from positive infinity (see
/// `first_nearest_from`).
pub open spec fn spec_nearest_codes(distances: Seq<u32>, centroid_count: nat, code_count: nat) -> Seq<u8> {
    Seq::new(
        code_count,
        |p: int|
            first_nearest_from(
                distances.subrange(p * centroid_count, p * centroid_count + centroid_count),
                0,
                0,
                POSITIVE_INFINITY_BITS,
            ) as u8,
    )
}

/// `n * m * k * (d / m) == n * k * d` when `m` divides `d`.
proof fn lemma_encoding_work(n: int, m: int, k: int, d: int)
    requires
        m > 0,
        d % m == 0,
        n >= 0,
        k >= 0,
    ensures
        n * m * k * (d / m) == n * k * d,
{
    vstd::arithmetic::div_mod::lemma_fundamental_div_mod(d, m);
    assert(n * m * k * (d / m) == n * k * (m * (d / m))) by (nonlinear_arith);
}

/// Encodes every vector of `database`: each subvector becomes the id of its
/// nearest centroid.  `distances` holds, for vector `v`, subspace `s` and
/// centroid `c`, at position `(v * subspaces + s) * centroids_per_subspace + c`,
/// the squared distance between subvector `s` of vector `v` and centroid `c`
/// of codebook `s`.
pub fn encode(quantizer: &ProductQuantizer, database: &VectorSet, distances: &[u32]) -> (encoded:
    Result<(PqIndex, EncodingCounters), AppError>)
    requires
        quantizer.is_valid() && database.spec_dimension() == quantizer.dimension ==> distances@.len()
            == database.spec_len() * quantizer.subspaces * quantizer.centroids_per_subspace,
        quantizer.is_valid() && database.spec_dimension() == quantizer.dimension ==> database.spec_len()
            * quantizer.centroids_per_subspace * quantizer.dimension <= u64::MAX,
    ensures
        match encoded {
            Ok((index, counters)) => {
                &&& quantizer.is_valid()
                &&& database.spec_dimension() == quantizer.dimension
                &&& index.spec_subspaces() == quantizer.subspaces
                &&& index.spec_len() == database.spec_len()
                &&& index.spec_codes() == spec_nearest_codes(
                    distances@,
                    quantizer.centroids_per_subspace as nat,
                    database.spec_len() * (quantizer.subspaces as nat),
                )
                &&& forall|i: int|
                    0 <= i < index.spec_codes().len() ==> (#[trigger] index.spec_codes()[i])
                        < quantizer.centroids_per_subspace
                &&& forall|i: int|
                    0 <= i < index.spec_codes().len() ==> {
                        let k = quantizer.centroids_per_subspace as int;
                        let group = distances@.subrange(i * k, i * k + k);
                        (forall|j: int| 0 <= j < group.len() ==> !is_nan_bits(#[trigger] group[j]))
                            ==> is_lowest_minimum(group, #[trigger] index.spec_codes()[i] as int)
                    }
                &&& counters.vectors_encoded == database.spec_len()
                &&& counters.centroid_comparisons == database.spec_len() * quantizer.subspaces
                    * quantizer.centroids_per_subspace
                &&& counters.coordinate_distance_operations == database.spec_len()
                    * quantizer.subspaces * quantizer.centroids_per_subspace * (quantizer.dimension
                    / quantizer.subspaces)
            },
            Err(e) => if !quantizer.is_valid() {
                quantizer.validate_error(e)
            } else {
                &&& database.spec_dimension() != quantizer.dimension
                &&& e == AppError::DimensionMismatch {
                    expected: quantizer.dimension,
                    actual: database.spec_dimension() as usize,
                }
            },
        },
{
    match quantizer.validate() {
        Ok(()) => {},
        Err(e) => {
            return Err(e);
        },
    }
    if database.dimension() != quantizer.dimension {
        return Err(
            AppError::DimensionMismatch { expected: quantizer.dimension, actual: database.dimension() },
        );
    }
    let vector_count = database.len();
    let subspaces = quantizer.subspaces;
    let centroid_count = quantizer.centroids_per_subspace;
    let subvector_dimension = quantizer.subvector_dimension();
    assert(vector_count * centroid_count * quantizer.dimension <= u64::MAX);
    let code_count = distances.len() / centroid_count;
    proof {
        vstd::arithmetic::div_mod::lemma_div_multiples_vanish(
            (vector_count * subspaces) as int,
            centroid_count as int,
        );
        assert(vector_count * subspaces * centroid_count == centroid_count * (vector_count
            * subspaces)) by (nonlinear_arith);
    }
    assert(code_count == vector_count * subspaces);
    let ghost expected = spec_nearest_codes(distances@, centroid_count as nat, code_count as nat);
    let mut codes: Vec<u8> = Vec::new();
    let mut p: usize = 0;
    while p < code_count
        invariant
            p <= code_count,
            0 < centroid_count <= 256,
            distances@.len() == code_count * centroid_count,
            expected == spec_nearest_codes(distances@, centroid_count as nat, code_count as nat),
            codes@ == expected.take(p as int),
            forall|i: int| 0 <= i < p ==> (#[trigger] codes@[i]) < centroid_count,
            forall|i: int|
                0 <= i < p ==> {
                    let group = distances@.subrange(
                        i * centroid_count,
                        i * centroid_count + centroid_count,
                    );
                    (forall|j: int| 0 <= j < group.len() ==> !is_nan_bits(#[trigger] group[j]))
                        ==> is_lowest_minimum(group, #[trigger] codes@[i] as int)
                },
        decreases code_count - p,
    {
        proof {
            crate::vector::set::lemma_row_in_bounds(
                p as int,
                code_count as int,
                centroid_count as int,
            );
            assert(code_count * centroid_count == distances.len());
        }
        let start = p * centroid_count;
        let group = vstd::slice::slice_subrange(distances, start, start + centroid_count);
        let nearest = scan_nearest(group, 0, 0, POSITIVE_INFINITY_BITS);
        proof {
            if forall|j: int| 0 <= j < group@.len() ==> !is_nan_bits(#[trigger] group@[j]) {
                lemma_first_nearest_is_lowest_minimum(group@);
            }
        }
        codes.push(nearest as u8);
        p += 1;
        assert(codes@ == expected.take(p as int));
    }
    assert(codes@ == expected);
    let ghost codes_view = codes@;
    assert(codes@.len() == subspaces * vector_count) by (nonlinear_arith)
        requires
            codes@.len() == code_count,
            code_count == vector_count * subspaces,
    ;
    let index = match PqIndex::new(subspaces, vector_count, codes) {
        Ok(index) => index,
        Err(e) => {
            return Err(e);
        },
    };
    proof {
        lemma_encoding_work(
            vector_count as int,
            subspaces as int,
            centroid_count as int,
            quantizer.dimension as int,
        );
        assert(vector_count * centroid_count * quantizer.dimension == vector_count * subspaces
            * centroid_count * subvector_dimension);
    }
    let counters = EncodingCounters {
        vectors_encoded: vector_count as u64,
        centroid_comparisons: distances.len() as u64,
        coordinate_distance_operations: (distances.len() as u64) * (subvector_dimension as u64),
    };
    Ok((index, counters))
}

/// Subvector `[start, start + width)` of every vector of `training`,
/// concatenated.
pub open spec fn spec_subspace_data(training: VectorSet, start: int, width: int) -> Seq<u32> {
    Seq::new(training.spec_len(), |v: int| training.spec_vector(v).subrange(start, start + width)).flatten()
}

/// The points k-means trains on for one subspace: the coordinates
/// `[subspace_index * subvector_dimension, (subspace_index + 1) *
/// subvector_dimension)` of every training vector, as vectors of
/// `subvector_dimension` coordinates.
pub fn subspace_points(training: &VectorSet, subspace_index: usize, subvector_dimension: usize) -> (points:
    Result<VectorSet, AppError>)
    requires
        (subspace_index + 1) * subvector_dimension <= training.spec_dimension(),
    ensures
        match points {
            Ok(points) => {
                &&& subvector_dimension > 0
                &&& points.spec_dimension() == subvector_dimension
                &&& points.spec_data() == spec_subspace_data(
                    *training,
                    subspace_index * subvector_dimension,
                    subvector_dimension as int,
                )
                &&& points.spec_len() == training.spec_len()
            },
            Err(e) => {
                &&& subvector_dimension == 0
                &&& is_invalid_config(e, "vector dimension must be positive"@)
            },
        },
{
    let vector_count = training.len();
    let dimension = training.dimension();
    proof {
        assert((subspace_index + 1) * subvector_dimension == subspace_index * subvector_dimension
            + subvector_dimension) by (nonlinear_arith);
    }
    let start = subspace_index * subvector_dimension;
    let ghost rows = Seq::new(
        training.spec_len(),
        |v: int| training.spec_vector(v).subrange(start as int, start + subvector_dimension),
    );
    let mut data: Vec<u32> = Vec::new();
    let mut v: usize = 0;
    while v < vector_count
        invariant
            v <= vector_count,
            vector_count == training.spec_len(),
            dimension == training.spec_dimension(),
            start + subvector_dimension <= dimension,
            training.spec_data().len() == vector_count * dimension,
            all_finite(training.spec_data()),
            rows == Seq::new(
                training.spec_len(),
                |w: int| training.spec_vector(w).subrange(start as int, start + subvector_dimension),
            ),
            data@ == rows.take(v as int).flatten(),
            data@.len() == v * subvector_dimension,
            all_finite(data@),
        decreases vector_count - v,
    {
        let vector = training.vector(v);
        proof {
            crate::vector::set::lemma_row_in_bounds(v as int, vector_count as int, dimension as int);
            assert forall|i: int| 0 <= i < vector@.len() implies is_finite_bits(#[trigger] vector@[i]) by {
                assert(vector@[i] == training.spec_data()[v * dimension + i]);
            }
        }
        let ghost before = data@;
        let mut k: usize = 0;
        while k < subvector_dimension
            invariant
                k <= subvector_dimension,
                start + subvector_dimension <= vector@.len(),
                start + subvector_dimension <= dimension,
                data@ == before + vector@.subrange(start as int, start + k),
                all_finite(before),
                all_finite(vector@),
            decreases subvector_dimension - k,
        {
            data.push(vector[start + k]);
            k += 1;
            assert(vector@.subrange(start as int, start + k) =~= vector@.subrange(
                start as int,
                start + k - 1,
            ).push(vector@[start + k - 1]));
            assert forall|i: int| 0 <= i < data@.len() implies is_finite_bits(#[trigger] data@[i]) by {
                if i >= before.len() {
                    assert(data@[i] == vector@[start + (i - before.len())]);
                }
            }
        }
        proof {
            assert(rows[v as int] == vector@.subrange(start as int, start + subvector_dimension));
            assert(rows.take(v + 1) == rows.take(v as int).push(rows[v as int]));
            rows.take(v as int).lemma_flatten_push(rows[v as int]);
            assert(data@.len() == (v + 1) * subvector_dimension) by (nonlinear_arith)
                requires
                    data@.len() == v * subvector_dimension + subvector_dimension,
            ;
        }
        v += 1;
    }
    proof {
        assert(rows.take(vector_count as int) == rows);
        if subvector_dimension > 0 {
            vstd::arithmetic::div_mod::lemma_mod_multiples_basic(
                vector_count as int,
                subvector_dimension as int,
            );
            vstd::arithmetic::div_mod::lemma_div_multiples_vanish(
                vector_count as int,
                subvector_dimension as int,
            );
            assert(vector_count * subvector_dimension == subvector_dimension * vector_count)
                by (nonlinear_arith);
        }
    }
    VectorSet::new(subvector_dimension, data)
}


/// One k-means run of PQ training: the training points of one subspace, how
/// many centroids to place on them, and the run's seed.
#[derive(Debug)]
pub struct SubspaceJob {
    pub subspace_index: usize,
    pub points: VectorSet,
    pub centroid_count: usize,
    pub seed: u64,
}

/// Job `i` of the training plan for `config` on `training` under
/// `master_seed`.
pub open spec fn planned_job(
    job: SubspaceJob,
    training: VectorSet,
    config: PqConfig,
    master_seed: u64,
    i: int,
) -> bool {
    let width = config.dimension / config.subspaces;
    &&& job.subspace_index == i
    &&& job.centroid_count == config.centroids_per_subspace
    &&& job.seed == spec_derive_kmeans_seed(
        master_seed,
        config.dimension as u64,
        config.subspaces as u64,
        config.centroids_per_subspace as u64,
        i as u64,
    )
    &&& job.points.spec_dimension() == width
    &&& job.points.spec_len() == training.spec_len()
    &&& job.points.spec_data() == spec_subspace_data(training, i * width, width as int)
}

/// The k-means runs that train a quantizer for `config` on `training`: after
/// checking the settings and the training dimension, one run per subspace,
/// in order, on that subspace's coordinates, with the seed derived for it
/// from `master_seed`.
pub fn plan_training(training: &VectorSet, config: &PqConfig, master_seed: u64) -> (jobs: Result<
    Vec<SubspaceJob>,
    AppError,
>)
    ensures
        match jobs {
            Ok(jobs) => {
                &&& config.is_valid(training.spec_len() as usize)
                &&& training.spec_dimension() == config.dimension
                &&& jobs@.len() == config.subspaces
                &&& forall|i: int|
                    0 <= i < jobs@.len() ==> planned_job(
                        #[trigger] jobs@[i],
                        *training,
                        *config,
                        master_seed,
                        i,
                    )
            },
            Err(e) => if !config.is_valid(training.spec_len() as usize) {
                config.validate_error(training.spec_len() as usize, e)
            } else {
                &&& training.spec_dimension() != config.dimension
                &&& e == AppError::DimensionMismatch {
                    expected: config.dimension,
                    actual: training.spec_dimension() as usize,
                }
            },
        },
{
    let vector_count = training.len();
    match config.validate(vector_count) {
        Ok(()) => {},
        Err(e) => {
            return Err(e);
        },
    }
    if training.dimension() != config.dimension {
        return Err(
            AppError::DimensionMismatch { expected: config.dimension, actual: training.dimension() },
        );
    }
    let subspaces = config.subspaces;
    let width = config.subvector_dimension();
    proof {
        assert(width > 0 && width * subspaces == config.dimension) by {
            vstd::arithmetic::div_mod::lemma_fundamental_div_mod(
                config.dimension as int,
                subspaces as int,
            );
        }
    }
    let mut jobs: Vec<SubspaceJob> = Vec::new();
    let mut i: usize = 0;
    while i < subspaces
        invariant
            i <= subspaces,
            subspaces == config.subspaces,
            width == config.dimension / config.subspaces,
            width > 0,
            width * subspaces == config.dimension,
            training.spec_dimension() == config.dimension,
            jobs@.len() == i,
            forall|j: int|
                0 <= j < i ==> planned_job(#[trigger] jobs@[j], *training, *config, master_seed, j),
        decreases subspaces - i,
    {
        proof {
            assert((i + 1) * width <= config.dimension) by (nonlinear_arith)
                requires
                    i + 1 <= subspaces,
                    width > 0,
                    width * subspaces == config.dimension,
            ;
        }
        let points = match subspace_points(training, i, width) {
            Ok(points) => points,
            Err(e) => {
                return Err(e);
            },
        };
        let seed = derive_kmeans_seed(
            master_seed,
            config.dimension,
            subspaces,
            config.centroids_per_subspace,
            i,
        );
        let job = SubspaceJob {
            subspace_index: i,
            points,
            centroid_count: config.centroids_per_subspace,
            seed,
        };
        jobs.push(job);
        i += 1;
    }
    Ok(jobs)
}

/// Centroid lists of the shape a codebook of `config` needs: one list per
/// subspace, each of `centroids_per_subspace` centroids of the subvector
/// dimension.
pub open spec fn fits_codebooks(config: PqConfig, centroids: Seq<Vec<Vec<u32>>>) -> bool {
    &&& centroids.len() == config.subspaces
    &&& forall|i: int|
        #![trigger centroids[i]]
        0 <= i < centroids.len() ==> {
            &&& centroids[i]@.len() == config.centroids_per_subspace
            &&& forall|j: int|
                0 <= j < centroids[i]@.len() ==> (#[trigger] centroids[i]@[j])@.len()
                    == config.dimension / config.subspaces
        }
}

/// The quantizer of `config` whose codebook `i` holds `centroids[i]`.  It
/// passes `validate` when the subspaces divide the dimension, there are at
/// most 256 centroids per subspace, and the centroid lists have the shape
/// the settings ask for.
pub fn assemble_quantizer(config: &PqConfig, centroids: Vec<Vec<Vec<u32>>>) -> (quantizer:
    ProductQuantizer)
    requires
        config.subspaces > 0,
    ensures
        quantizer.dimension == config.dimension,
        quantizer.subspaces == config.subspaces,
        quantizer.centroids_per_subspace == config.centroids_per_subspace,
        quantizer.codebooks@.len() == centroids@.len(),
        forall|i: int|
            0 <= i < centroids@.len() ==> #[trigger] quantizer.codebooks@[i] == (SubspaceCodebook {
                subspace_index: i as usize,
                subvector_dimension: config.dimension / config.subspaces,
                centroids: centroids@[i],
            }),
        config.dimension % config.subspaces == 0 && 0 < config.centroids_per_subspace <= 256
            && fits_codebooks(*config, centroids@) ==> quantizer.is_valid(),
{
    let width = config.subvector_dimension();
    let ghost lists = centroids@;
    assert(lists.len() == centroids.len());
    let mut codebooks: Vec<SubspaceCodebook> = Vec::new();
    let mut rest = centroids;
    let mut i: usize = 0;
    while rest.len() > 0
        invariant
            i + rest@.len() == lists.len(),
            lists.len() <= usize::MAX,
            rest@ == lists.skip(i as int),
            codebooks@.len() == i,
            width == config.dimension / config.subspaces,
            forall|k: int|
                0 <= k < i ==> #[trigger] codebooks@[k] == (SubspaceCodebook {
                    subspace_index: k as usize,
                    subvector_dimension: width,
                    centroids: lists[k],
                }),
        decreases rest@.len(),
    {
        let list = rest.remove(0);
        codebooks.push(SubspaceCodebook { subspace_index: i, subvector_dimension: width, centroids: list });
        i += 1;
        assert(rest@ == lists.skip(i as int));
    }
    let quantizer = ProductQuantizer {
        dimension: config.dimension,
        subspaces: config.subspaces,
        centroids_per_subspace: config.centroids_per_subspace,
        codebooks,
    };
    proof {
        if config.dimension % config.subspaces == 0 && 0 < config.centroids_per_subspace <= 256
            && fits_codebooks(*config, lists) {
            assert forall|k: int| 0 <= k < quantizer.subspaces implies #[trigger] quantizer.codebook_fits(k) by {
                assert(lists[k]@.len() == config.centroids_per_subspace);
            }
        }
    }
    quantizer
}

} // verus!
