//! A set of equal-length vectors stored row after row.

use vstd::prelude::*;
use crate::error::{AppError, is_invalid_config, invalid_config};
use crate::vector::float_bits::{is_finite_bits, bits_are_finite};

verus! {

/// Every coordinate is finite.
pub open spec fn all_finite(data: Seq<u32>) -> bool {
    forall|i: int| 0 <= i < data.len() ==> is_finite_bits(#[trigger] data[i])
}

/// The row-after-row concatenation of `vectors`.
pub open spec fn flatten_rows(vectors: Seq<Vec<u32>>) -> Seq<u32> {
    vectors.map_values(|v: Vec<u32>| v@).flatten()
}

/// Row `index` of a row-major layout with rows of `dimension` coordinates.
pub open spec fn row(data: Seq<u32>, dimension: nat, index: int) -> Seq<u32> {
    data.subrange(index * dimension, index * dimension + dimension)
}

/// `index < rows` rows of `dimension` coordinates end within `rows * dimension`.
pub proof fn lemma_row_in_bounds(index: int, rows: int, dimension: int)
    requires
        0 <= index < rows,
        0 <= dimension,
    ensures
        0 <= index * dimension,
        index * dimension + dimension <= rows * dimension,
{
    assert(0 <= index * dimension) by (nonlinear_arith)
        requires
            0 <= index,
            0 <= dimension,
    ;
    assert(index * dimension + dimension <= rows * dimension) by (nonlinear_arith)
        requires
            index + 1 <= rows,
            0 <= dimension,
    ;
}

/// Rows of one length `m`, concatenated, hold row `i` at `[i * m, i * m + m)`.
pub proof fn lemma_flatten_equal_rows<A>(rows: Seq<Seq<A>>, m: nat)
    requires
        forall|i: int| 0 <= i < rows.len() ==> (#[trigger] rows[i]).len() == m,
    ensures
        rows.flatten().len() == rows.len() * m,
        forall|i: int|
            0 <= i < rows.len() ==> (#[trigger] rows.flatten().subrange(i * m, i * m + m))
                == rows[i],
    decreases rows.len(),
{
    if rows.len() > 0 {
        let init = rows.drop_last();
        let last = rows.last();
        lemma_flatten_equal_rows(init, m);
        assert(rows =~= init.push(last));
        init.lemma_flatten_push(last);
        let head = init.flatten();
        assert(rows.flatten() == head + last);
        assert(rows.flatten().len() == rows.len() * m) by (nonlinear_arith)
            requires
                rows.flatten().len() == init.len() * m + m,
                rows.len() == init.len() + 1,
        ;
        assert forall|i: int| 0 <= i < rows.len() implies (#[trigger] rows.flatten().subrange(
            i * m,
            i * m + m,
        )) == rows[i] by {
            if i < init.len() {
                assert(i * m + m <= init.len() * m) by (nonlinear_arith)
                    requires
                        i + 1 <= init.len(),
                ;
                assert(init.flatten().subrange(i * m, i * m + m) == init[i]);
                assert(rows.flatten().subrange(i * m, i * m + m) =~= head.subrange(i * m, i * m + m));
            } else {
                assert(i * m == init.len() * m);
                assert(rows.flatten().subrange(i * m, i * m + m) =~= last);
            }
        }
    }
}

/// Vectors of one positive dimension with finite coordinates (`f32` bit
/// patterns), stored row after row.
#[derive(Debug, PartialEq, Eq)]
pub struct VectorSet {
    dimension: usize,
    data: Vec<u32>,
}

impl Clone for VectorSet {
    fn clone(&self) -> (copy: Self)
        ensures
            copy.spec_dimension() == self.spec_dimension(),
            copy.spec_data() == self.spec_data(),
    {
        self.duplicate()
    }
}

impl VectorSet {
    #[verifier::type_invariant]
    spec fn shape_holds(self) -> bool {
        &&& self.dimension > 0
        &&& self.data@.len() % (self.dimension as nat) == 0
        &&& all_finite(self.data@)
    }

    /// The number of coordinates of each vector.
    pub closed spec fn spec_dimension(&self) -> nat {
        self.dimension as nat
    }

    /// All coordinates, row after row.
    pub closed spec fn spec_data(&self) -> Seq<u32> {
        self.data@
    }

    /// The number of vectors.
    pub open spec fn spec_len(&self) -> nat {
        self.spec_data().len() / self.spec_dimension()
    }

    /// Vector `index`.
    pub open spec fn spec_vector(&self, index: int) -> Seq<u32> {
        row(self.spec_data(), self.spec_dimension(), index)
    }

    /// The row count times the dimension gives back the length.
    proof fn lemma_rows_fill(len: nat, dimension: nat)
        requires
            dimension > 0,
            len % dimension == 0,
        ensures
            len == (len / dimension) * dimension,
    {
        vstd::arithmetic::div_mod::lemma_fundamental_div_mod(len as int, dimension as int);
        assert((len / dimension) * dimension == dimension * (len / dimension)) by (nonlinear_arith);
    }

    /// Checks and wraps `data` as vectors of `dimension` coordinates.
    pub fn new(dimension: usize, data: Vec<u32>) -> (set: Result<Self, AppError>)
        ensures
            match set {
                Ok(set) => {
                    &&& dimension > 0
                    &&& data@.len() % (dimension as nat) == 0
                    &&& all_finite(data@)
                    &&& set.spec_dimension() == dimension
                    &&& set.spec_data() == data@
                },
                Err(e) => if dimension == 0 {
                    is_invalid_config(e, "vector dimension must be positive"@)
                } else if data@.len() % (dimension as nat) != 0 {
                    e == AppError::DimensionMismatch {
                        expected: dimension,
                        actual: (data@.len() % (dimension as nat)) as usize,
                    }
                } else {
                    !all_finite(data@) && is_invalid_config(
                        e,
                        "vector coordinates must be finite"@,
                    )
                },
            },
    {
        if dimension == 0 {
            return Err(invalid_config("vector dimension must be positive"));
        }
        if data.len() % dimension != 0 {
            return Err(AppError::DimensionMismatch { expected: dimension, actual: data.len() % dimension });
        }
        let mut i: usize = 0;
        while i < data.len()
            invariant
                i <= data@.len(),
                dimension > 0,
                data@.len() % (dimension as nat) == 0,
                forall|j: int| 0 <= j < i ==> is_finite_bits(#[trigger] data@[j]),
            decreases data@.len() - i,
        {
            if !bits_are_finite(data[i]) {
                assert(!is_finite_bits(data@[i as int]));
                return Err(invalid_config("vector coordinates must be finite"));
            }
            i += 1;
        }
        Ok(VectorSet { dimension, data })
    }

    /// Checks and concatenates vectors of one common, positive length.
    pub fn from_vectors(vectors: Vec<Vec<u32>>) -> (set: Result<Self, AppError>)
        ensures
            match set {
                Ok(set) => {
                    &&& vectors@.len() > 0
                    &&& vectors@[0]@.len() > 0
                    &&& forall|i: int|
                        0 <= i < vectors@.len() ==> #[trigger] vectors@[i]@.len()
                            == vectors@[0]@.len()
                    &&& all_finite(flatten_rows(vectors@))
                    &&& set.spec_dimension() == vectors@[0]@.len()
                    &&& set.spec_data() == flatten_rows(vectors@)
                    &&& set.spec_len() == vectors@.len()
                    &&& forall|i: int|
                        0 <= i < vectors@.len() ==> #[trigger] set.spec_vector(i) == vectors@[i]@
                },
                Err(e) => if vectors@.len() == 0 || vectors@[0]@.len() == 0 {
                    is_invalid_config(e, "vector set must contain non-empty vectors"@)
                } else if exists|i: int|
                    0 <= i < vectors@.len() && #[trigger] vectors@[i]@.len()
                        != vectors@[0]@.len() {
                    let i = choose|i: int|
                        0 <= i < vectors@.len() && #[trigger] vectors@[i]@.len()
                            != vectors@[0]@.len() && forall|j: int|
                            0 <= j < i ==> #[trigger] vectors@[j]@.len() == vectors@[0]@.len();
                    e == AppError::DimensionMismatch {
                        expected: vectors@[0]@.len() as usize,
                        actual: vectors@[i]@.len() as usize,
                    }
                } else {
                    !all_finite(flatten_rows(vectors@)) && is_invalid_config(
                        e,
                        "vector coordinates must be finite"@,
                    )
                },
            },
    {
        if vectors.len() == 0 || vectors[0].len() == 0 {
            return Err(invalid_config("vector set must contain non-empty vectors"));
        }
        let dimension = vectors[0].len();
        let ghost rows = vectors@.map_values(|v: Vec<u32>| v@);
        let mut data: Vec<u32> = Vec::new();
        let mut i: usize = 0;
        while i < vectors.len()
            invariant
                i <= vectors@.len(),
                vectors@.len() > 0,
                dimension > 0,
                dimension == vectors@[0]@.len(),
                rows == vectors@.map_values(|v: Vec<u32>| v@),
                forall|j: int| 0 <= j < i ==> #[trigger] vectors@[j]@.len() == dimension,
                data@ == rows.take(i as int).flatten(),
                data@.len() == i * dimension,
            decreases vectors@.len() - i,
        {
            let vector = &vectors[i];
            if vector.len() != dimension {
                proof {
                    assert(vectors@[i as int]@.len() != vectors@[0]@.len());
                    let w = choose|w: int|
                        0 <= w < vectors@.len() && #[trigger] vectors@[w]@.len()
                            != vectors@[0]@.len() && forall|j: int|
                            0 <= j < w ==> #[trigger] vectors@[j]@.len() == vectors@[0]@.len();
                    assert(0 <= i < vectors@.len() && vectors@[i as int]@.len() != vectors@[0]@.len()
                        && forall|j: int|
                        0 <= j < i ==> #[trigger] vectors@[j]@.len() == vectors@[0]@.len());
                    if w < i {
                        assert(vectors@[w]@.len() == dimension);
                    }
                    if w > i {
                        assert(vectors@[i as int]@.len() == dimension);
                    }
                }
                return Err(AppError::DimensionMismatch { expected: dimension, actual: vector.len() });
            }
            let ghost before = data@;
            let mut k: usize = 0;
            while k < vector.len()
                invariant
                    k <= vector@.len(),
                    data@ == before + vector@.take(k as int),
                decreases vector@.len() - k,
            {
                data.push(vector[k]);
                k += 1;
                assert(vector@.take(k as int) == vector@.take(k - 1).push(vector@[k - 1]));
            }
            proof {
                assert(vector@.take(vector@.len() as int) == vector@);
                assert(rows.take(i + 1) == rows.take(i as int).push(rows[i as int]));
                rows.take(i as int).lemma_flatten_push(rows[i as int]);
                assert(data@.len() == (i + 1) * dimension) by (nonlinear_arith)
                    requires
                        data@.len() == i * dimension + dimension,
                ;
            }
            i += 1;
        }
        proof {
            assert(rows.take(vectors@.len() as int) == rows);
            assert(data@.len() % (dimension as nat) == 0) by {
                vstd::arithmetic::div_mod::lemma_mod_multiples_basic(
                    vectors@.len() as int,
                    dimension as int,
                );
            }
        }
        let set = Self::new(dimension, data);
        proof {
            assert(!(exists|i: int|
                0 <= i < vectors@.len() && #[trigger] vectors@[i]@.len() != vectors@[0]@.len()));
            lemma_flatten_equal_rows(rows, dimension as nat);
            vstd::arithmetic::div_mod::lemma_div_multiples_vanish(
                vectors@.len() as int,
                dimension as int,
            );
            assert(vectors@.len() * dimension == dimension * vectors@.len()) by (nonlinear_arith);
        }
        set
    }

    /// A copy of this set.
    pub fn duplicate(&self) -> (copy: Self)
        ensures
            copy.spec_dimension() == self.spec_dimension(),
            copy.spec_data() == self.spec_data(),
    {
        proof {
            use_type_invariant(self);
        }
        let mut data: Vec<u32> = Vec::new();
        let mut i: usize = 0;
        while i < self.data.len()
            invariant
                i <= self.data@.len(),
                data@ == self.data@.take(i as int),
            decreases self.data@.len() - i,
        {
            data.push(self.data[i]);
            i += 1;
            assert(data@ == self.data@.take(i as int));
        }
        assert(self.data@.take(self.data@.len() as int) == self.data@);
        VectorSet { dimension: self.dimension, data }
    }

    /// The number of coordinates of each vector.
    pub fn dimension(&self) -> (dimension: usize)
        ensures
            dimension == self.spec_dimension(),
            dimension > 0,
    {
        proof {
            use_type_invariant(self);
        }
        self.dimension
    }

    /// The number of vectors.
    pub fn len(&self) -> (len: usize)
        ensures
            len == self.spec_len(),
            self.spec_dimension() > 0,
            self.spec_data().len() == len * self.spec_dimension(),
            all_finite(self.spec_data()),
    {
        proof {
            use_type_invariant(self);
            Self::lemma_rows_fill(self.data@.len(), self.dimension as nat);
        }
        self.data.len() / self.dimension
    }

    /// Whether the set holds no vector.
    pub fn is_empty(&self) -> (empty: bool)
        ensures
            empty == (self.spec_len() == 0),
    {
        proof {
            use_type_invariant(self);
            Self::lemma_rows_fill(self.data@.len(), self.dimension as nat);
            let rows = self.data@.len() / (self.dimension as nat);
            if rows == 0 {
                assert(rows * (self.dimension as nat) == 0) by (nonlinear_arith)
                    requires
                        rows == 0,
                ;
            }
        }
        self.data.len() == 0
    }

    /// Vector `index`.
    pub fn vector(&self, index: usize) -> (vector: &[u32])
        requires
            index < self.spec_len(),
        ensures
            vector@ == self.spec_vector(index as int),
            vector@.len() == self.spec_dimension(),
    {
        proof {
            use_type_invariant(self);
            Self::lemma_rows_fill(self.data@.len(), self.dimension as nat);
            lemma_row_in_bounds(index as int, self.spec_len() as int, self.dimension as int);
            assert(self.spec_len() * self.spec_dimension() == self.data@.len());
            assert(index * self.dimension + self.dimension <= self.data.len());
        }
        let start = index * self.dimension;
        vstd::slice::slice_subrange(self.data.as_slice(), start, start + self.dimension)
    }

    /// All coordinates, row after row.
    pub fn data(&self) -> (data: &[u32])
        ensures
            data@ == self.spec_data(),
    {
        self.data.as_slice()
    }
}

} // verus!
