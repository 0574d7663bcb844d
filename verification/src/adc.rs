//! Asymmetric distance computation: per-query distance tables and code scans.

use vstd::prelude::*;
use crate::error::{AppError, is_invalid_config, is_invalid_pq_code, invalid_config, invalid_pq_code};
use crate::pq::{PqIndex, ProductQuantizer};
use crate::vector::{Neighbor, VectorSet};
use crate::vector::top_k::{is_ranked_best, indexed_pool, rank_by_distance};

verus! {

/// Squared distances (`f32` bit patterns) between the subvectors of one
/// query and every centroid: entry `subspace * centroids_per_subspace +
/// centroid_id`.
#[derive(Clone, Debug, PartialEq)]
pub struct AdcDistanceTable {
    pub subspaces: usize,
    pub centroids_per_subspace: usize,
    pub distances: Vec<u32>,
}

/// Work done building distance tables.
#[derive(Clone, Copy, Debug, PartialEq, Eq)]
pub struct AdcTableCounters {
    pub centroid_distances: u64,
    pub coordinate_distance_operations: u64,
}

/// Work done scanning codes.
#[derive(Clone, Copy, Debug, PartialEq, Eq)]
pub struct AdcSearchCounters {
    pub codes_scanned: u64,
    pub table_lookups: u64,
    pub distance_additions: u64,
}

impl Default for AdcTableCounters {
    fn default() -> (counters: Self)
        ensures
            counters.centroid_distances == 0,
            counters.coordinate_distance_operations == 0,
    {
        AdcTableCounters { centroid_distances: 0, coordinate_distance_operations: 0 }
    }
}

impl Default for AdcSearchCounters {
    fn default() -> (counters: Self)
        ensures
            counters.codes_scanned == 0,
            counters.table_lookups == 0,
            counters.distance_additions == 0,
    {
        AdcSearchCounters { codes_scanned: 0, table_lookups: 0, distance_additions: 0 }
    }
}

impl AdcDistanceTable {
    /// The table has one entry per subspace and centroid.
    pub open spec fn is_complete(&self) -> bool {
        self.distances@.len() == self.subspaces * self.centroids_per_subspace
    }

    /// The entry of centroid `centroid_id` of subspace `subspace`.
    pub open spec fn spec_distance(&self, subspace: int, centroid_id: int) -> u32 {
        self.distances@[subspace * self.centroids_per_subspace + centroid_id]
    }

    /// The entry of centroid `centroid_id` of subspace `subspace`.
    pub fn distance(&self, subspace: usize, centroid_id: usize) -> (distance: u32)
        requires
            subspace * self.centroids_per_subspace + centroid_id < self.distances@.len(),
        ensures
            distance == self.spec_distance(subspace as int, centroid_id as int),
    {
        assert(subspace * self.centroids_per_subspace + centroid_id < self.distances.len());
        self.distances[subspace * self.centroids_per_subspace + centroid_id]
    }
}

/// Wraps the distances between one query and all centroids as a table.
/// `distances[s * centroids_per_subspace + c]` is the squared distance
/// between subvector `s` of `query` and centroid `c` of codebook `s`.
pub fn build_distance_table(
    quantizer: &ProductQuantizer,
    query: &[u32],
    distances: Vec<u32>,
    counters: &mut AdcTableCounters,
) -> (table: Result<AdcDistanceTable, AppError>)
    requires
        quantizer.is_valid() && query@.len() == quantizer.dimension ==> distances@.len()
            == quantizer.subspaces * quantizer.centroids_per_subspace,
        quantizer.is_valid() && query@.len() == quantizer.dimension ==> {
            &&& old(counters).centroid_distances + quantizer.subspaces
                * quantizer.centroids_per_subspace <= u64::MAX
            &&& old(counters).coordinate_distance_operations + quantizer.centroids_per_subspace
                * quantizer.dimension <= u64::MAX
        },
    ensures
        match table {
            Ok(table) => {
                &&& quantizer.is_valid()
                &&& query@.len() == quantizer.dimension
                &&& table.subspaces == quantizer.subspaces
                &&& table.centroids_per_subspace == quantizer.centroids_per_subspace
                &&& table.distances@ == distances@
                &&& table.is_complete()
                &&& final(counters).centroid_distances == old(counters).centroid_distances
                    + quantizer.subspaces * quantizer.centroids_per_subspace
                &&& final(counters).coordinate_distance_operations
                    == old(counters).coordinate_distance_operations + quantizer.subspaces
                    * quantizer.centroids_per_subspace * (quantizer.dimension
                    / quantizer.subspaces)
            },
            Err(e) => {
                &&& *final(counters) == *old(counters)
                &&& if !quantizer.is_valid() {
                    quantizer.validate_error(e)
                } else {
                    &&& query@.len() != quantizer.dimension
                    &&& e == AppError::DimensionMismatch {
                        expected: quantizer.dimension,
                        actual: query@.len() as usize,
                    }
                }
            },
        },
{
    match quantizer.validate() {
        Ok(()) => {},
        Err(e) => {
            return Err(e);
        },
    }
    if query.len() != quantizer.dimension {
        return Err(AppError::DimensionMismatch { expected: quantizer.dimension, actual: query.len() });
    }
    let entries = distances.len();
    let subvector_dimension = quantizer.subvector_dimension();
    proof {
        vstd::arithmetic::div_mod::lemma_fundamental_div_mod(
            quantizer.dimension as int,
            quantizer.subspaces as int,
        );
        assert(quantizer.subspaces * quantizer.centroids_per_subspace * subvector_dimension
            == quantizer.centroids_per_subspace * (quantizer.subspaces * subvector_dimension))
            by (nonlinear_arith);
    }
    counters.centroid_distances = counters.centroid_distances + entries as u64;
    counters.coordinate_distance_operations = counters.coordinate_distance_operations
        + (entries as u64) * (subvector_dimension as u64);
    Ok(
        AdcDistanceTable {
            subspaces: quantizer.subspaces,
            centroids_per_subspace: quantizer.centroids_per_subspace,
            distances,
        },
    )
}

/// Whether every id of `code` names a centroid of a table `width` wide.
pub open spec fn code_fits(code: Seq<u8>, width: nat) -> bool {
    forall|i: int| 0 <= i < code.len() ==> (#[trigger] code[i]) < width
}

/// Position of the first id of `code` that is `width` or more.
pub open spec fn first_overflowing_id(code: Seq<u8>, width: nat) -> int {
    choose|i: int|
        0 <= i < code.len() && code[i] >= width && forall|j: int|
            0 <= j < i ==> (#[trigger] code[j]) < width
}

/// A code that does not fit has a first overflowing id.
pub proof fn lemma_first_overflowing_id(code: Seq<u8>, width: nat)
    requires
        !code_fits(code, width),
    ensures
        ({
            let f = first_overflowing_id(code, width);
            &&& 0 <= f < code.len()
            &&& code[f] >= width
            &&& forall|j: int| 0 <= j < f ==> (#[trigger] code[j]) < width
        }),
{
    let i = choose|i: int| 0 <= i < code.len() && !((#[trigger] code[i]) < width);
    lemma_first_overflowing_id_below(code, width, i);
}

proof fn lemma_first_overflowing_id_below(code: Seq<u8>, width: nat, i: int)
    requires
        0 <= i < code.len(),
        code[i] >= width,
    ensures
        exists|f: int|
            0 <= f < code.len() && code[f] >= width && forall|j: int|
                0 <= j < f ==> (#[trigger] code[j]) < width,
    decreases i,
{
    if forall|j: int| 0 <= j < i ==> (#[trigger] code[j]) < width {
    } else {
        let j = choose|j: int| 0 <= j < i && !((#[trigger] code[j]) < width);
        lemma_first_overflowing_id_below(code, width, j);
    }
}

/// The table entries that the ids of `code` name, one per subspace.
pub open spec fn spec_lookups(code: Seq<u8>, table: AdcDistanceTable) -> Seq<u32> {
    Seq::new(code.len(), |s: int| table.spec_distance(s, code[s] as int))
}

/// Looks up, for each subspace, the table entry that `code` names: the
/// terms whose sum is the ADC distance.  Each lookup adds one to
/// `table_lookups` and to `distance_additions`.
pub fn code_lookups(code: &[u8], table: &AdcDistanceTable, counters: &mut AdcSearchCounters) -> (terms:
    Result<Vec<u32>, AppError>)
    requires
        table.is_complete(),
        code@.len() == table.subspaces ==> {
            &&& old(counters).table_lookups + code@.len() <= u64::MAX
            &&& old(counters).distance_additions + code@.len() <= u64::MAX
        },
    ensures
        match terms {
            Ok(terms) => {
                &&& code@.len() == table.subspaces
                &&& code_fits(code@, table.centroids_per_subspace as nat)
                &&& terms@ == spec_lookups(code@, *table)
                &&& final(counters).table_lookups == old(counters).table_lookups + code@.len()
                &&& final(counters).distance_additions == old(counters).distance_additions
                    + code@.len()
                &&& final(counters).codes_scanned == old(counters).codes_scanned
            },
            Err(e) => if code@.len() != table.subspaces {
                &&& is_invalid_pq_code(e, "code and ADC table subspace counts differ"@)
                &&& *final(counters) == *old(counters)
            } else {
                let f = first_overflowing_id(code@, table.centroids_per_subspace as nat);
                &&& !code_fits(code@, table.centroids_per_subspace as nat)
                &&& is_invalid_pq_code(e, "centroid ID exceeds ADC table width"@)
                &&& final(counters).table_lookups == old(counters).table_lookups + f
                &&& final(counters).distance_additions == old(counters).distance_additions + f
                &&& final(counters).codes_scanned == old(counters).codes_scanned
            },
        },
{
    if code.len() != table.subspaces {
        return Err(invalid_pq_code("code and ADC table subspace counts differ"));
    }
    let width = table.centroids_per_subspace;
    let mut terms: Vec<u32> = Vec::new();
    let mut s: usize = 0;
    while s < code.len()
        invariant
            s <= code@.len(),
            code@.len() == table.subspaces,
            width == table.centroids_per_subspace,
            table.is_complete(),
            forall|j: int| 0 <= j < s ==> (#[trigger] code@[j]) < width,
            terms@ == spec_lookups(code@, *table).take(s as int),
            counters.table_lookups == old(counters).table_lookups + s,
            counters.distance_additions == old(counters).distance_additions + s,
            counters.codes_scanned == old(counters).codes_scanned,
            old(counters).table_lookups + code@.len() <= u64::MAX,
            old(counters).distance_additions + code@.len() <= u64::MAX,
        decreases code@.len() - s,
    {
        let centroid_id = code[s] as usize;
        if centroid_id >= width {
            proof {
                lemma_first_overflowing_id(code@, width as nat);
                let f = first_overflowing_id(code@, width as nat);
                if f < s {
                    assert(code@[f] < width);
                }
                if f > s {
                    assert(code@[s as int] < width);
                }
            }
            return Err(invalid_pq_code("centroid ID exceeds ADC table width"));
        }
        proof {
            crate::vector::set::lemma_row_in_bounds(s as int, code@.len() as int, width as int);
        }
        terms.push(table.distance(s, centroid_id));
        counters.table_lookups = counters.table_lookups + 1;
        counters.distance_additions = counters.distance_additions + 1;
        s += 1;
        assert(terms@ == spec_lookups(code@, *table).take(s as int));
    }
    assert(terms@ == spec_lookups(code@, *table));
    Ok(terms)
}

/// Whether every code of `index` fits a table `width` wide.
pub open spec fn index_fits(index: PqIndex, width: nat) -> bool {
    forall|v: int| 0 <= v < index.spec_len() ==> code_fits(#[trigger] index.spec_code(v), width)
}

/// The first code of `index` that does not fit a table `width` wide.
pub open spec fn first_overflowing_code(index: PqIndex, width: nat) -> int {
    choose|v: int|
        0 <= v < index.spec_len() && !code_fits(index.spec_code(v), width) && forall|w: int|
            0 <= w < v ==> code_fits(#[trigger] index.spec_code(w), width)
}

proof fn lemma_first_overflowing_code(index: PqIndex, width: nat, v: int)
    requires
        0 <= v < index.spec_len(),
        !code_fits(index.spec_code(v), width),
    ensures
        exists|f: int|
            0 <= f < index.spec_len() && !code_fits(index.spec_code(f), width) && forall|w: int|
                0 <= w < f ==> code_fits(#[trigger] index.spec_code(w), width),
    decreases v,
{
    if forall|w: int| 0 <= w < v ==> code_fits(#[trigger] index.spec_code(w), width) {
    } else {
        let w = choose|w: int| 0 <= w < v && !code_fits(#[trigger] index.spec_code(w), width);
        lemma_first_overflowing_code(index, width, w);
    }
}

/// The `top_k` codes of `index` nearest to the query of `table`, best first,
/// scanning every code.  `code_distances[v]` is the sum of the table entries
/// that code `v` names.  Each code scanned adds one to `codes_scanned` and
/// its lookups to `table_lookups` and `distance_additions`.
pub fn search_adc(
    index: &PqIndex,
    table: &AdcDistanceTable,
    code_distances: &[u32],
    top_k: usize,
    counters: &mut AdcSearchCounters,
) -> (found: Result<Vec<Neighbor>, AppError>)
    requires
        table.is_complete(),
        code_distances@.len() == index.spec_len(),
        index.spec_subspaces() == table.subspaces && 0 < top_k <= index.spec_len() ==> {
            &&& old(counters).codes_scanned + index.spec_len() <= u64::MAX
            &&& old(counters).table_lookups + index.spec_len() * table.subspaces <= u64::MAX
            &&& old(counters).distance_additions + index.spec_len() * table.subspaces <= u64::MAX
        },
    ensures
        match found {
            Ok(neighbors) => {
                &&& index.spec_subspaces() == table.subspaces
                &&& 0 < top_k <= index.spec_len()
                &&& index_fits(*index, table.centroids_per_subspace as nat)
                &&& is_ranked_best(neighbors@, indexed_pool(code_distances@), top_k as nat)
                &&& neighbors@.len() == top_k
                &&& final(counters).codes_scanned == old(counters).codes_scanned + index.spec_len()
                &&& final(counters).table_lookups == old(counters).table_lookups + index.spec_len()
                    * index.spec_subspaces()
                &&& final(counters).distance_additions == old(counters).distance_additions
                    + index.spec_len() * index.spec_subspaces()
            },
            Err(e) => if index.spec_subspaces() != table.subspaces {
                &&& is_invalid_config(e, "PQ index and ADC table subspaces differ"@)
                &&& *final(counters) == *old(counters)
            } else if top_k == 0 || top_k > index.spec_len() {
                &&& is_invalid_config(e, "top-k must be positive and no larger than the PQ index"@)
                &&& *final(counters) == *old(counters)
            } else {
                let v = first_overflowing_code(*index, table.centroids_per_subspace as nat);
                let f = first_overflowing_id(
                    index.spec_code(v),
                    table.centroids_per_subspace as nat,
                );
                &&& !index_fits(*index, table.centroids_per_subspace as nat)
                &&& is_invalid_pq_code(e, "centroid ID exceeds ADC table width"@)
                &&& final(counters).codes_scanned == old(counters).codes_scanned + v
                &&& final(counters).table_lookups == old(counters).table_lookups + v
                    * index.spec_subspaces() + f
                &&& final(counters).distance_additions == old(counters).distance_additions + v
                    * index.spec_subspaces() + f
            },
        },
{
    let subspaces = index.subspaces();
    if subspaces != table.subspaces {
        return Err(invalid_config("PQ index and ADC table subspaces differ"));
    }
    let count = index.len();
    if top_k == 0 || top_k > count {
        return Err(invalid_config("top-k must be positive and no larger than the PQ index"));
    }
    let ghost width = table.centroids_per_subspace as nat;
    let mut v: usize = 0;
    while v < count
        invariant
            v <= count,
            0 < top_k <= count,
            count == index.spec_len(),
            subspaces == index.spec_subspaces(),
            subspaces == table.subspaces,
            subspaces > 0,
            width == table.centroids_per_subspace,
            table.is_complete(),
            forall|w: int| 0 <= w < v ==> code_fits(#[trigger] index.spec_code(w), width),
            counters.codes_scanned == old(counters).codes_scanned + v,
            counters.table_lookups == old(counters).table_lookups + v * subspaces,
            counters.distance_additions == old(counters).distance_additions + v * subspaces,
            old(counters).codes_scanned + count <= u64::MAX,
            old(counters).table_lookups + count * subspaces <= u64::MAX,
            old(counters).distance_additions + count * subspaces <= u64::MAX,
        decreases count - v,
    {
        proof {
            assert(v * subspaces + subspaces <= count * subspaces) by (nonlinear_arith)
                requires
                    v < count,
            ;
        }
        let code = index.code(v);
        match code_lookups(code, table, counters) {
            Ok(_) => {},
            Err(e) => {
                proof {
                    lemma_first_overflowing_code(*index, width, v as int);
                    let first = first_overflowing_code(*index, width);
                    if first < v {
                        assert(code_fits(index.spec_code(first), width));
                    }
                    if first > v {
                        assert(code_fits(index.spec_code(v as int), width));
                    }
                }
                return Err(e);
            },
        }
        counters.codes_scanned = counters.codes_scanned + 1;
        proof {
            assert((v + 1) * subspaces == v * subspaces + subspaces) by (nonlinear_arith);
        }
        v += 1;
    }
    let neighbors = rank_by_distance(code_distances, top_k);
    Ok(neighbors)
}

/// `n * m * k * (d / m) == n * k * d` when `m` divides `d`.
proof fn lemma_table_work(n: int, m: int, k: int, d: int)
    requires
        m > 0,
        d % m == 0,
    ensures
        n * m * k * (d / m) == n * k * d,
{
    vstd::arithmetic::div_mod::lemma_fundamental_div_mod(d, m);
    assert(n * m * k * (d / m) == n * k * (m * (d / m))) by (nonlinear_arith);
}

/// ADC search for every query of `queries` against `index`, with fresh
/// counters: for each query in turn, its distance table is built (see
/// `build_distance_table`) and the codes are scanned (see `search_adc`).
/// `table_distances[q]` holds the table entries of query `q`, and
/// `code_distances[q][v]` the ADC distance of code `v` for query `q`.
pub fn search_adc_batch(
    quantizer: &ProductQuantizer,
    index: &PqIndex,
    queries: &VectorSet,
    table_distances: Vec<Vec<u32>>,
    code_distances: &Vec<Vec<u32>>,
    top_k: usize,
) -> (found: Result<(Vec<Vec<Neighbor>>, AdcTableCounters, AdcSearchCounters), AppError>)
    requires
        quantizer.is_valid() && queries.spec_dimension() == quantizer.dimension ==> {
            &&& table_distances@.len() == queries.spec_len()
            &&& forall|q: int|
                0 <= q < table_distances@.len() ==> (#[trigger] table_distances@[q])@.len()
                    == quantizer.subspaces * quantizer.centroids_per_subspace
            &&& code_distances@.len() == queries.spec_len()
            &&& forall|q: int|
                0 <= q < code_distances@.len() ==> (#[trigger] code_distances@[q])@.len()
                    == index.spec_len()
            &&& queries.spec_len() * quantizer.subspaces * quantizer.centroids_per_subspace
                <= u64::MAX
            &&& queries.spec_len() * quantizer.centroids_per_subspace * quantizer.dimension
                <= u64::MAX
            &&& queries.spec_len() * index.spec_len() * quantizer.subspaces <= u64::MAX
        },
    ensures
        match found {
            Ok((results, table_counters, scan_counters)) => {
                &&& queries.spec_len() > 0 ==> {
                    &&& quantizer.is_valid()
                    &&& queries.spec_dimension() == quantizer.dimension
                    &&& index.spec_subspaces() == quantizer.subspaces
                    &&& 0 < top_k <= index.spec_len()
                    &&& index_fits(*index, quantizer.centroids_per_subspace as nat)
                }
                &&& results@.len() == queries.spec_len()
                &&& forall|q: int|
                    0 <= q < results@.len() ==> is_ranked_best(
                        #[trigger] results@[q]@,
                        indexed_pool(code_distances@[q]@),
                        top_k as nat,
                    ) && results@[q]@.len() == top_k
                &&& table_counters.centroid_distances == queries.spec_len() * quantizer.subspaces
                    * quantizer.centroids_per_subspace
                &&& table_counters.coordinate_distance_operations == queries.spec_len()
                    * quantizer.subspaces * quantizer.centroids_per_subspace * (quantizer.dimension
                    / quantizer.subspaces)
                &&& scan_counters.codes_scanned == queries.spec_len() * index.spec_len()
                &&& scan_counters.table_lookups == queries.spec_len() * index.spec_len()
                    * index.spec_subspaces()
                &&& scan_counters.distance_additions == queries.spec_len() * index.spec_len()
                    * index.spec_subspaces()
            },
            Err(e) => {
                &&& queries.spec_len() > 0
                &&& if !quantizer.is_valid() {
                    quantizer.validate_error(e)
                } else if queries.spec_dimension() != quantizer.dimension {
                    e == AppError::DimensionMismatch {
                        expected: quantizer.dimension,
                        actual: queries.spec_dimension() as usize,
                    }
                } else if index.spec_subspaces() != quantizer.subspaces {
                    is_invalid_config(e, "PQ index and ADC table subspaces differ"@)
                } else if top_k == 0 || top_k > index.spec_len() {
                    is_invalid_config(e, "top-k must be positive and no larger than the PQ index"@)
                } else {
                    &&& !index_fits(*index, quantizer.centroids_per_subspace as nat)
                    &&& is_invalid_pq_code(e, "centroid ID exceeds ADC table width"@)
                }
            },
        },
{
    let query_count = queries.len();
    let vector_count = index.len();
    let ghost all_tables = table_distances@;
    let mut rest = table_distances;
    let mut table_counters = AdcTableCounters::default();
    let mut scan_counters = AdcSearchCounters::default();
    let mut results: Vec<Vec<Neighbor>> = Vec::new();
    let mut q: usize = 0;
    while q < query_count
        invariant
            q <= query_count,
            query_count == queries.spec_len(),
            vector_count == index.spec_len(),
            quantizer.is_valid() && queries.spec_dimension() == quantizer.dimension ==> {
                &&& all_tables.len() == queries.spec_len()
                &&& forall|p: int|
                    0 <= p < all_tables.len() ==> (#[trigger] all_tables[p])@.len()
                        == quantizer.subspaces * quantizer.centroids_per_subspace
                &&& code_distances@.len() == queries.spec_len()
                &&& forall|p: int|
                    0 <= p < code_distances@.len() ==> (#[trigger] code_distances@[p])@.len()
                        == index.spec_len()
                &&& queries.spec_len() * quantizer.subspaces * quantizer.centroids_per_subspace
                    <= u64::MAX
                &&& queries.spec_len() * quantizer.centroids_per_subspace * quantizer.dimension
                    <= u64::MAX
                &&& queries.spec_len() * index.spec_len() * quantizer.subspaces <= u64::MAX
                &&& rest@ == all_tables.skip(q as int)
            },
            q > 0 ==> {
                &&& quantizer.is_valid()
                &&& queries.spec_dimension() == quantizer.dimension
                &&& index.spec_subspaces() == quantizer.subspaces
                &&& 0 < top_k <= index.spec_len()
                &&& index_fits(*index, quantizer.centroids_per_subspace as nat)
            },
            results@.len() == q,
            forall|p: int|
                0 <= p < q ==> is_ranked_best(
                    #[trigger] results@[p]@,
                    indexed_pool(code_distances@[p]@),
                    top_k as nat,
                ) && results@[p]@.len() == top_k,
            table_counters.centroid_distances == q * quantizer.subspaces
                * quantizer.centroids_per_subspace,
            table_counters.coordinate_distance_operations == q * quantizer.centroids_per_subspace
                * quantizer.dimension,
            scan_counters.codes_scanned == q * index.spec_len(),
            scan_counters.table_lookups == q * index.spec_len() * index.spec_subspaces(),
            scan_counters.distance_additions == q * index.spec_len() * index.spec_subspaces(),
        decreases query_count - q,
    {
        let m = quantizer.subspaces;
        let k = quantizer.centroids_per_subspace;
        let d = quantizer.dimension;
        proof {
            if quantizer.is_valid() && queries.spec_dimension() == quantizer.dimension {
                assert(q * m * k + m * k <= query_count * m * k) by (nonlinear_arith)
                    requires
                        q < query_count,
                ;
                assert(q * k * d + k * d <= query_count * k * d) by (nonlinear_arith)
                    requires
                        q < query_count,
                ;
                lemma_table_work(1, m as int, k as int, d as int);
                lemma_table_work(q as int, m as int, k as int, d as int);
                assert(rest@[0] == all_tables[q as int]);
            }
        }
        let row = if rest.len() > 0 {
            rest.remove(0)
        } else {
            Vec::new()
        };
        proof {
            if quantizer.is_valid() && queries.spec_dimension() == quantizer.dimension {
                assert(rest@ =~= all_tables.skip(q + 1));
            }
        }
        let table = match build_distance_table(quantizer, queries.vector(q), row, &mut table_counters) {
            Ok(table) => table,
            Err(e) => {
                return Err(e);
            },
        };
        proof {
            assert(q * vector_count + vector_count <= query_count * vector_count) by (nonlinear_arith)
                requires
                    q < query_count,
            ;
            assert(query_count * vector_count <= query_count * vector_count * m) by (nonlinear_arith)
                requires
                    m > 0,
            ;
            assert(q * vector_count * m + vector_count * m <= query_count * vector_count * m)
                by (nonlinear_arith)
                requires
                    q < query_count,
            ;
        }
        let found = search_adc(index, &table, code_distances[q].as_slice(), top_k, &mut scan_counters);
        match found {
            Ok(neighbors) => {
                results.push(neighbors);
            },
            Err(e) => {
                return Err(e);
            },
        }
        proof {
            assert((q + 1) * m * k == q * m * k + m * k) by (nonlinear_arith);
            assert((q + 1) * k * d == q * k * d + k * d) by (nonlinear_arith);
            assert((q + 1) * vector_count == q * vector_count + vector_count) by (nonlinear_arith);
            assert((q + 1) * vector_count * m == q * vector_count * m + vector_count * m)
                by (nonlinear_arith);
        }
        q += 1;
    }
    proof {
        if query_count > 0 {
            lemma_table_work(
                query_count as int,
                quantizer.subspaces as int,
                quantizer.centroids_per_subspace as int,
                quantizer.dimension as int,
            );
        } else {
            let w = quantizer.dimension / quantizer.subspaces;
            assert(query_count * quantizer.subspaces * quantizer.centroids_per_subspace * w == 0)
                by (nonlinear_arith)
                requires
                    query_count == 0,
            ;
        }
    }
    Ok((results, table_counters, scan_counters))
}

} // verus!
