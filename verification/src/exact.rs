//! Exhaustive exact search.

use vstd::prelude::*;
use crate::error::{AppError, is_invalid_config, invalid_config};
use crate::vector::{Neighbor, VectorSet};
use crate::vector::top_k::{is_ranked_best, indexed_pool, rank_by_distance};

verus! {

/// Work done by exact searches.
#[derive(Clone, Copy, Debug, PartialEq, Eq)]
pub struct ExactSearchCounters {
    pub vectors_scanned: u64,
    pub coordinate_distance_operations: u64,
}

impl Default for ExactSearchCounters {
    fn default() -> (counters: Self)
        ensures
            counters.vectors_scanned == 0,
            counters.coordinate_distance_operations == 0,
    {
        ExactSearchCounters { vectors_scanned: 0, coordinate_distance_operations: 0 }
    }
}

/// The `top_k` database vectors nearest to a query, best first.
/// `distances[i]` is the squared distance between database vector `i` and the
/// query.  Each vector scanned adds one to `vectors_scanned` and its
/// dimension to `coordinate_distance_operations`.
pub fn search_exact(
    database: &VectorSet,
    query: &[u32],
    distances: &[u32],
    top_k: usize,
    counters: &mut ExactSearchCounters,
) -> (found: Result<Vec<Neighbor>, AppError>)
    requires
        query@.len() == database.spec_dimension() ==> distances@.len() == database.spec_len(),
        query@.len() == database.spec_dimension() && 0 < top_k <= database.spec_len() ==> {
            &&& old(counters).vectors_scanned + database.spec_len() <= u64::MAX
            &&& old(counters).coordinate_distance_operations + database.spec_len()
                * database.spec_dimension() <= u64::MAX
        },
    ensures
        match found {
            Ok(neighbors) => {
                &&& query@.len() == database.spec_dimension()
                &&& 0 < top_k <= database.spec_len()
                &&& is_ranked_best(neighbors@, indexed_pool(distances@), top_k as nat)
                &&& neighbors@.len() == top_k
                &&& final(counters).vectors_scanned == old(counters).vectors_scanned
                    + database.spec_len()
                &&& final(counters).coordinate_distance_operations
                    == old(counters).coordinate_distance_operations + database.spec_len()
                    * database.spec_dimension()
            },
            Err(e) => {
                &&& *final(counters) == *old(counters)
                &&& if query@.len() != database.spec_dimension() {
                    e == AppError::DimensionMismatch {
                        expected: database.spec_dimension() as usize,
                        actual: query@.len() as usize,
                    }
                } else {
                    &&& (top_k == 0 || top_k > database.spec_len())
                    &&& is_invalid_config(
                        e,
                        "top-k must be positive and no larger than the database"@,
                    )
                }
            },
        },
{
    let dimension = database.dimension();
    let vector_count = database.len();
    if query.len() != dimension {
        return Err(AppError::DimensionMismatch { expected: dimension, actual: query.len() });
    }
    if top_k == 0 || top_k > vector_count {
        return Err(invalid_config("top-k must be positive and no larger than the database"));
    }
    let neighbors = rank_by_distance(distances, top_k);
    proof {
        assert(vector_count * dimension <= database.spec_data().len());
    }
    counters.vectors_scanned = counters.vectors_scanned + vector_count as u64;
    counters.coordinate_distance_operations = counters.coordinate_distance_operations
        + (vector_count as u64) * (dimension as u64);
    Ok(neighbors)
}

/// Exact search for every query of `queries` (see `search_exact`), with fresh
/// counters; `distances[q][i]` is the squared distance between database
/// vector `i` and query `q`.
pub fn search_exact_batch(
    database: &VectorSet,
    queries: &VectorSet,
    distances: &Vec<Vec<u32>>,
    top_k: usize,
) -> (found: Result<(Vec<Vec<Neighbor>>, ExactSearchCounters), AppError>)
    requires
        queries.spec_dimension() == database.spec_dimension() ==> {
            &&& distances@.len() == queries.spec_len()
            &&& forall|q: int|
                0 <= q < distances@.len() ==> (#[trigger] distances@[q])@.len()
                    == database.spec_len()
        },
        queries.spec_dimension() == database.spec_dimension() ==> queries.spec_len()
            * database.spec_len() * database.spec_dimension() <= u64::MAX,
    ensures
        match found {
            Ok((results, counters)) => {
                &&& queries.spec_dimension() == database.spec_dimension()
                &&& (queries.spec_len() == 0 || 0 < top_k <= database.spec_len())
                &&& results@.len() == queries.spec_len()
                &&& forall|q: int|
                    0 <= q < results@.len() ==> is_ranked_best(
                        #[trigger] results@[q]@,
                        indexed_pool(distances@[q]@),
                        top_k as nat,
                    ) && results@[q]@.len() == top_k
                &&& counters.vectors_scanned == queries.spec_len() * database.spec_len()
                &&& counters.coordinate_distance_operations == queries.spec_len()
                    * database.spec_len() * database.spec_dimension()
            },
            Err(e) => if queries.spec_dimension() != database.spec_dimension() {
                e == AppError::DimensionMismatch {
                    expected: database.spec_dimension() as usize,
                    actual: queries.spec_dimension() as usize,
                }
            } else {
                &&& queries.spec_len() > 0
                &&& (top_k == 0 || top_k > database.spec_len())
                &&& is_invalid_config(e, "top-k must be positive and no larger than the database"@)
            },
        },
{
    if queries.dimension() != database.dimension() {
        return Err(
            AppError::DimensionMismatch { expected: database.dimension(), actual: queries.dimension() },
        );
    }
    let query_count = queries.len();
    let vector_count = database.len();
    let dimension = database.dimension();
    let mut counters = ExactSearchCounters::default();
    let mut results: Vec<Vec<Neighbor>> = Vec::new();
    let mut q: usize = 0;
    while q < query_count
        invariant
            q <= query_count,
            query_count == queries.spec_len(),
            vector_count == database.spec_len(),
            dimension == database.spec_dimension(),
            dimension > 0,
            queries.spec_dimension() == database.spec_dimension(),
            distances@.len() == query_count,
            forall|p: int|
                0 <= p < distances@.len() ==> (#[trigger] distances@[p])@.len() == vector_count,
            query_count * vector_count * dimension <= u64::MAX,
            q > 0 ==> 0 < top_k <= vector_count,
            results@.len() == q,
            forall|p: int|
                0 <= p < q ==> is_ranked_best(
                    #[trigger] results@[p]@,
                    indexed_pool(distances@[p]@),
                    top_k as nat,
                ) && results@[p]@.len() == top_k,
            counters.vectors_scanned == q * vector_count,
            counters.coordinate_distance_operations == q * vector_count * dimension,
        decreases query_count - q,
    {
        proof {
            assert(q * vector_count + vector_count <= query_count * vector_count) by (nonlinear_arith)
                requires
                    q < query_count,
            ;
            assert(q * vector_count * dimension + vector_count * dimension <= query_count
                * vector_count * dimension) by (nonlinear_arith)
                requires
                    q < query_count,
            ;
            assert(query_count * vector_count <= query_count * vector_count * dimension)
                by (nonlinear_arith)
                requires
                    dimension > 0,
            ;
        }
        let query = queries.vector(q);
        let found = search_exact(database, query, distances[q].as_slice(), top_k, &mut counters);
        match found {
            Ok(neighbors) => {
                results.push(neighbors);
            },
            Err(e) => {
                return Err(e);
            },
        }
        proof {
            assert((q + 1) * vector_count == q * vector_count + vector_count) by (nonlinear_arith);
            assert((q + 1) * vector_count * dimension == q * vector_count * dimension + vector_count
                * dimension) by (nonlinear_arith);
        }
        q += 1;
    }
    Ok((results, counters))
}

} // verus!
