//! Recall overlap and memory footprints.

use vstd::prelude::*;
use crate::error::{AppError, is_invalid_config, invalid_config};
use crate::vector::{Neighbor, VectorId};

verus! {

/// Some of the first `level` entries of `approximate` has vector id `id`.
pub open spec fn found_within(approximate: Seq<Neighbor>, level: int, id: VectorId) -> bool {
    exists|j: int| 0 <= j < level && (#[trigger] approximate[j]).vector_id == id
}

/// How many of the first `count` entries of `exact` have their vector id
/// among the first `level` entries of `approximate`.
pub open spec fn hit_count(exact: Seq<Neighbor>, approximate: Seq<Neighbor>, level: int, count: int) -> nat
    decreases count,
{
    if count <= 0 {
        0
    } else {
        hit_count(exact, approximate, level, count - 1) + if found_within(
            approximate,
            level,
            exact[count - 1].vector_id,
        ) {
            1nat
        } else {
            0nat
        }
    }
}

/// Whether a neighbour's vector id is among the first `level` entries of
/// `approximate`.
pub open spec fn listed_within(approximate: Seq<Neighbor>, level: int) -> spec_fn(Neighbor) -> bool {
    |n: Neighbor| exists|j: int| 0 <= j < level && (#[trigger] approximate[j]).vector_id == n.vector_id
}

/// The hits among the first `count` exact entries are those entries whose id
/// is listed among the first `level` approximate ones.
pub proof fn lemma_hit_count_is_listed_count(
    exact: Seq<Neighbor>,
    approximate: Seq<Neighbor>,
    level: int,
    count: int,
)
    requires
        0 <= count <= exact.len(),
    ensures
        hit_count(exact, approximate, level, count) == exact.take(count).filter(
            listed_within(approximate, level),
        ).len(),
    decreases count,
{
    reveal(Seq::filter);
    if count > 0 {
        lemma_hit_count_is_listed_count(exact, approximate, level, count - 1);
        let prefix = exact.take(count);
        assert(prefix.drop_last() =~= exact.take(count - 1));
        assert(prefix.last() == exact[count - 1]);
        assert(listed_within(approximate, level)(exact[count - 1]) == found_within(
            approximate,
            level,
            exact[count - 1].vector_id,
        ));
    }
}

/// Counting hits among `count` entries finds at most `count`.
pub proof fn lemma_hit_count_bounded(
    exact: Seq<Neighbor>,
    approximate: Seq<Neighbor>,
    level: int,
    count: int,
)
    requires
        count >= 0,
    ensures
        hit_count(exact, approximate, level, count) <= count,
    decreases count,
{
    if count > 0 {
        lemma_hit_count_bounded(exact, approximate, level, count - 1);
    }
}

/// A result list recalls all of its own first `level` entries.
pub proof fn lemma_self_recall_is_complete(results: Seq<Neighbor>, level: int, count: int)
    requires
        0 <= count <= level <= results.len(),
    ensures
        hit_count(results, results, level, count) == count,
    decreases count,
{
    if count > 0 {
        lemma_self_recall_is_complete(results, level, count - 1);
        assert(0 <= count - 1 < level && results[count - 1].vector_id == results[count
            - 1].vector_id);
    }
}

/// Lists that share no vector id among their first `level` entries have no
/// hit.
pub proof fn lemma_disjoint_recall_is_zero(
    exact: Seq<Neighbor>,
    approximate: Seq<Neighbor>,
    level: int,
    count: int,
)
    requires
        0 <= count <= level,
        forall|i: int, j: int|
            0 <= i < level && 0 <= j < level ==> (#[trigger] exact[i]).vector_id
                != (#[trigger] approximate[j]).vector_id,
    ensures
        hit_count(exact, approximate, level, count) == 0,
    decreases count,
{
    if count > 0 {
        lemma_disjoint_recall_is_zero(exact, approximate, level, count - 1);
        assert(!found_within(approximate, level, exact[count - 1].vector_id));
    }
}

/// How many of the first `level` exact neighbours appear among the first
/// `level` approximate neighbours; recall at `level` is this count divided by
/// `level`.
pub fn recall_hits(exact: &[Neighbor], approximate: &[Neighbor], level: usize) -> (hits: Result<
    usize,
    AppError,
>)
    ensures
        match hits {
            Ok(hits) => {
                &&& 0 < level <= exact@.len()
                &&& level <= approximate@.len()
                &&& hits == hit_count(exact@, approximate@, level as int, level as int)
                &&& hits == exact@.take(level as int).filter(
                    listed_within(approximate@, level as int),
                ).len()
                &&& hits <= level
            },
            Err(e) => {
                &&& (level == 0 || exact@.len() < level || approximate@.len() < level)
                &&& is_invalid_config(
                    e,
                    "recall level must be positive and available in both result lists"@,
                )
            },
        },
{
    if level == 0 || exact.len() < level || approximate.len() < level {
        return Err(invalid_config("recall level must be positive and available in both result lists"));
    }
    let mut hits: usize = 0;
    let mut i: usize = 0;
    while i < level
        invariant
            i <= level <= exact@.len(),
            level <= approximate@.len(),
            hits == hit_count(exact@, approximate@, level as int, i as int),
            hits <= i,
        decreases level - i,
    {
        let id = exact[i].vector_id;
        let mut found = false;
        let mut j: usize = 0;
        while j < level
            invariant
                j <= level <= approximate@.len(),
                found == exists|m: int| 0 <= m < j && (#[trigger] approximate@[m]).vector_id == id,
            decreases level - j,
        {
            if approximate[j].vector_id == id {
                found = true;
            }
            j += 1;
        }
        if found {
            hits += 1;
        }
        i += 1;
    }
    proof {
        lemma_hit_count_is_listed_count(exact@, approximate@, level as int, level as int);
    }
    Ok(hits)
}

/// For each rank shown side by side (the shorter list's length), whether the
/// approximate neighbour at that rank is anywhere among the exact ones.
pub fn rank_overlaps(exact: &[Neighbor], approximate: &[Neighbor]) -> (overlaps: Vec<bool>)
    ensures
        overlaps@.len() == if exact@.len() <= approximate@.len() {
            exact@.len()
        } else {
            approximate@.len()
        },
        forall|r: int|
            0 <= r < overlaps@.len() ==> #[trigger] overlaps@[r] == exists|m: int|
                0 <= m < exact@.len() && (#[trigger] exact@[m]).vector_id == approximate@[r].vector_id,
{
    let shown = if exact.len() <= approximate.len() {
        exact.len()
    } else {
        approximate.len()
    };
    let mut overlaps: Vec<bool> = Vec::new();
    let mut r: usize = 0;
    while r < shown
        invariant
            r <= shown,
            shown <= exact@.len(),
            shown <= approximate@.len(),
            overlaps@.len() == r,
            forall|q: int|
                0 <= q < r ==> #[trigger] overlaps@[q] == found_within(
                    exact@,
                    exact@.len() as int,
                    approximate@[q].vector_id,
                ),
        decreases shown - r,
    {
        let id = approximate[r].vector_id;
        let mut found = false;
        let mut j: usize = 0;
        while j < exact.len()
            invariant
                j <= exact@.len(),
                found == exists|m: int| 0 <= m < j && (#[trigger] exact@[m]).vector_id == id,
            decreases exact@.len() - j,
        {
            if exact[j].vector_id == id {
                found = true;
            }
            j += 1;
        }
        overlaps.push(found);
        r += 1;
    }
    overlaps
}

/// Every query's exact and approximate lists have at least `level` entries.
pub open spec fn level_available(
    exact_queries: Seq<Vec<Neighbor>>,
    approximate_queries: Seq<Vec<Neighbor>>,
    level: nat,
) -> bool {
    forall|q: int|
        0 <= q < exact_queries.len() ==> level <= (#[trigger] exact_queries[q])@.len() && level
            <= approximate_queries[q]@.len()
}

/// Per-query hit counts at `level` for every query, or `None` when results
/// have fewer than `level` entries.
pub open spec fn level_hits_match(
    hits: Option<Vec<usize>>,
    exact_queries: Seq<Vec<Neighbor>>,
    approximate_queries: Seq<Vec<Neighbor>>,
    top_k: usize,
    level: nat,
) -> bool {
    match hits {
        None => top_k < level,
        Some(hits) => {
            &&& top_k >= level
            &&& level_available(exact_queries, approximate_queries, level)
            &&& hits@.len() == exact_queries.len()
            &&& forall|q: int|
                0 <= q < hits@.len() ==> #[trigger] hits@[q] == hit_count(
                    exact_queries[q]@,
                    approximate_queries[q]@,
                    level as int,
                    level as int,
                )
            &&& forall|q: int|
                0 <= q < hits@.len() ==> #[trigger] hits@[q] == exact_queries[q]@.take(
                    level as int,
                ).filter(listed_within(approximate_queries[q]@, level as int)).len()
        },
    }
}

/// Per-query hit counts at levels 1, 5 and 10 (recall at a level is the
/// mean over queries of hits divided by the level).
#[derive(Debug)]
pub struct RecallHits {
    pub at_1: Option<Vec<usize>>,
    pub at_5: Option<Vec<usize>>,
    pub at_10: Option<Vec<usize>>,
}

/// Hit counts at `level` for every query; `None` when `top_k < level`.
fn hits_at_level(
    exact_queries: &[Vec<Neighbor>],
    approximate_queries: &[Vec<Neighbor>],
    top_k: usize,
    level: usize,
) -> (hits: Result<Option<Vec<usize>>, AppError>)
    requires
        level > 0,
        exact_queries@.len() == approximate_queries@.len(),
    ensures
        match hits {
            Ok(hits) => level_hits_match(
                hits,
                exact_queries@,
                approximate_queries@,
                top_k,
                level as nat,
            ),
            Err(e) => {
                &&& top_k >= level
                &&& !level_available(exact_queries@, approximate_queries@, level as nat)
                &&& is_invalid_config(
                    e,
                    "recall level must be positive and available in both result lists"@,
                )
            },
        },
{
    if top_k < level {
        return Ok(None);
    }
    let mut hits: Vec<usize> = Vec::new();
    let mut q: usize = 0;
    while q < exact_queries.len()
        invariant
            q <= exact_queries@.len(),
            level > 0,
            top_k >= level,
            exact_queries@.len() == approximate_queries@.len(),
            hits@.len() == q,
            forall|p: int|
                0 <= p < q ==> level <= (#[trigger] exact_queries@[p])@.len() && level
                    <= approximate_queries@[p]@.len(),
            forall|p: int|
                0 <= p < q ==> #[trigger] hits@[p] == hit_count(
                    exact_queries@[p]@,
                    approximate_queries@[p]@,
                    level as int,
                    level as int,
                ),
            forall|p: int|
                0 <= p < q ==> #[trigger] hits@[p] == exact_queries@[p]@.take(level as int).filter(
                    listed_within(approximate_queries@[p]@, level as int),
                ).len(),
        decreases exact_queries@.len() - q,
    {
        match recall_hits(exact_queries[q].as_slice(), approximate_queries[q].as_slice(), level) {
            Ok(h) => {
                hits.push(h);
            },
            Err(e) => {
                assert(!(level <= exact_queries@[q as int]@.len() && level
                    <= approximate_queries@[q as int]@.len()));
                assert(!level_available(exact_queries@, approximate_queries@, level as nat));
                return Err(e);
            },
        }
        q += 1;
    }
    Ok(Some(hits))
}

/// Per-query hit counts at levels 1, 5 and 10 for matching lists of exact
/// and approximate results; a level above `top_k` is left out.
pub fn aggregate_recall_hits(
    exact_queries: &[Vec<Neighbor>],
    approximate_queries: &[Vec<Neighbor>],
    top_k: usize,
) -> (hits: Result<RecallHits, AppError>)
    ensures
        match hits {
            Ok(hits) => {
                &&& exact_queries@.len() > 0
                &&& exact_queries@.len() == approximate_queries@.len()
                &&& level_hits_match(hits.at_1, exact_queries@, approximate_queries@, top_k, 1)
                &&& level_hits_match(hits.at_5, exact_queries@, approximate_queries@, top_k, 5)
                &&& level_hits_match(hits.at_10, exact_queries@, approximate_queries@, top_k, 10)
            },
            Err(e) => if exact_queries@.len() == 0 || exact_queries@.len()
                != approximate_queries@.len() {
                is_invalid_config(
                    e,
                    "exact and approximate query result counts must match and be non-empty"@,
                )
            } else {
                &&& exists|level: nat|
                    (level == 1 || level == 5 || level == 10) && top_k >= level
                        && !level_available(exact_queries@, approximate_queries@, level)
                &&& is_invalid_config(
                    e,
                    "recall level must be positive and available in both result lists"@,
                )
            },
        },
{
    if exact_queries.len() == 0 || exact_queries.len() != approximate_queries.len() {
        return Err(
            invalid_config("exact and approximate query result counts must match and be non-empty"),
        );
    }
    let at_1 = match hits_at_level(exact_queries, approximate_queries, top_k, 1) {
        Ok(h) => h,
        Err(e) => {
            return Err(e);
        },
    };
    let at_5 = match hits_at_level(exact_queries, approximate_queries, top_k, 5) {
        Ok(h) => h,
        Err(e) => {
            return Err(e);
        },
    };
    let at_10 = match hits_at_level(exact_queries, approximate_queries, top_k, 10) {
        Ok(h) => h,
        Err(e) => {
            return Err(e);
        },
    };
    Ok(RecallHits { at_1, at_5, at_10 })
}

/// Bits needed to write `value` in binary (0 for 0).
pub open spec fn bit_length(value: nat) -> nat
    decreases value,
{
    if value == 0 {
        0
    } else {
        1 + bit_length(value / 2)
    }
}

/// `value` lies below `2^bit_length(value)` and, when positive, at or above
/// half of it: `bit_length(k - 1)` bits number `k` centroids.
pub proof fn lemma_bit_length_bounds(value: nat)
    ensures
        value < vstd::arithmetic::power2::pow2(bit_length(value)),
        value > 0 ==> vstd::arithmetic::power2::pow2((bit_length(value) - 1) as nat) <= value,
    decreases value,
{
    vstd::arithmetic::power2::lemma2_to64();
    if value > 0 {
        lemma_bit_length_bounds(value / 2);
        let b = bit_length(value / 2);
        vstd::arithmetic::power2::lemma_pow2_unfold(b + 1);
        if value / 2 > 0 {
            vstd::arithmetic::power2::lemma_pow2_unfold(b);
        }
    }
}

/// Byte and bit footprints of a PQ configuration.
#[derive(Clone, Copy, Debug, PartialEq, Eq, Structural)]
pub struct MemoryMetrics {
    pub full_vector_bytes_per_vector: usize,
    pub actual_pq_code_bytes_per_vector: usize,
    pub theoretical_packed_bits_per_vector: usize,
    pub codebook_bytes: usize,
}

/// The footprints of `database_vector_count` vectors of `dimension` `f32`
/// coordinates: 4 bytes per coordinate in full; one byte per subspace as
/// stored; `bit_length(centroids_per_subspace - 1)` bits per subspace when
/// packed; and `centroids_per_subspace * dimension` coordinates of shared
/// codebooks.
pub fn memory_metrics(
    dimension: usize,
    subspaces: usize,
    centroids_per_subspace: usize,
    database_vector_count: usize,
) -> (metrics: Result<MemoryMetrics, AppError>)
    requires
        dimension > 0 && subspaces > 0 && centroids_per_subspace > 0 && database_vector_count
            > 0 ==> {
            &&& centroids_per_subspace * dimension * 4 <= usize::MAX
            &&& dimension * 4 <= usize::MAX
            &&& subspaces * 64 <= usize::MAX
        },
    ensures
        match metrics {
            Ok(m) => {
                &&& dimension > 0 && subspaces > 0 && centroids_per_subspace > 0
                    && database_vector_count > 0
                &&& m.full_vector_bytes_per_vector == dimension * 4
                &&& m.actual_pq_code_bytes_per_vector == subspaces
                &&& m.theoretical_packed_bits_per_vector == subspaces * bit_length(
                    (centroids_per_subspace - 1) as nat,
                )
                &&& m.codebook_bytes == centroids_per_subspace * dimension * 4
            },
            Err(e) => {
                &&& (dimension == 0 || subspaces == 0 || centroids_per_subspace == 0
                    || database_vector_count == 0)
                &&& is_invalid_config(e, "memory metric inputs must be positive"@)
            },
        },
{
    if dimension == 0 || subspaces == 0 || centroids_per_subspace == 0 || database_vector_count
        == 0 {
        return Err(invalid_config("memory metric inputs must be positive"));
    }
    let mut remaining = centroids_per_subspace - 1;
    proof {
        lemma_bit_length_at_most_64(remaining as nat);
    }
    let mut bits_per_code: usize = 0;
    while remaining > 0
        invariant
            bits_per_code + bit_length(remaining as nat) == bit_length(
                (centroids_per_subspace - 1) as nat,
            ),
            bits_per_code <= 64 - bit_length(remaining as nat),
            remaining <= usize::MAX,
        decreases remaining,
    {
        proof {
            lemma_bit_length_at_most_64(remaining as nat);
        }
        remaining = remaining / 2;
        bits_per_code += 1;
    }
    proof {
        assert(bits_per_code <= 64);
        assert(subspaces * bits_per_code <= subspaces * 64) by (nonlinear_arith)
            requires
                bits_per_code <= 64,
        ;
        assert(dimension * 4 <= centroids_per_subspace * dimension * 4) by (nonlinear_arith)
            requires
                centroids_per_subspace >= 1,
        ;
    }
    Ok(
        MemoryMetrics {
            full_vector_bytes_per_vector: dimension * 4,
            actual_pq_code_bytes_per_vector: subspaces,
            theoretical_packed_bits_per_vector: subspaces * bits_per_code,
            codebook_bytes: centroids_per_subspace * dimension * 4,
        },
    )
}

/// A 64-bit value takes at most 64 bits.
proof fn lemma_bit_length_at_most_64(value: nat)
    requires
        value <= 0xFFFF_FFFF_FFFF_FFFF,
    ensures
        bit_length(value) <= 64,
{
    lemma_bit_length_bounds(value);
    if bit_length(value) > 64 {
        if bit_length(value) - 1 > 64 {
            vstd::arithmetic::power2::lemma_pow2_strictly_increases(
                64,
                (bit_length(value) - 1) as nat,
            );
        }
        assert(vstd::arithmetic::power2::pow2(64) == 0x1_0000_0000_0000_0000) by {
            vstd::arithmetic::power2::lemma2_to64_rest();
        }
    }
}

} // verus!
