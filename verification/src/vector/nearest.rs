//! Index of the nearest candidate under `f32` comparison.

use vstd::prelude::*;
use crate::vector::float_bits::{
    float_less, bits_less, is_nan_bits, is_zero_bits, total_order_key, POSITIVE_INFINITY_BITS,
};

verus! {

/// The index a left-to-right scan of `distances` from position `i` ends
/// with, when it holds `best` with distance `best_distance` and moves to a
/// position only when its distance is `<` the held one.
pub open spec fn first_nearest_from(distances: Seq<u32>, i: int, best: int, best_distance: u32) -> int
    decreases distances.len() - i,
{
    if i < 0 || i >= distances.len() {
        best
    } else if float_less(distances[i], best_distance) {
        first_nearest_from(distances, i + 1, i, distances[i])
    } else {
        first_nearest_from(distances, i + 1, best, best_distance)
    }
}

/// A scan from a held index below `bound` ends below `bound` when the
/// sequence is no longer than `bound`.
pub proof fn lemma_first_nearest_in_range(
    distances: Seq<u32>,
    i: int,
    best: int,
    best_distance: u32,
    bound: int,
)
    requires
        0 <= best < bound,
        distances.len() <= bound,
        0 <= i,
    ensures
        0 <= first_nearest_from(distances, i, best, best_distance) < bound,
    decreases distances.len() - i,
{
    if i < distances.len() {
        if float_less(distances[i], best_distance) {
            lemma_first_nearest_in_range(distances, i + 1, i, distances[i], bound);
        } else {
            lemma_first_nearest_in_range(distances, i + 1, best, best_distance, bound);
        }
    }
}

/// Runs the scan of `first_nearest_from`.
pub fn scan_nearest(distances: &[u32], from: usize, best: usize, best_distance: u32) -> (nearest:
    usize)
    requires
        best < distances@.len() || best == 0,
    ensures
        nearest == first_nearest_from(distances@, from as int, best as int, best_distance),
        distances@.len() > 0 ==> nearest < distances@.len(),
{
    let mut i = from;
    let mut held = best;
    let mut held_distance = best_distance;
    if i > distances.len() {
        i = distances.len();
    }
    assert(first_nearest_from(distances@, i as int, held as int, held_distance)
        == first_nearest_from(distances@, from as int, best as int, best_distance));
    while i < distances.len()
        invariant
            i <= distances@.len(),
            held < distances@.len() || held == 0,
            first_nearest_from(distances@, i as int, held as int, held_distance)
                == first_nearest_from(distances@, from as int, best as int, best_distance),
        decreases distances@.len() - i,
    {
        if bits_less(distances[i], held_distance) {
            held = i;
            held_distance = distances[i];
        }
        i += 1;
    }
    held
}

/// Rank of a value under `<` among non-NaN values: its place in
/// `total_order_key`, with both zeros sharing the rank of positive zero.
pub open spec fn float_rank(bits: u32) -> int {
    if is_zero_bits(bits) {
        total_order_key(0)
    } else {
        total_order_key(bits)
    }
}

/// Between non-NaN values, `<` is the order of their ranks, and no value
/// ranks above positive infinity.
pub proof fn lemma_float_less_is_rank_order(a: u32, b: u32)
    requires
        !is_nan_bits(a),
        !is_nan_bits(b),
    ensures
        float_less(a, b) == (float_rank(a) < float_rank(b)),
        float_rank(a) <= float_rank(POSITIVE_INFINITY_BITS),
{
    assert(0x7F80_0000u32 < a < 0x8000_0000u32 ==> (a / 0x80_0000u32) % 0x100u32 == 0xFFu32 && a
        % 0x80_0000u32 != 0) by (bit_vector);
}

/// The scan of `first_nearest_from`, started from a held entry no greater
/// than everything already passed, ends at the lowest index of a smallest
/// entry.
proof fn lemma_scan_finds_lowest_minimum(d: Seq<u32>, i: int, best: int, held: u32)
    requires
        0 <= i <= d.len(),
        0 <= best < d.len(),
        forall|j: int| 0 <= j < d.len() ==> !is_nan_bits(#[trigger] d[j]),
        !is_nan_bits(held),
        forall|j: int| 0 <= j < i ==> float_rank(held) <= float_rank(#[trigger] d[j]),
        forall|j: int| 0 <= j < best ==> float_rank(held) < float_rank(#[trigger] d[j]),
        (best < i && float_rank(d[best]) == float_rank(held)) || (best == 0 && i == 0 && held
            == POSITIVE_INFINITY_BITS),
    ensures
        ({
            let r = first_nearest_from(d, i, best, held);
            &&& 0 <= r < d.len()
            &&& forall|j: int| 0 <= j < d.len() ==> float_rank(d[r]) <= float_rank(#[trigger] d[j])
            &&& forall|j: int| 0 <= j < r ==> float_rank(d[r]) < float_rank(#[trigger] d[j])
        }),
    decreases d.len() - i,
{
    if i < d.len() {
        lemma_float_less_is_rank_order(d[i], held);
        if float_less(d[i], held) {
            lemma_scan_finds_lowest_minimum(d, i + 1, i, d[i]);
        } else {
            lemma_scan_finds_lowest_minimum(d, i + 1, best, held);
        }
    }
}

/// Index `r` holds a smallest distance, and the lowest-numbered one: no
/// distance is `<` it, and every distance before it is `>` it.
pub open spec fn is_lowest_minimum(d: Seq<u32>, r: int) -> bool {
    &&& 0 <= r < d.len()
    &&& forall|j: int| 0 <= j < d.len() ==> !float_less(#[trigger] d[j], d[r])
    &&& forall|j: int| 0 <= j < r ==> float_less(d[r], #[trigger] d[j])
}

/// Over distances without NaN, the scan that starts from the first entry
/// (`assigned_centroid`) and the scan that starts from positive infinity
/// (`spec_nearest_codes`) both pick the lowest index among those with the
/// smallest distance.
pub proof fn lemma_first_nearest_is_lowest_minimum(d: Seq<u32>)
    requires
        d.len() > 0,
        forall|j: int| 0 <= j < d.len() ==> !is_nan_bits(#[trigger] d[j]),
    ensures
        is_lowest_minimum(d, first_nearest_from(d, 1, 0, d[0])),
        is_lowest_minimum(d, first_nearest_from(d, 0, 0, POSITIVE_INFINITY_BITS)),
{
    lemma_float_less_is_rank_order(d[0], d[0]);
    lemma_scan_finds_lowest_minimum(d, 1, 0, d[0]);
    lemma_scan_finds_lowest_minimum(d, 0, 0, POSITIVE_INFINITY_BITS);
    lemma_rank_minimum_is_lowest_minimum(d, first_nearest_from(d, 1, 0, d[0]));
    lemma_rank_minimum_is_lowest_minimum(d, first_nearest_from(d, 0, 0, POSITIVE_INFINITY_BITS));
}

proof fn lemma_rank_minimum_is_lowest_minimum(d: Seq<u32>, r: int)
    requires
        0 <= r < d.len(),
        forall|j: int| 0 <= j < d.len() ==> !is_nan_bits(#[trigger] d[j]),
        forall|j: int| 0 <= j < d.len() ==> float_rank(d[r]) <= float_rank(#[trigger] d[j]),
        forall|j: int| 0 <= j < r ==> float_rank(d[r]) < float_rank(#[trigger] d[j]),
    ensures
        is_lowest_minimum(d, r),
{
    assert forall|j: int| 0 <= j < d.len() implies !float_less(#[trigger] d[j], d[r]) by {
        lemma_float_less_is_rank_order(d[j], d[r]);
    }
    assert forall|j: int| 0 <= j < r implies float_less(d[r], #[trigger] d[j]) by {
        lemma_float_less_is_rank_order(d[r], d[j]);
    }
}

} // verus!
