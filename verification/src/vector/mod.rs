//! Vectors, neighbours and their ranking.

pub mod float_bits;
pub mod nearest;
pub mod set;
pub mod top_k;

pub use set::VectorSet;
pub use top_k::TopK;

use vstd::prelude::*;
use core::cmp::Ordering;
use crate::vector::float_bits::{total_order_key, total_order_key_of, lemma_total_order_key_injective};

verus! {

/// Index of a vector in a vector set.
pub type VectorId = usize;

/// A search result: a vector and its distance to the query, the distance
/// being the bit pattern of an `f32`.
#[derive(Clone, Copy, Debug, PartialEq, Eq, Structural)]
pub struct Neighbor {
    pub vector_id: VectorId,
    pub distance: u32,
}

/// `a` is a better result than `b`: a smaller distance in the total order of
/// `f32::total_cmp`, and on equal distances the smaller vector id.
pub open spec fn ranks_before(a: Neighbor, b: Neighbor) -> bool {
    ||| total_order_key(a.distance) < total_order_key(b.distance)
    ||| (total_order_key(a.distance) == total_order_key(b.distance) && a.vector_id < b.vector_id)
}

/// `ranks_before` is a strict total order on neighbours.
pub proof fn lemma_ranks_before_strict_total_order(a: Neighbor, b: Neighbor, c: Neighbor)
    ensures
        !ranks_before(a, a),
        ranks_before(a, b) ==> !ranks_before(b, a),
        ranks_before(a, b) && ranks_before(b, c) ==> ranks_before(a, c),
        a != b ==> ranks_before(a, b) || ranks_before(b, a),
{
    lemma_total_order_key_injective(a.distance, b.distance);
}

impl Neighbor {
    /// Whether this result ranks before `other` (see `ranks_before`).
    pub fn is_better_than(&self, other: &Self) -> (better: bool)
        ensures
            better == ranks_before(*self, *other),
    {
        let left = total_order_key_of(self.distance);
        let right = total_order_key_of(other.distance);
        left < right || (left == right && self.vector_id < other.vector_id)
    }

    /// Three-way comparison by result quality (see `ranks_before`).
    pub fn compare_quality(&self, other: &Self) -> (order: Ordering)
        ensures
            (order == Ordering::Less) <==> ranks_before(*self, *other),
            (order == Ordering::Equal) <==> *self == *other,
            (order == Ordering::Greater) <==> ranks_before(*other, *self),
    {
        proof {
            lemma_total_order_key_injective(self.distance, other.distance);
        }
        let left = total_order_key_of(self.distance);
        let right = total_order_key_of(other.distance);
        if left < right {
            Ordering::Less
        } else if left > right {
            Ordering::Greater
        } else if self.vector_id < other.vector_id {
            Ordering::Less
        } else if self.vector_id > other.vector_id {
            Ordering::Greater
        } else {
            Ordering::Equal
        }
    }
}

} // verus!
