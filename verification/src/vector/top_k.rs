//! Bounded selection of the best neighbours, one per vector id.

use vstd::prelude::*;
use crate::vector::{Neighbor, VectorId, ranks_before, lemma_ranks_before_strict_total_order};
use crate::vector::float_bits::total_order_key;

verus! {

/// No two entries carry the same vector id.
pub open spec fn distinct_ids(s: Seq<Neighbor>) -> bool {
    forall|i: int, j: int|
        0 <= i < s.len() && 0 <= j < s.len() && i != j ==> #[trigger] s[i].vector_id
            != #[trigger] s[j].vector_id
}

/// Some entry carries vector id `id`.
pub open spec fn holds_id(s: Seq<Neighbor>, id: VectorId) -> bool {
    exists|i: int| 0 <= i < s.len() && #[trigger] s[i].vector_id == id
}

/// Entry `w` ranks after every other entry.
pub open spec fn is_worst(s: Seq<Neighbor>, w: int) -> bool {
    &&& 0 <= w < s.len()
    &&& forall|j: int| 0 <= j < s.len() && j != w ==> ranks_before(#[trigger] s[j], s[w])
}

/// Entries are in strictly increasing rank order.
pub open spec fn strictly_ranked(s: Seq<Neighbor>) -> bool {
    forall|i: int, j: int| 0 <= i < j < s.len() ==> ranks_before(#[trigger] s[i], #[trigger] s[j])
}

/// The entries after offering `candidate` to a selection of at most
/// `capacity` entries: nothing is kept at capacity zero; an entry with the
/// candidate's id is replaced when the candidate ranks before it; otherwise
/// the candidate is appended while there is room, and else replaces the worst
/// entry when it ranks before it.
pub open spec fn spec_insert(s: Seq<Neighbor>, capacity: nat, candidate: Neighbor) -> Seq<Neighbor> {
    if capacity == 0 {
        s
    } else if holds_id(s, candidate.vector_id) {
        let i = choose|i: int| 0 <= i < s.len() && #[trigger] s[i].vector_id == candidate.vector_id;
        if ranks_before(candidate, s[i]) {
            s.update(i, candidate)
        } else {
            s
        }
    } else if s.len() < capacity {
        s.push(candidate)
    } else {
        let w = choose|w: int| is_worst(s, w);
        if ranks_before(candidate, s[w]) {
            s.update(w, candidate)
        } else {
            s
        }
    }
}

/// The entries after offering every candidate of `candidates`, in order, to
/// an empty selection.
pub open spec fn spec_insert_all(capacity: nat, candidates: Seq<Neighbor>) -> Seq<Neighbor>
    decreases candidates.len(),
{
    if candidates.len() == 0 {
        Seq::empty()
    } else {
        spec_insert(
            spec_insert_all(capacity, candidates.drop_last()),
            capacity,
            candidates.last(),
        )
    }
}

/// For each vector id among `candidates`, its best-ranked candidate (the
/// earliest of equal ones).
pub open spec fn spec_best_by_id(candidates: Seq<Neighbor>) -> Map<VectorId, Neighbor>
    decreases candidates.len(),
{
    if candidates.len() == 0 {
        Map::empty()
    } else {
        let best = spec_best_by_id(candidates.drop_last());
        let c = candidates.last();
        if best.contains_key(c.vector_id) && !ranks_before(c, best[c.vector_id]) {
            best
        } else {
            best.insert(c.vector_id, c)
        }
    }
}

/// `s` holds exactly the `k` best entries of `pool` (all of them when the
/// pool is smaller): entries of the pool, at most `k` of them, one per id,
/// fewer than `k` only when every id of the pool is held, and each held entry
/// ranking before every entry of the pool that is not held.
pub open spec fn keeps_best(s: Seq<Neighbor>, pool: Map<VectorId, Neighbor>, k: nat) -> bool {
    &&& s.len() <= k
    &&& distinct_ids(s)
    &&& forall|i: int|
        0 <= i < s.len() ==> pool.contains_key(#[trigger] s[i].vector_id) && pool[s[i].vector_id]
            == s[i]
    &&& (s.len() == k || forall|id: VectorId| #[trigger] pool.contains_key(id) ==> holds_id(s, id))
    &&& forall|id: VectorId, i: int|
        #![trigger pool[id], s[i]]
        pool.contains_key(id) && !holds_id(s, id) && 0 <= i < s.len() ==> ranks_before(
            s[i],
            pool[id],
        )
}

/// The best `k` of `pool` in strictly increasing rank order.
pub open spec fn is_ranked_best(s: Seq<Neighbor>, pool: Map<VectorId, Neighbor>, k: nat) -> bool {
    keeps_best(s, pool, k) && strictly_ranked(s)
}

/// A non-empty sequence with distinct ids has exactly one worst entry.
pub proof fn lemma_worst_exists_unique(s: Seq<Neighbor>)
    requires
        distinct_ids(s),
        s.len() > 0,
    ensures
        exists|w: int| is_worst(s, w),
        forall|w1: int, w2: int| is_worst(s, w1) && is_worst(s, w2) ==> w1 == w2,
    decreases s.len(),
{
    assert forall|w1: int, w2: int| is_worst(s, w1) && is_worst(s, w2) implies w1 == w2 by {
        if w1 != w2 {
            assert(ranks_before(s[w1], s[w2]));
            assert(ranks_before(s[w2], s[w1]));
            lemma_ranks_before_strict_total_order(s[w1], s[w2], s[w1]);
        }
    }
    if s.len() == 1 {
        assert(is_worst(s, 0));
    } else {
        let prefix = s.drop_last();
        assert(distinct_ids(prefix));
        lemma_worst_exists_unique(prefix);
        let w = choose|w: int| is_worst(prefix, w);
        let last = s.len() - 1;
        lemma_ranks_before_strict_total_order(s[w], s[last], s[w]);
        assert(s[w].vector_id != s[last].vector_id);
        if ranks_before(s[w], s[last]) {
            assert forall|j: int| 0 <= j < s.len() && j != last implies ranks_before(
                #[trigger] s[j],
                s[last],
            ) by {
                if j != w {
                    assert(ranks_before(prefix[j], prefix[w]));
                    lemma_ranks_before_strict_total_order(s[j], s[w], s[last]);
                }
            }
            assert(is_worst(s, last));
        } else {
            assert forall|j: int| 0 <= j < s.len() && j != w implies ranks_before(
                #[trigger] s[j],
                s[w],
            ) by {
                if j != last {
                    assert(ranks_before(prefix[j], prefix[w]));
                }
            }
            assert(is_worst(s, w));
        }
    }
}

/// Offering one candidate keeps a selection of the best entries of the pool a
/// selection of the best entries of the pool that the candidate updates.
pub proof fn lemma_insert_keeps_best(
    s: Seq<Neighbor>,
    pool: Map<VectorId, Neighbor>,
    k: nat,
    c: Neighbor,
)
    requires
        keeps_best(s, pool, k),
    ensures
        keeps_best(
            spec_insert(s, k, c),
            if pool.contains_key(c.vector_id) && !ranks_before(c, pool[c.vector_id]) {
                pool
            } else {
                pool.insert(c.vector_id, c)
            },
            k,
        ),
{
    let id = c.vector_id;
    let pool2 = if pool.contains_key(id) && !ranks_before(c, pool[id]) {
        pool
    } else {
        pool.insert(id, c)
    };
    let s2 = spec_insert(s, k, c);
    if k == 0 {
        assert(s.len() == 0);
        assert(s2 == s);
        return;
    }
    if holds_id(s, id) {
        let i = choose|i: int| 0 <= i < s.len() && #[trigger] s[i].vector_id == id;
        assert(pool.contains_key(id) && pool[id] == s[i]);
        if ranks_before(c, s[i]) {
            assert(s2 == s.update(i, c));
            assert(pool2 == pool.insert(id, c));
            assert(distinct_ids(s2));
            assert forall|j: int| 0 <= j < s2.len() implies pool2.contains_key(
                #[trigger] s2[j].vector_id,
            ) && pool2[s2[j].vector_id] == s2[j] by {
                if j != i {
                    assert(s[j].vector_id != id);
                }
            }
            assert forall|x: VectorId| holds_id(s2, x) <==> holds_id(s, x) by {
                if holds_id(s, x) {
                    let j = choose|j: int| 0 <= j < s.len() && #[trigger] s[j].vector_id == x;
                    assert(s2[j].vector_id == x);
                }
                if holds_id(s2, x) {
                    let j = choose|j: int| 0 <= j < s2.len() && #[trigger] s2[j].vector_id == x;
                    assert(s[j].vector_id == x);
                }
            }
            if s2.len() != k {
                assert forall|x: VectorId| #[trigger] pool2.contains_key(x) implies holds_id(
                    s2,
                    x,
                ) by {
                    if x != id {
                        assert(pool.contains_key(x));
                    }
                }
            }
            assert forall|x: VectorId, j: int|
                #![trigger pool2[x], s2[j]]
                pool2.contains_key(x) && !holds_id(s2, x) && 0 <= j < s2.len() implies ranks_before(
                s2[j],
                pool2[x],
            ) by {
                assert(x != id);
                assert(pool.contains_key(x));
                assert(ranks_before(s[j], pool[x]));
                if j == i {
                    lemma_ranks_before_strict_total_order(c, s[i], pool[x]);
                }
            }
        } else {
            assert(s2 == s);
            assert(pool2 == pool);
        }
        return;
    }
    if s.len() < k {
        assert(s2 == s.push(c));
        // the selection is not full, so it holds every id of the pool
        assert(!pool.contains_key(id));
        assert(pool2 == pool.insert(id, c));
        assert(distinct_ids(s2));
        assert forall|j: int| 0 <= j < s2.len() implies pool2.contains_key(
            #[trigger] s2[j].vector_id,
        ) && pool2[s2[j].vector_id] == s2[j] by {
            if j < s.len() {
                assert(s[j].vector_id != id);
            }
        }
        assert forall|x: VectorId| #[trigger] pool2.contains_key(x) implies holds_id(s2, x) by {
            if x == id {
                assert(s2[s.len() as int].vector_id == id);
            } else {
                assert(pool.contains_key(x));
                let j = choose|j: int| 0 <= j < s.len() && #[trigger] s[j].vector_id == x;
                assert(s2[j].vector_id == x);
            }
        }
        return;
    }
    // full selection without the candidate's id
    assert(s.len() == k);
    lemma_worst_exists_unique(s);
    let w = choose|w: int| is_worst(s, w);
    assert(is_worst(s, w));
    // the pool entry of the candidate's id, if any, ranks after the worst entry
    if pool.contains_key(id) {
        assert(ranks_before(s[w], pool[id]));
    }
    if ranks_before(c, s[w]) {
        assert(s2 == s.update(w, c));
        let evicted = s[w];
        assert(evicted.vector_id != id);
        if pool.contains_key(id) {
            lemma_ranks_before_strict_total_order(c, s[w], pool[id]);
        }
        assert(pool2 == pool.insert(id, c));
        assert(distinct_ids(s2));
        assert forall|j: int| 0 <= j < s2.len() implies pool2.contains_key(
            #[trigger] s2[j].vector_id,
        ) && pool2[s2[j].vector_id] == s2[j] by {
            if j != w {
                assert(s[j].vector_id != id);
            }
        }
        assert(!holds_id(s2, evicted.vector_id)) by {
            if holds_id(s2, evicted.vector_id) {
                let j = choose|j: int|
                    0 <= j < s2.len() && #[trigger] s2[j].vector_id == evicted.vector_id;
                assert(j != w);
                assert(s[j].vector_id == s[w].vector_id);
            }
        }
        assert forall|x: VectorId, j: int|
            #![trigger pool2[x], s2[j]]
            pool2.contains_key(x) && !holds_id(s2, x) && 0 <= j < s2.len() implies ranks_before(
            s2[j],
            pool2[x],
        ) by {
            assert(x != id) by {
                assert(s2[w].vector_id == id);
            }
            assert(pool.contains_key(x));
            if x == evicted.vector_id {
                assert(pool[x] == evicted);
                if j != w {
                    assert(ranks_before(s[j], s[w]));
                }
            } else {
                assert(!holds_id(s, x)) by {
                    if holds_id(s, x) {
                        let m = choose|m: int| 0 <= m < s.len() && #[trigger] s[m].vector_id == x;
                        assert(m != w);
                        assert(s2[m].vector_id == x);
                    }
                }
                assert(ranks_before(s[j], pool[x]));
                assert(ranks_before(s[w], pool[x]));
                if j == w {
                    lemma_ranks_before_strict_total_order(c, s[w], pool[x]);
                }
            }
        }
    } else {
        assert(s2 == s);
        lemma_ranks_before_strict_total_order(c, s[w], c);
        assert(c != s[w]);
        assert(ranks_before(s[w], c));
        if pool.contains_key(id) && !ranks_before(c, pool[id]) {
            assert(pool2 == pool);
        } else {
            assert(pool2 == pool.insert(id, c));
            assert forall|j: int| 0 <= j < s2.len() implies pool2.contains_key(
                #[trigger] s2[j].vector_id,
            ) && pool2[s2[j].vector_id] == s2[j] by {
                assert(s[j].vector_id != id);
            }
            assert forall|x: VectorId, j: int|
                #![trigger pool2[x], s2[j]]
                pool2.contains_key(x) && !holds_id(s2, x) && 0 <= j < s2.len() implies ranks_before(
                s2[j],
                pool2[x],
            ) by {
                if x == id {
                    if j != w {
                        lemma_ranks_before_strict_total_order(s[j], s[w], c);
                    }
                } else {
                    assert(pool.contains_key(x));
                }
            }
        }
    }
}

/// Offering candidates one by one to an empty selection of capacity `k`
/// keeps the `k` best-ranked of them, counting for each vector id only its
/// best candidate: no id is kept twice, every kept entry ranks before every
/// best candidate that was not kept, and fewer than `k` are kept only when
/// there are fewer than `k` ids.
pub proof fn lemma_top_k_keeps_best(k: nat, candidates: Seq<Neighbor>)
    ensures
        keeps_best(spec_insert_all(k, candidates), spec_best_by_id(candidates), k),
    decreases candidates.len(),
{
    if candidates.len() == 0 {
        let s = spec_insert_all(k, candidates);
        assert(s =~= Seq::<Neighbor>::empty());
        let pool = spec_best_by_id(candidates);
        assert(pool =~= Map::<VectorId, Neighbor>::empty());
        assert(forall|id: VectorId| !(#[trigger] pool.contains_key(id)));
    } else {
        lemma_top_k_keeps_best(k, candidates.drop_last());
        lemma_insert_keeps_best(
            spec_insert_all(k, candidates.drop_last()),
            spec_best_by_id(candidates.drop_last()),
            k,
            candidates.last(),
        );
    }
}

/// The neighbours `0..distances.len()` with the given distances, by id.
pub open spec fn indexed_pool(distances: Seq<u32>) -> Map<VectorId, Neighbor> {
    Map::new(
        |id: VectorId| id < distances.len(),
        |id: VectorId| Neighbor { vector_id: id, distance: distances[id as int] },
    )
}

/// The neighbours `0..distances.len()` with the given distances, in id order.
pub open spec fn indexed_candidates(distances: Seq<u32>) -> Seq<Neighbor> {
    Seq::new(distances.len(), |i: int| Neighbor { vector_id: i as VectorId, distance: distances[i] })
}

/// With one candidate per id, the best candidate of each id is that candidate.
pub proof fn lemma_best_by_id_indexed(distances: Seq<u32>)
    requires
        distances.len() <= usize::MAX,
    ensures
        spec_best_by_id(indexed_candidates(distances)) == indexed_pool(distances),
    decreases distances.len(),
{
    let candidates = indexed_candidates(distances);
    if distances.len() == 0 {
        assert(spec_best_by_id(candidates) =~= indexed_pool(distances));
    } else {
        let prefix = distances.drop_last();
        lemma_best_by_id_indexed(prefix);
        assert(candidates.drop_last() =~= indexed_candidates(prefix));
        let last = candidates.last();
        assert(last.vector_id == distances.len() - 1);
        assert(!indexed_pool(prefix).contains_key(last.vector_id));
        assert(spec_best_by_id(candidates) =~= indexed_pool(distances));
    }
}

/// Sorting what a run of offers to an empty selection of capacity `k` kept
/// (`into_sorted` after `new(k)` and `insert` of each candidate in turn)
/// gives the `k` best candidates, one per vector id, in strictly increasing
/// rank order.
pub proof fn lemma_sorted_run_is_ranked_best(k: nat, candidates: Seq<Neighbor>, sorted: Seq<Neighbor>)
    requires
        sorted.len() == spec_insert_all(k, candidates).len(),
        forall|x: Neighbor| sorted.contains(x) <==> spec_insert_all(k, candidates).contains(x),
        strictly_ranked(sorted),
    ensures
        is_ranked_best(sorted, spec_best_by_id(candidates), k),
{
    lemma_top_k_keeps_best(k, candidates);
    lemma_keeps_best_rearranged(
        spec_insert_all(k, candidates),
        sorted,
        spec_best_by_id(candidates),
        k,
    );
}

/// A strictly ranked rearrangement of a selection of the best entries is one.
pub proof fn lemma_keeps_best_rearranged(
    s: Seq<Neighbor>,
    t: Seq<Neighbor>,
    pool: Map<VectorId, Neighbor>,
    k: nat,
)
    requires
        keeps_best(s, pool, k),
        t.len() == s.len(),
        forall|x: Neighbor| t.contains(x) <==> s.contains(x),
        strictly_ranked(t),
    ensures
        is_ranked_best(t, pool, k),
{
    assert forall|i: int| 0 <= i < t.len() implies pool.contains_key(#[trigger] t[i].vector_id)
        && pool[t[i].vector_id] == t[i] by {
        assert(t.contains(t[i]));
        let j = choose|j: int| 0 <= j < s.len() && s[j] == t[i];
        assert(pool[s[j].vector_id] == s[j]);
    }
    assert(distinct_ids(t)) by {
        assert forall|i: int, j: int|
            0 <= i < t.len() && 0 <= j < t.len() && i != j implies #[trigger] t[i].vector_id
            != #[trigger] t[j].vector_id by {
            if t[i].vector_id == t[j].vector_id {
                assert(t[i] == t[j]);
                if i < j {
                    assert(ranks_before(t[i], t[j]));
                } else {
                    assert(ranks_before(t[j], t[i]));
                }
                lemma_ranks_before_strict_total_order(t[i], t[i], t[i]);
            }
        }
    }
    assert forall|id: VectorId| holds_id(t, id) <==> holds_id(s, id) by {
        if holds_id(t, id) {
            let i = choose|i: int| 0 <= i < t.len() && #[trigger] t[i].vector_id == id;
            assert(t.contains(t[i]));
            let j = choose|j: int| 0 <= j < s.len() && s[j] == t[i];
            assert(s[j].vector_id == id);
        }
        if holds_id(s, id) {
            let i = choose|i: int| 0 <= i < s.len() && #[trigger] s[i].vector_id == id;
            assert(s.contains(s[i]));
            let j = choose|j: int| 0 <= j < t.len() && t[j] == s[i];
            assert(t[j].vector_id == id);
        }
    }
    assert forall|id: VectorId, i: int|
        #![trigger pool[id], t[i]]
        pool.contains_key(id) && !holds_id(t, id) && 0 <= i < t.len() implies ranks_before(
        t[i],
        pool[id],
    ) by {
        assert(t.contains(t[i]));
        let j = choose|j: int| 0 <= j < s.len() && s[j] == t[i];
        assert(ranks_before(s[j], pool[id]));
    }
    if t.len() != k {
        assert forall|id: VectorId| #[trigger] pool.contains_key(id) implies holds_id(t, id) by {
            assert(holds_id(s, id));
        }
    }
}

/// A selection of the best `k` of the `n` indexed neighbours holds
/// `min(k, n)` entries.
pub proof fn lemma_indexed_selection_len(s: Seq<Neighbor>, distances: Seq<u32>, k: nat)
    requires
        keeps_best(s, indexed_pool(distances), k),
        distances.len() <= usize::MAX,
    ensures
        s.len() == if k <= distances.len() { k } else { distances.len() },
{
    let n = distances.len() as int;
    let pool = indexed_pool(distances);
    let ids = s.map_values(|x: Neighbor| x.vector_id as int);
    assert(ids.no_duplicates()) by {
        assert forall|i: int, j: int|
            0 <= i < ids.len() && 0 <= j < ids.len() && i != j implies ids[i] != ids[j] by {
            assert(s[i].vector_id != s[j].vector_id);
        }
    }
    ids.unique_seq_to_set();
    vstd::set_lib::lemma_int_range(0, n);
    let range = vstd::set_lib::set_int_range(0, n);
    assert(ids.to_set().subset_of(range)) by {
        assert forall|x: int| ids.to_set().contains(x) implies range.contains(x) by {
            assert(ids.contains(x));
            let i = choose|i: int| 0 <= i < ids.len() && ids[i] == x;
            assert(pool.contains_key(s[i].vector_id));
        }
    }
    vstd::set_lib::lemma_len_subset(ids.to_set(), range);
    if s.len() != k {
        assert(range.subset_of(ids.to_set())) by {
            assert forall|x: int| range.contains(x) implies ids.to_set().contains(x) by {
                let id = x as VectorId;
                assert(pool.contains_key(id));
                assert(holds_id(s, id));
                let i = choose|i: int| 0 <= i < s.len() && #[trigger] s[i].vector_id == id;
                assert(ids[i] == x);
                assert(ids.contains(x));
            }
        }
        ids.lemma_cardinality_of_set();
        vstd::set_lib::lemma_len_subset(range, ids.to_set());
    }
}

/// Two strictly ranked sequences with the same entries are equal.
pub proof fn lemma_strictly_ranked_same_entries(a: Seq<Neighbor>, b: Seq<Neighbor>)
    requires
        strictly_ranked(a),
        strictly_ranked(b),
        forall|x: Neighbor| a.contains(x) <==> b.contains(x),
    ensures
        a == b,
    decreases a.len(),
{
    if a.len() == 0 {
        if b.len() > 0 {
            assert(b.contains(b[0]));
        }
        assert(a =~= b);
    } else {
        assert(a.contains(a[0]));
        let j = choose|j: int| 0 <= j < b.len() && b[j] == a[0];
        assert(b.contains(b[0]));
        let i = choose|i: int| 0 <= i < a.len() && a[i] == b[0];
        if j > 0 {
            assert(ranks_before(b[0], b[j]));
            if i > 0 {
                assert(ranks_before(a[0], a[i]));
                lemma_ranks_before_strict_total_order(a[0], b[0], a[0]);
            } else {
                lemma_ranks_before_strict_total_order(a[0], a[0], a[0]);
            }
        }
        assert(a[0] == b[0]);
        let a1 = a.drop_first();
        let b1 = b.drop_first();
        assert forall|x: Neighbor| a1.contains(x) <==> b1.contains(x) by {
            if a1.contains(x) {
                let m = choose|m: int| 0 <= m < a1.len() && a1[m] == x;
                assert(a[m + 1] == x);
                assert(ranks_before(a[0], a[m + 1]));
                assert(a.contains(x));
                let n = choose|n: int| 0 <= n < b.len() && b[n] == x;
                if n == 0 {
                    lemma_ranks_before_strict_total_order(x, x, x);
                }
                assert(b1[n - 1] == x);
            }
            if b1.contains(x) {
                let m = choose|m: int| 0 <= m < b1.len() && b1[m] == x;
                assert(b[m + 1] == x);
                assert(ranks_before(b[0], b[m + 1]));
                assert(b.contains(x));
                let n = choose|n: int| 0 <= n < a.len() && a[n] == x;
                if n == 0 {
                    lemma_ranks_before_strict_total_order(x, x, x);
                }
                assert(a1[n - 1] == x);
            }
        }
        lemma_strictly_ranked_same_entries(a1, b1);
        assert(a =~= b) by {
            assert forall|m: int| 0 <= m < a.len() implies a[m] == b[m] by {
                if m > 0 {
                    assert(a[m] == a1[m - 1]);
                    assert(b[m] == b1[m - 1]);
                }
            }
        }
    }
}

/// Every entry of one best-`k` selection of a pool is in any other.
proof fn lemma_best_selection_entries_shared(
    r1: Seq<Neighbor>,
    r2: Seq<Neighbor>,
    pool: Map<VectorId, Neighbor>,
    k: nat,
    x: Neighbor,
)
    requires
        keeps_best(r1, pool, k),
        keeps_best(r2, pool, k),
        r1.contains(x),
    ensures
        r2.contains(x),
{
    let i = choose|i: int| 0 <= i < r1.len() && r1[i] == x;
    let id = x.vector_id;
    assert(pool.contains_key(r1[i].vector_id));
    if holds_id(r2, id) {
        let m = choose|m: int| 0 <= m < r2.len() && #[trigger] r2[m].vector_id == id;
        assert(pool[r2[m].vector_id] == r2[m]);
        assert(r2[m] == x);
    } else {
        assert(r2.len() == k);
        // every entry of r2 ranks before x, so each is in r1
        assert forall|y: Neighbor| r2.contains(y) implies r1.contains(y) by {
            let j = choose|j: int| 0 <= j < r2.len() && r2[j] == y;
            assert(pool.contains_key(r2[j].vector_id));
            assert(ranks_before(r2[j], pool[id]));
            if holds_id(r1, y.vector_id) {
                let m = choose|m: int| 0 <= m < r1.len() && #[trigger] r1[m].vector_id == y.vector_id;
                assert(pool[r1[m].vector_id] == r1[m]);
                assert(r1[m] == y);
            } else {
                assert(ranks_before(r1[i], pool[y.vector_id]));
                lemma_ranks_before_strict_total_order(x, y, x);
            }
        }
        assert(!r2.contains(x)) by {
            if r2.contains(x) {
                let m = choose|m: int| 0 <= m < r2.len() && r2[m] == x;
                assert(r2[m].vector_id == id);
            }
        }
        // counting: r2 and x all lie in r1, which is no longer than k
        assert(r1.no_duplicates()) by {
            assert forall|p: int, q: int| 0 <= p < r1.len() && 0 <= q < r1.len() && p != q implies r1[p]
                != r1[q] by {
                assert(r1[p].vector_id != r1[q].vector_id);
            }
        }
        assert(r2.no_duplicates()) by {
            assert forall|p: int, q: int| 0 <= p < r2.len() && 0 <= q < r2.len() && p != q implies r2[p]
                != r2[q] by {
                assert(r2[p].vector_id != r2[q].vector_id);
            }
        }
        r1.unique_seq_to_set();
        r2.unique_seq_to_set();
        assert(r2.to_set().insert(x).subset_of(r1.to_set()));
        vstd::set_lib::lemma_len_subset(r2.to_set().insert(x), r1.to_set());
        assert(!r2.to_set().contains(x));
    }
}

/// The best `k` entries of a pool in rank order are unique: whatever order
/// the candidates came in, the ranked result is the same.
pub proof fn lemma_ranked_best_unique(
    r1: Seq<Neighbor>,
    r2: Seq<Neighbor>,
    pool: Map<VectorId, Neighbor>,
    k: nat,
)
    requires
        is_ranked_best(r1, pool, k),
        is_ranked_best(r2, pool, k),
    ensures
        r1 == r2,
{
    assert forall|x: Neighbor| r1.contains(x) <==> r2.contains(x) by {
        if r1.contains(x) {
            lemma_best_selection_entries_shared(r1, r2, pool, k, x);
        }
        if r2.contains(x) {
            lemma_best_selection_entries_shared(r2, r1, pool, k, x);
        }
    }
    lemma_strictly_ranked_same_entries(r1, r2);
}

/// The `k` best of vectors `0..distances.len()`, in ranked order, are listed
/// by increasing distance in the order of `f32::total_cmp`, equal distances by
/// increasing id; each carries its own distance; and every vector left out
/// is farther, or as far with a higher id, than every vector listed.
pub proof fn lemma_ranked_best_by_distance(s: Seq<Neighbor>, distances: Seq<u32>, k: nat)
    requires
        is_ranked_best(s, indexed_pool(distances), k),
        distances.len() <= usize::MAX,
    ensures
        forall|i: int|
            0 <= i < s.len() ==> (#[trigger] s[i]).vector_id < distances.len() && s[i].distance
                == distances[s[i].vector_id as int],
        forall|i: int, j: int|
            0 <= i < j < s.len() ==> total_order_key((#[trigger] s[i]).distance) < total_order_key(
                (#[trigger] s[j]).distance,
            ) || (total_order_key(s[i].distance) == total_order_key(s[j].distance)
                && s[i].vector_id < s[j].vector_id),
        forall|i: int, v: int|
            0 <= i < s.len() && 0 <= v < distances.len() && (forall|m: int|
                0 <= m < s.len() ==> s[m].vector_id != v) ==> total_order_key(
                (#[trigger] s[i]).distance,
            ) < total_order_key(#[trigger] distances[v]) || (total_order_key(s[i].distance)
                == total_order_key(distances[v]) && s[i].vector_id < v),
{
    let pool = indexed_pool(distances);
    assert forall|i: int, v: int|
        0 <= i < s.len() && 0 <= v < distances.len() && (forall|m: int|
            0 <= m < s.len() ==> s[m].vector_id != v) implies total_order_key(
        (#[trigger] s[i]).distance,
    ) < total_order_key(#[trigger] distances[v]) || (total_order_key(s[i].distance)
        == total_order_key(distances[v]) && s[i].vector_id < v) by {
        let id = v as VectorId;
        assert(pool.contains_key(id));
        assert(id as int == v);
        if holds_id(s, id) {
            let m = choose|m: int| 0 <= m < s.len() && #[trigger] s[m].vector_id == id;
            assert(s[m].vector_id != v);
        }
        assert(ranks_before(s[i], pool[id]));
    }
}

/// Offers the neighbours `0..distances.len()` with the given distances to a
/// selection of capacity `top_k` and returns what it keeps, best first.
pub fn rank_by_distance(distances: &[u32], top_k: usize) -> (ranked: Vec<Neighbor>)
    ensures
        is_ranked_best(ranked@, indexed_pool(distances@), top_k as nat),
        ranked@.len() == if top_k <= distances@.len() { top_k as nat } else { distances@.len() },
{
    let ghost candidates = indexed_candidates(distances@);
    let mut best = TopK::new(top_k);
    let mut id: usize = 0;
    while id < distances.len()
        invariant
            id <= distances@.len(),
            candidates == indexed_candidates(distances@),
            best.spec_capacity() == top_k,
            best.contents() == spec_insert_all(top_k as nat, candidates.take(id as int)),
        decreases distances@.len() - id,
    {
        let candidate = Neighbor { vector_id: id, distance: distances[id] };
        best.insert(candidate);
        proof {
            assert(candidates.take(id + 1).drop_last() =~= candidates.take(id as int));
            assert(candidates.take(id + 1).last() == candidate);
        }
        id += 1;
    }
    proof {
        assert(candidates.take(distances@.len() as int) =~= candidates);
        lemma_best_by_id_indexed(distances@);
    }
    let ranked = best.into_sorted();
    proof {
        lemma_sorted_run_is_ranked_best(top_k as nat, candidates, ranked@);
        lemma_indexed_selection_len(ranked@, distances@, top_k as nat);
    }
    ranked
}

/// A bounded selection of the best neighbours, at most one per vector id.
#[derive(Debug)]
pub struct TopK {
    capacity: usize,
    neighbors: Vec<Neighbor>,
}

impl TopK {
    /// The most entries the selection keeps.
    pub closed spec fn spec_capacity(&self) -> nat {
        self.capacity as nat
    }

    /// The entries kept, in insertion-and-replacement order.
    pub closed spec fn contents(&self) -> Seq<Neighbor> {
        self.neighbors@
    }

    /// At most `capacity` entries, with distinct ids.
    #[verifier::type_invariant]
    spec fn well_formed(&self) -> bool {
        self.neighbors@.len() <= self.capacity && distinct_ids(self.neighbors@)
    }

    /// An empty selection of at most `capacity` entries.
    pub fn new(capacity: usize) -> (top: Self)
        ensures
            top.spec_capacity() == capacity,
            top.contents() == Seq::<Neighbor>::empty(),
    {
        TopK { capacity, neighbors: Vec::new() }
    }

    /// Offers a candidate (see `spec_insert`).
    pub fn insert(&mut self, candidate: Neighbor)
        ensures
            final(self).contents().len() <= final(self).spec_capacity(),
            distinct_ids(final(self).contents()),
            final(self).spec_capacity() == old(self).spec_capacity(),
            final(self).contents() == spec_insert(
                old(self).contents(),
                old(self).spec_capacity(),
                candidate,
            ),
    {
        proof {
            use_type_invariant(&*self);
        }
        if self.capacity == 0 {
            return;
        }
        let ghost s = self.neighbors@;
        let mut kept: Vec<Neighbor> = Vec::new();
        std::mem::swap(&mut kept, &mut self.neighbors);
        match position_of_id(&kept, candidate.vector_id) {
            Some(i) => {
                proof {
                    let j = choose|j: int|
                        0 <= j < s.len() && #[trigger] s[j].vector_id == candidate.vector_id;
                    assert(j == i);
                }
                if candidate.is_better_than(&kept[i]) {
                    kept.set(i, candidate);
                    assert(kept@ == s.update(i as int, candidate));
                }
                self.neighbors = kept;
                return;
            },
            None => {},
        }
        if kept.len() < self.capacity {
            kept.push(candidate);
            self.neighbors = kept;
            return;
        }
        proof {
            lemma_worst_exists_unique(s);
        }
        let w = worst_position(&kept);
        if candidate.is_better_than(&kept[w]) {
            kept.set(w, candidate);
            assert(kept@ == s.update(w as int, candidate));
        }
        self.neighbors = kept;
    }

    /// The kept entries in strictly increasing rank order.
    pub fn into_sorted(self) -> (sorted: Vec<Neighbor>)
        ensures
            sorted@.len() == self.contents().len(),
            sorted@.len() <= self.spec_capacity(),
            distinct_ids(sorted@),
            forall|x: Neighbor| sorted@.contains(x) <==> self.contents().contains(x),
            strictly_ranked(sorted@),
    {
        proof {
            use_type_invariant(&self);
        }
        let ghost initial = self.neighbors@;
        let mut rest = self.neighbors;
        let mut sorted: Vec<Neighbor> = Vec::new();
        while rest.len() > 0
            invariant
                sorted@.len() + rest@.len() == initial.len(),
                distinct_ids(rest@),
                strictly_ranked(sorted@),
                forall|i: int, j: int|
                    0 <= i < sorted@.len() && 0 <= j < rest@.len() ==> ranks_before(
                        #[trigger] sorted@[i],
                        #[trigger] rest@[j],
                    ),
                forall|x: Neighbor|
                    initial.contains(x) <==> (sorted@.contains(x) || rest@.contains(x)),
            decreases rest@.len(),
        {
            let m = best_position(&rest);
            let ghost before = rest@;
            let ghost sorted_before = sorted@;
            let best = rest.remove(m);
            sorted.push(best);
            proof {
                assert(distinct_ids(rest@));
                assert forall|i: int, j: int|
                    0 <= i < sorted@.len() && 0 <= j < rest@.len() implies ranks_before(
                    #[trigger] sorted@[i],
                    #[trigger] rest@[j],
                ) by {
                    let jj = if j < m { j } else { j + 1 };
                    assert(rest@[j] == before[jj]);
                    if i == sorted@.len() - 1 {
                        assert(jj != m);
                    }
                }
                assert forall|i: int, j: int|
                    0 <= i < j < sorted@.len() implies ranks_before(
                    #[trigger] sorted@[i],
                    #[trigger] sorted@[j],
                ) by {
                    if j == sorted@.len() - 1 {
                        assert(sorted@[j] == before[m as int]);
                    }
                }
                assert forall|x: Neighbor|
                    initial.contains(x) <==> (sorted@.contains(x) || rest@.contains(x)) by {
                    if before.contains(x) {
                        let k = choose|k: int| 0 <= k < before.len() && before[k] == x;
                        if k == m {
                            assert(sorted@[sorted@.len() - 1] == x);
                        } else if k < m {
                            assert(rest@[k] == x);
                        } else {
                            assert(rest@[k - 1] == x);
                        }
                    }
                    if sorted_before.contains(x) {
                        let k = choose|k: int| 0 <= k < sorted_before.len() && sorted_before[k] == x;
                        assert(sorted@[k] == x);
                    }
                    if sorted@.contains(x) {
                        let k = choose|k: int| 0 <= k < sorted@.len() && sorted@[k] == x;
                        if k < sorted_before.len() {
                            assert(sorted_before[k] == x);
                        } else {
                            assert(before[m as int] == x);
                        }
                    }
                    if rest@.contains(x) {
                        let k = choose|k: int| 0 <= k < rest@.len() && rest@[k] == x;
                        if k < m {
                            assert(before[k] == x);
                        } else {
                            assert(before[k + 1] == x);
                        }
                    }
                }
            }
        }
        proof {
            assert forall|i: int, j: int|
                0 <= i < sorted@.len() && 0 <= j < sorted@.len() && i != j implies #[trigger] sorted@[i].vector_id
                != #[trigger] sorted@[j].vector_id by {
                lemma_ranks_before_strict_total_order(sorted@[i], sorted@[j], sorted@[i]);
                assert(initial.contains(sorted@[i]));
                assert(initial.contains(sorted@[j]));
                let a = choose|a: int| 0 <= a < initial.len() && initial[a] == sorted@[i];
                let b = choose|b: int| 0 <= b < initial.len() && initial[b] == sorted@[j];
                if i < j {
                    assert(sorted@[i] != sorted@[j]);
                } else {
                    assert(sorted@[j] != sorted@[i]);
                }
                assert(a != b);
            }
        }
        sorted
    }
}

impl Clone for TopK {
    fn clone(&self) -> (copy: Self)
        ensures
            copy.spec_capacity() == self.spec_capacity(),
            copy.contents() == self.contents(),
    {
        proof {
            use_type_invariant(self);
        }
        let mut neighbors: Vec<Neighbor> = Vec::new();
        let mut i: usize = 0;
        while i < self.neighbors.len()
            invariant
                i <= self.neighbors@.len(),
                neighbors@ == self.neighbors@.take(i as int),
            decreases self.neighbors@.len() - i,
        {
            neighbors.push(self.neighbors[i]);
            i += 1;
            assert(neighbors@ == self.neighbors@.take(i as int));
        }
        assert(self.neighbors@.take(self.neighbors@.len() as int) == self.neighbors@);
        TopK { capacity: self.capacity, neighbors }
    }
}

/// Index of the entry with vector id `id`, if any.
fn position_of_id(s: &Vec<Neighbor>, id: VectorId) -> (found: Option<usize>)
    ensures
        match found {
            Some(i) => i < s@.len() && s@[i as int].vector_id == id,
            None => !holds_id(s@, id),
        },
{
    let mut i: usize = 0;
    while i < s.len()
        invariant
            i <= s@.len(),
            forall|j: int| 0 <= j < i ==> #[trigger] s@[j].vector_id != id,
        decreases s@.len() - i,
    {
        if s[i].vector_id == id {
            return Some(i);
        }
        i += 1;
    }
    None
}

/// Index of the entry that ranks after all others.
fn worst_position(s: &Vec<Neighbor>) -> (w: usize)
    requires
        s@.len() > 0,
        distinct_ids(s@),
    ensures
        is_worst(s@, w as int),
{
    let mut w: usize = 0;
    let mut i: usize = 1;
    while i < s.len()
        invariant
            1 <= i <= s@.len(),
            w < i,
            distinct_ids(s@),
            forall|j: int| 0 <= j < i && j != w ==> ranks_before(#[trigger] s@[j], s@[w as int]),
        decreases s@.len() - i,
    {
        let ghost old_w = w;
        if s[w].is_better_than(&s[i]) {
            {
                proof {
                    assert forall|j: int| 0 <= j < i + 1 && j != i implies ranks_before(
                        #[trigger] s@[j],
                        s@[i as int],
                    ) by {
                        if j != old_w {
                            lemma_ranks_before_strict_total_order(
                                s@[j],
                                s@[old_w as int],
                                s@[i as int],
                            );
                        }
                    }
                }
                w = i;
            }
        } else {
            {
                proof {
                    assert(s@[i as int].vector_id != s@[w as int].vector_id);
                    lemma_ranks_before_strict_total_order(s@[i as int], s@[w as int], s@[i as int]);
                }
            }
        }
        i += 1;
    }
    w
}

/// Index of the entry that ranks before all others.
fn best_position(s: &Vec<Neighbor>) -> (m: usize)
    requires
        s@.len() > 0,
        distinct_ids(s@),
    ensures
        m < s@.len(),
        forall|j: int| 0 <= j < s@.len() && j != m ==> ranks_before(s@[m as int], #[trigger] s@[j]),
{
    let mut m: usize = 0;
    let mut i: usize = 1;
    while i < s.len()
        invariant
            1 <= i <= s@.len(),
            m < i,
            distinct_ids(s@),
            forall|j: int| 0 <= j < i && j != m ==> ranks_before(s@[m as int], #[trigger] s@[j]),
        decreases s@.len() - i,
    {
        let ghost old_m = m;
        if s[i].is_better_than(&s[m]) {
            {
                proof {
                    assert forall|j: int| 0 <= j < i + 1 && j != i implies ranks_before(
                        s@[i as int],
                        #[trigger] s@[j],
                    ) by {
                        if j != old_m {
                            lemma_ranks_before_strict_total_order(
                                s@[i as int],
                                s@[old_m as int],
                                s@[j],
                            );
                        }
                    }
                }
                m = i;
            }
        } else {
            {
                proof {
                    assert(s@[i as int].vector_id != s@[m as int].vector_id);
                    lemma_ranks_before_strict_total_order(s@[i as int], s@[m as int], s@[i as int]);
                }
            }
        }
        i += 1;
    }
    m
}

} // verus!
