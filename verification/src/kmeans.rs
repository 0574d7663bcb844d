//! The discrete steps of Lloyd's k-means: input checks, assignment of points
//! to their nearest centroid, and repair of empty clusters.

use vstd::prelude::*;
use crate::error::{AppError, is_invalid_config, is_kmeans_error, invalid_config, kmeans_error};
use crate::vector::VectorSet;
use crate::vector::float_bits::{total_order_key, total_order_key_of};
use crate::vector::nearest::{
    first_nearest_from, scan_nearest, is_lowest_minimum, lemma_first_nearest_is_lowest_minimum,
};
use crate::vector::float_bits::is_nan_bits;

verus! {

/// Checks that k-means can place `centroid_count` centroids on `points`.
pub fn validate_input(points: &VectorSet, centroid_count: usize) -> (checked: Result<(), AppError>)
    ensures
        match checked {
            Ok(()) => 0 < centroid_count <= points.spec_len(),
            Err(e) => if centroid_count == 0 {
                is_invalid_config(e, "k-means centroid count must be positive"@)
            } else {
                &&& points.spec_len() < centroid_count
                &&& is_invalid_config(e, "k-means needs at least as many points as centroids"@)
            },
        },
{
    if centroid_count == 0 {
        return Err(invalid_config("k-means centroid count must be positive"));
    }
    if points.len() < centroid_count {
        return Err(invalid_config("k-means needs at least as many points as centroids"));
    }
    Ok(())
}

/// Distances of point `p` to every centroid, from a row-major matrix.
pub open spec fn distance_row(distances: Seq<u32>, centroid_count: nat, p: int) -> Seq<u32> {
    distances.subrange(p * centroid_count, p * centroid_count + centroid_count)
}

/// The centroid a point is assigned to: the first one whose distance is `<`
/// all earlier ones (a scan that starts from centroid 0).
pub open spec fn assigned_centroid(row: Seq<u32>) -> int {
    first_nearest_from(row, 1, 0, row[0])
}

/// How many of the first `upto` points are assigned to `centroid`.
pub open spec fn cluster_size(assignments: Seq<usize>, centroid: int, upto: int) -> nat
    decreases upto,
{
    if upto <= 0 {
        0
    } else {
        cluster_size(assignments, centroid, upto - 1) + if assignments[upto - 1] == centroid {
            1nat
        } else {
            0nat
        }
    }
}

/// A cluster holds no more points than were counted.
proof fn lemma_cluster_size_bounded(assignments: Seq<usize>, centroid: int, upto: int)
    requires
        upto >= 0,
    ensures
        cluster_size(assignments, centroid, upto) <= upto,
    decreases upto,
{
    if upto > 0 {
        lemma_cluster_size_bounded(assignments, centroid, upto - 1);
    }
}

/// Assigns each point to its nearest centroid and counts the cluster sizes.
/// `distances[p * centroid_count + c]` is the squared distance between point
/// `p` and centroid `c`; `assignments` and `assignment_distances` have one
/// entry per point.
pub fn assign_points(
    distances: &[u32],
    centroid_count: usize,
    assignments: &mut Vec<usize>,
    assignment_distances: &mut Vec<u32>,
) -> (counts: Vec<usize>)
    requires
        centroid_count > 0,
        old(assignment_distances)@.len() == old(assignments)@.len(),
        distances@.len() == old(assignments)@.len() * centroid_count,
    ensures
        final(assignments)@.len() == old(assignments)@.len(),
        final(assignment_distances)@.len() == old(assignments)@.len(),
        forall|p: int|
            #![trigger final(assignments)@[p]]
            #![trigger final(assignment_distances)@[p]]
            0 <= p < final(assignments)@.len() ==> {
                let row = distance_row(distances@, centroid_count as nat, p);
                &&& final(assignments)@[p] == assigned_centroid(row)
                &&& final(assignment_distances)@[p] == row[final(assignments)@[p] as int]
                &&& final(assignments)@[p] < centroid_count
            },
        forall|p: int|
            0 <= p < final(assignments)@.len() ==> {
                let row = distances@.subrange(
                    p * centroid_count,
                    p * centroid_count + centroid_count,
                );
                (forall|j: int| 0 <= j < row.len() ==> !is_nan_bits(#[trigger] row[j]))
                    ==> is_lowest_minimum(row, #[trigger] final(assignments)@[p] as int)
            },
        counts@.len() == centroid_count,
        forall|c: int|
            0 <= c < centroid_count ==> #[trigger] counts@[c] == cluster_size(
                final(assignments)@,
                c,
                final(assignments)@.len() as int,
            ),
{
    let point_count = assignments.len();
    let mut counts: Vec<usize> = Vec::new();
    let mut c: usize = 0;
    while c < centroid_count
        invariant
            c <= centroid_count,
            counts@.len() == c,
            forall|k: int| 0 <= k < c ==> #[trigger] counts@[k] == 0,
        decreases centroid_count - c,
    {
        counts.push(0);
        c += 1;
    }
    let mut p: usize = 0;
    while p < point_count
        invariant
            p <= point_count,
            point_count == assignments@.len(),
            assignment_distances@.len() == point_count,
            centroid_count > 0,
            distances@.len() == point_count * centroid_count,
            counts@.len() == centroid_count,
            forall|q: int|
                #![trigger assignments@[q]]
                #![trigger assignment_distances@[q]]
                0 <= q < p ==> {
                    let row = distance_row(distances@, centroid_count as nat, q);
                    &&& assignments@[q] == assigned_centroid(row)
                    &&& assignment_distances@[q] == row[assignments@[q] as int]
                    &&& assignments@[q] < centroid_count
                },
            forall|k: int|
                0 <= k < centroid_count ==> #[trigger] counts@[k] == cluster_size(
                    assignments@,
                    k,
                    p as int,
                ),
        decreases point_count - p,
    {
        proof {
            crate::vector::set::lemma_row_in_bounds(
                p as int,
                point_count as int,
                centroid_count as int,
            );
            assert(p * centroid_count + centroid_count <= distances.len());
        }
        let start = p * centroid_count;
        let row = vstd::slice::slice_subrange(distances, start, start + centroid_count);
        let best = scan_nearest(row, 1, 0, row[0]);
        let ghost before = assignments@;
        let ghost before_distances = assignment_distances@;
        assignments[p] = best;
        assignment_distances[p] = row[best];
        proof {
            assert(row@ == distance_row(distances@, centroid_count as nat, p as int));
            assert forall|q: int|
                #![trigger assignments@[q]]
                #![trigger assignment_distances@[q]]
                0 <= q < p + 1 implies {
                let r = distance_row(distances@, centroid_count as nat, q);
                &&& assignments@[q] == assigned_centroid(r)
                &&& assignment_distances@[q] == r[assignments@[q] as int]
                &&& assignments@[q] < centroid_count
            } by {
                if q < p {
                    assert(assignments@[q] == before[q]);
                    assert(assignment_distances@[q] == before_distances[q]);
                }
            }
            lemma_cluster_size_bounded(before, best as int, p as int);
            assert forall|k: int| 0 <= k < centroid_count implies cluster_size(
                assignments@,
                k,
                p as int,
            ) == cluster_size(before, k, p as int) by {
                lemma_cluster_size_prefix(before, assignments@, k, p as int);
            }
        }
        counts[best] = counts[best] + 1;
        proof {
            assert forall|k: int| 0 <= k < centroid_count implies #[trigger] counts@[k]
                == cluster_size(assignments@, k, p + 1) by {
                assert(cluster_size(assignments@, k, p + 1) == cluster_size(assignments@, k, p as int)
                    + if assignments@[p as int] == k {
                    1nat
                } else {
                    0nat
                });
            }
        }
        p += 1;
    }
    proof {
        assert forall|q: int| 0 <= q < assignments@.len() implies {
            let row = distances@.subrange(
                q * centroid_count,
                q * centroid_count + centroid_count,
            );
            (forall|j: int| 0 <= j < row.len() ==> !is_nan_bits(#[trigger] row[j]))
                ==> is_lowest_minimum(row, #[trigger] assignments@[q] as int)
        } by {
            let row = distance_row(distances@, centroid_count as nat, q);
            crate::vector::set::lemma_row_in_bounds(q, point_count as int, centroid_count as int);
            if forall|j: int| 0 <= j < row.len() ==> !is_nan_bits(#[trigger] row[j]) {
                lemma_first_nearest_is_lowest_minimum(row);
            }
        }
    }
    counts
}

/// Cluster sizes over a prefix depend only on that prefix.
proof fn lemma_cluster_size_prefix(a: Seq<usize>, b: Seq<usize>, centroid: int, upto: int)
    requires
        0 <= upto <= a.len(),
        upto <= b.len(),
        forall|i: int| 0 <= i < upto ==> a[i] == b[i],
    ensures
        cluster_size(a, centroid, upto) == cluster_size(b, centroid, upto),
    decreases upto,
{
    if upto > 0 {
        lemma_cluster_size_prefix(a, b, centroid, upto - 1);
    }
}

/// The clusters with no point, in increasing order, among the first `upto`.
pub open spec fn empty_clusters(counts: Seq<usize>, upto: int) -> Seq<usize>
    decreases upto,
{
    if upto <= 0 {
        Seq::empty()
    } else if counts[upto - 1] == 0 {
        empty_clusters(counts, upto - 1).push((upto - 1) as usize)
    } else {
        empty_clusters(counts, upto - 1)
    }
}

/// The k-means state the repair works on: centroids, assignments,
/// assignment distances (`f32` bit patterns) and cluster sizes.
pub type ClusterState = (Seq<Seq<u32>>, Seq<usize>, Seq<u32>, Seq<usize>);

/// Point `p` may give up its cluster: that cluster has more than one point.
pub open spec fn may_donate(state: ClusterState, p: int) -> bool {
    0 <= p < state.1.len() && state.3[state.1[p] as int] > 1
}

/// Point `p` is a better donor than point `q`: farther from its centroid in
/// the total order of `f32::total_cmp`, or as far and with a lower index.
pub open spec fn donates_before(distances: Seq<u32>, p: int, q: int) -> bool {
    ||| total_order_key(distances[p]) > total_order_key(distances[q])
    ||| (total_order_key(distances[p]) == total_order_key(distances[q]) && p < q)
}

/// Point `p` is the donor: it may donate and is a better donor than every
/// other point that may.
pub open spec fn is_donor(state: ClusterState, p: int) -> bool {
    &&& may_donate(state, p)
    &&& forall|q: int| #[trigger] may_donate(state, q) && q != p ==> donates_before(state.2, p, q)
}

/// Refills empty cluster `empty` with the donor point: the donor moves to
/// it at distance zero and its coordinates become the cluster's centroid.
/// Fails when no point may donate.
pub open spec fn repair_one(points: VectorSet, state: ClusterState, empty: int) -> (
    ClusterState,
    bool,
) {
    if exists|p: int| is_donor(state, p) {
        let p = choose|p: int| is_donor(state, p);
        let source = state.1[p] as int;
        let counts = state.3.update(source, (state.3[source] - 1) as usize).update(
            empty,
            (state.3[empty] + 1) as usize,
        );
        (
            (
                state.0.update(empty, points.spec_vector(p)),
                state.1.update(p, empty as usize),
                state.2.update(p, 0u32),
                counts,
            ),
            true,
        )
    } else {
        (state, false)
    }
}

/// Repairs the clusters of `empties` in order, stopping at the first that
/// cannot be refilled; the flag tells whether all were.
pub open spec fn repair_all(points: VectorSet, state: ClusterState, empties: Seq<usize>) -> (
    ClusterState,
    bool,
)
    decreases empties.len(),
{
    if empties.len() == 0 {
        (state, true)
    } else {
        let (before, ok) = repair_all(points, state, empties.drop_last());
        if !ok {
            (before, false)
        } else {
            repair_one(points, before, empties.last() as int)
        }
    }
}

/// The state is consistent: one assignment and distance per point, every
/// assignment names a cluster, one centroid of the points' dimension per
/// cluster, and each size counts the points assigned to its cluster.
pub open spec fn consistent(points: VectorSet, state: ClusterState) -> bool {
    &&& state.1.len() == points.spec_len()
    &&& state.2.len() == points.spec_len()
    &&& state.0.len() == state.3.len()
    &&& forall|p: int| 0 <= p < state.1.len() ==> (#[trigger] state.1[p]) < state.3.len()
    &&& forall|c: int| 0 <= c < state.0.len() ==> (#[trigger] state.0[c]).len() == points.spec_dimension()
    &&& forall|c: int|
        0 <= c < state.3.len() ==> #[trigger] state.3[c] == cluster_size(
            state.1,
            c,
            state.1.len() as int,
        )
}

/// Moving point `p` from cluster `from` to cluster `to` moves one unit of
/// size between them.
proof fn lemma_cluster_size_move(a: Seq<usize>, p: int, to: usize, c: int, upto: int)
    requires
        0 <= p < a.len(),
        0 <= upto <= a.len(),
    ensures
        cluster_size(a.update(p, to), c, upto) + (if p < upto && a[p] == c {
            1nat
        } else {
            0nat
        }) == cluster_size(a, c, upto) + (if p < upto && to == c {
            1nat
        } else {
            0nat
        }),
    decreases upto,
{
    if upto > 0 {
        lemma_cluster_size_move(a, p, to, c, upto - 1);
    }
}

/// Refills every cluster that `counts` records as empty, in increasing
/// order, each with the point farthest from its centroid among those whose
/// cluster has more than one point (the lowest index among equally far
/// ones); fails when no such point remains.
pub fn repair_empty_clusters(
    points: &VectorSet,
    centroids: &mut Vec<Vec<u32>>,
    assignments: &mut Vec<usize>,
    assignment_distances: &mut Vec<u32>,
    counts: &mut Vec<usize>,
) -> (repaired: Result<(), AppError>)
    requires
        consistent(
            *points,
            (
                old(centroids)@.map_values(|v: Vec<u32>| v@),
                old(assignments)@,
                old(assignment_distances)@,
                old(counts)@,
            ),
        ),
    ensures
        ({
            let before = (
                old(centroids)@.map_values(|v: Vec<u32>| v@),
                old(assignments)@,
                old(assignment_distances)@,
                old(counts)@,
            );
            let after = (
                final(centroids)@.map_values(|v: Vec<u32>| v@),
                final(assignments)@,
                final(assignment_distances)@,
                final(counts)@,
            );
            let (expected, ok) = repair_all(
                *points,
                before,
                empty_clusters(old(counts)@, old(counts)@.len() as int),
            );
            &&& after == expected
            &&& match repaired {
                Ok(()) => {
                    &&& ok
                    &&& consistent(*points, after)
                    &&& forall|c: int| 0 <= c < after.3.len() ==> #[trigger] after.3[c] > 0
                    &&& forall|c: int|
                        0 <= c < before.3.len() && #[trigger] before.3[c] == 0 ==> {
                            &&& after.3[c] == 1
                            &&& forall|p: int|
                                0 <= p < after.1.len() && #[trigger] after.1[p] == c ==> after.0[c]
                                    == points.spec_vector(p)
                        }
                    &&& forall|c: int|
                        0 <= c < before.3.len() && #[trigger] before.3[c] == 0 && (forall|b: int|
                            0 <= b < c ==> before.3[b] != 0) ==> exists|p: int|
                            0 <= p < after.1.len() && #[trigger] after.1[p] == c && before.3[before.1[p] as int] > 1
                                && forall|q: int|
                                0 <= q < before.1.len() && before.3[before.1[q] as int] > 1 && q != p
                                    ==> total_order_key(before.2[p]) > total_order_key(
                                    #[trigger] before.2[q],
                                ) || (total_order_key(before.2[p]) == total_order_key(before.2[q])
                                    && p < q)
                },
                Err(e) => !ok && is_kmeans_error(
                    e,
                    "cannot repair an empty cluster without emptying a donor"@,
                ),
            }
        }),
{
    let ghost initial_counts = counts@;
    let ghost start = (
        centroids@.map_values(|v: Vec<u32>| v@),
        assignments@,
        assignment_distances@,
        counts@,
    );
    let cluster_count = counts.len();
    let point_count = points.len();
    let mut empties: Vec<usize> = Vec::new();
    let mut c: usize = 0;
    while c < cluster_count
        invariant
            c <= cluster_count,
            cluster_count == counts@.len(),
            counts@ == initial_counts,
            empties@ == empty_clusters(initial_counts, c as int),
        decreases cluster_count - c,
    {
        if counts[c] == 0 {
            empties.push(c);
        }
        c += 1;
    }
    proof {
        lemma_empty_clusters_bounded(initial_counts, initial_counts.len() as int);
        lemma_empty_clusters_complete(initial_counts, initial_counts.len() as int);
        assert(empties@.take(0) == Seq::<usize>::empty());
    }
    let ghost mut first_donor: int = 0;
    let mut e: usize = 0;
    while e < empties.len()
        invariant
            e <= empties@.len(),
            e > 0 ==> {
                &&& 0 <= first_donor < assignments@.len()
                &&& assignments@[first_donor] == empties@[0]
                &&& is_donor(start, first_donor)
            },
            point_count == points.spec_len(),
            cluster_count == initial_counts.len(),
            initial_counts == old(counts)@,
            start == (
                old(centroids)@.map_values(|v: Vec<u32>| v@),
                old(assignments)@,
                old(assignment_distances)@,
                old(counts)@,
            ),
            empties@ == empty_clusters(initial_counts, initial_counts.len() as int),
            repair_all(*points, start, empties@.take(e as int)) == (
                (
                    centroids@.map_values(|v: Vec<u32>| v@),
                    assignments@,
                    assignment_distances@,
                    counts@,
                ),
                true,
            ),
            consistent(
                *points,
                (
                    centroids@.map_values(|v: Vec<u32>| v@),
                    assignments@,
                    assignment_distances@,
                    counts@,
                ),
            ),
            forall|k: int| e <= k < empties@.len() ==> counts@[#[trigger] empties@[k] as int] == 0,
            forall|k: int| 0 <= k < empties@.len() ==> (#[trigger] empties@[k]) < counts@.len(),
            forall|c: int|
                0 <= c < counts@.len() ==> #[trigger] counts@[c] > 0 || exists|k: int|
                    e <= k < empties@.len() && empties@[k] == c,
            forall|k: int|
                0 <= k < e ==> refilled_by_its_point(
                    *points,
                    centroids@.map_values(|v: Vec<u32>| v@),
                    assignments@,
                    counts@,
                    #[trigger] empties@[k] as int,
                ),
        decreases empties@.len() - e,
    {
        let empty = empties[e];
        let ghost state = (
            centroids@.map_values(|v: Vec<u32>| v@),
            assignments@,
            assignment_distances@,
            counts@,
        );
        let mut found = false;
        let mut donor: usize = 0;
        let mut p: usize = 0;
        while p < point_count
            invariant
                p <= point_count,
                point_count == state.1.len(),
                state == (
                    centroids@.map_values(|v: Vec<u32>| v@),
                    assignments@,
                    assignment_distances@,
                    counts@,
                ),
                consistent(*points, state),
                found ==> donor < p && may_donate(state, donor as int),
                found ==> forall|q: int|
                    0 <= q < p && #[trigger] may_donate(state, q) && q != donor ==> donates_before(
                        state.2,
                        donor as int,
                        q,
                    ),
                !found ==> forall|q: int| 0 <= q < p ==> !#[trigger] may_donate(state, q),
            decreases point_count - p,
        {
            let cluster = assignments[p];
            if counts[cluster] > 1 {
                if !found || total_order_key_of(assignment_distances[p]) > total_order_key_of(
                    assignment_distances[donor],
                ) {
                    proof {
                        if found {
                            assert forall|q: int|
                                0 <= q < p + 1 && #[trigger] may_donate(state, q) && q
                                    != p implies donates_before(state.2, p as int, q) by {
                                if q != donor {
                                    assert(donates_before(state.2, donor as int, q));
                                }
                            }
                        }
                    }
                    donor = p;
                    found = true;
                }
            }
            p += 1;
        }
        if !found {
            proof {
                assert(!exists|q: int| is_donor(state, q));
                let k = e as int;
                assert(empties@.take(k + 1).drop_last() == empties@.take(k));
                assert(empties@.take(k + 1).last() == empty);
                assert(repair_one(*points, state, empty as int) == (state, false));
                assert(repair_all(*points, start, empties@.take(k + 1)) == (state, false));
                lemma_repair_all_stays_failed(*points, start, empties@, k + 1);
                assert(repair_all(*points, start, empties@) == (state, false));
                assert(start == (
                    old(centroids)@.map_values(|v: Vec<u32>| v@),
                    old(assignments)@,
                    old(assignment_distances)@,
                    old(counts)@,
                ));
                assert(initial_counts == old(counts)@);
            }
            return Err(kmeans_error("cannot repair an empty cluster without emptying a donor"));
        }
        proof {
            assert(is_donor(state, donor as int));
            lemma_donor_unique(state);
            assert(empties@[e as int] == empty);
            assert(state.3[empty as int] == 0);
        }
        let source = assignments[donor];
        proof {
            assert(state.3[source as int] > 1);
            assert(source != empty);
            if e > 0 {
                assert(refilled_by_its_point(*points, state.0, state.1, state.3, empties@[0] as int));
                assert(donor != first_donor);
            }
        }
        counts[source] = counts[source] - 1;
        counts[empty] = counts[empty] + 1;
        assignments[donor] = empty;
        assignment_distances[donor] = 0;
        let row = vstd::slice::slice_to_vec(points.vector(donor));
        let ghost old_centroids = centroids@;
        centroids[empty] = row;
        proof {
            let new_state = (
                centroids@.map_values(|v: Vec<u32>| v@),
                assignments@,
                assignment_distances@,
                counts@,
            );
            assert(centroids@.map_values(|v: Vec<u32>| v@) =~= state.0.update(
                empty as int,
                points.spec_vector(donor as int),
            ));
            assert(counts@ =~= state.3.update(source as int, (state.3[source as int] - 1) as usize).update(
                empty as int,
                (state.3[empty as int] + 1) as usize,
            ));
            assert(new_state == repair_one(*points, state, empty as int).0);
            assert(repair_one(*points, state, empty as int).1);
            let k = e as int;
            assert(empties@.take(k + 1).drop_last() == empties@.take(k));
            assert(empties@.take(k + 1).last() == empty);
            // the state stays consistent
            assert forall|c: int| 0 <= c < new_state.3.len() implies #[trigger] new_state.3[c]
                == cluster_size(new_state.1, c, new_state.1.len() as int) by {
                lemma_cluster_size_move(state.1, donor as int, empty, c, state.1.len() as int);
                lemma_cluster_size_bounded(state.1, c, state.1.len() as int);
            }
            assert forall|c: int| 0 <= c < new_state.0.len() implies (#[trigger] new_state.0[c]).len()
                == points.spec_dimension() by {
                if c != empty {
                    assert(new_state.0[c] == state.0[c]);
                }
            }
            assert(consistent(*points, new_state));
            assert forall|c: int|
                0 <= c < counts@.len() implies #[trigger] counts@[c] > 0 || exists|k: int|
                    e + 1 <= k < empties@.len() && empties@[k] == c by {
                if c != empty && c != source {
                    assert(counts@[c] == state.3[c]);
                    if state.3[c] == 0 {
                        let k = choose|k: int| e <= k < empties@.len() && empties@[k] == c;
                        assert(k != e);
                    }
                }
            }
            assert forall|k: int| 0 <= k < e + 1 implies refilled_by_its_point(
                *points,
                new_state.0,
                new_state.1,
                new_state.3,
                #[trigger] empties@[k] as int,
            ) by {
                let c = empties@[k] as int;
                if k == e {
                    lemma_cluster_size_zero(state.1, c, state.1.len() as int);
                    assert forall|q: int|
                        0 <= q < new_state.1.len() && #[trigger] new_state.1[q] == c implies new_state.0[c]
                        == points.spec_vector(q) by {
                        if q != donor {
                            assert(state.1[q] == c);
                        }
                    }
                } else {
                    assert(refilled_by_its_point(*points, state.0, state.1, state.3, c));
                    assert(c != empty);
                    assert(c != source);
                    assert forall|q: int|
                        0 <= q < new_state.1.len() && #[trigger] new_state.1[q] == c implies new_state.0[c]
                        == points.spec_vector(q) by {
                        assert(q != donor);
                        assert(state.1[q] == c);
                    }
                }
            }
            assert forall|m: int| e + 1 <= m < empties@.len() implies counts@[#[trigger] empties@[m] as int] == 0 by {
                lemma_empty_clusters_increasing(initial_counts, initial_counts.len() as int, e as int, m);
                assert(empties@[m] != empty);
                assert(state.3[empties@[m] as int] == 0);
                assert(empties@[m] != source);
            }
        }
        proof {
            if e == 0 {
                first_donor = donor as int;
                assert(state == start);
            }
        }
        e += 1;
    }
    proof {
        assert(empties@.take(empties@.len() as int) == empties@);
        lemma_empty_clusters_bounded(initial_counts, initial_counts.len() as int);
        assert forall|c: int|
            0 <= c < initial_counts.len() && #[trigger] initial_counts[c] == 0 && (forall|b: int|
                0 <= b < c ==> initial_counts[b] != 0) implies assignments@[first_donor] == c && 0
            <= first_donor < assignments@.len() && is_donor(start, first_donor) by {
            let k = choose|k: int| 0 <= k < empties@.len() && empties@[k] == c;
            if k > 0 {
                lemma_empty_clusters_increasing(initial_counts, initial_counts.len() as int, 0, k);
            }
            assert(initial_counts[empties@[0] as int] == 0);
            assert(empties@[0] == c);
        }
        let p = first_donor;
        assert forall|c: int|
            0 <= c < start.3.len() && #[trigger] start.3[c] == 0 && (forall|b: int|
                0 <= b < c ==> start.3[b] != 0) implies exists|p: int|
            0 <= p < assignments@.len() && #[trigger] assignments@[p] == c && start.3[start.1[p] as int] > 1
                && forall|q: int|
                0 <= q < start.1.len() && start.3[start.1[q] as int] > 1 && q != p
                    ==> total_order_key(start.2[p]) > total_order_key(#[trigger] start.2[q])
                    || (total_order_key(start.2[p]) == total_order_key(start.2[q]) && p < q) by {
            assert(assignments@[p] == c);
            assert(may_donate(start, p));
            assert forall|q: int|
                0 <= q < start.1.len() && start.3[start.1[q] as int] > 1 && q != p implies total_order_key(
                start.2[p],
            ) > total_order_key(#[trigger] start.2[q]) || (total_order_key(start.2[p])
                == total_order_key(start.2[q]) && p < q) by {
                assert(may_donate(start, q));
                assert(donates_before(start.2, p, q));
            }
        }
        assert forall|c: int|
            0 <= c < initial_counts.len() && #[trigger] initial_counts[c] == 0 implies refilled_by_its_point(
            *points,
            centroids@.map_values(|v: Vec<u32>| v@),
            assignments@,
            counts@,
            c,
        ) by {
            let k = choose|k: int| 0 <= k < empties@.len() && empties@[k] == c;
            assert(refilled_by_its_point(
                *points,
                centroids@.map_values(|v: Vec<u32>| v@),
                assignments@,
                counts@,
                empties@[k] as int,
            ));
        }
    }
    Ok(())
}

/// Cluster `c` holds one point, and its centroid is that point's coordinates.
spec fn refilled_by_its_point(
    points: VectorSet,
    centroids: Seq<Seq<u32>>,
    assignments: Seq<usize>,
    counts: Seq<usize>,
    c: int,
) -> bool {
    &&& counts[c] == 1
    &&& forall|p: int|
        0 <= p < assignments.len() && #[trigger] assignments[p] == c ==> centroids[c]
            == points.spec_vector(p)
}

/// A cluster of size zero has no point assigned to it.
proof fn lemma_cluster_size_zero(a: Seq<usize>, c: int, upto: int)
    requires
        0 <= upto <= a.len(),
        cluster_size(a, c, upto) == 0,
    ensures
        forall|p: int| 0 <= p < upto ==> a[p] != c,
    decreases upto,
{
    if upto > 0 {
        lemma_cluster_size_zero(a, c, upto - 1);
    }
}

/// At most one point is the donor.
proof fn lemma_donor_unique(state: ClusterState)
    ensures
        forall|p: int, q: int| is_donor(state, p) && is_donor(state, q) ==> p == q,
{
    assert forall|p: int, q: int| is_donor(state, p) && is_donor(state, q) implies p == q by {
        if p != q {
            assert(may_donate(state, q));
            assert(donates_before(state.2, p, q));
            assert(may_donate(state, p));
            assert(donates_before(state.2, q, p));
        }
    }
}

/// Empty clusters are listed in strictly increasing order, each below
/// `upto` and recorded as empty.
proof fn lemma_empty_clusters_increasing(counts: Seq<usize>, upto: int, i: int, j: int)
    requires
        0 <= upto <= counts.len(),
        counts.len() <= usize::MAX,
        0 <= i < j < empty_clusters(counts, upto).len(),
    ensures
        empty_clusters(counts, upto)[i] < empty_clusters(counts, upto)[j],
    decreases upto,
{
    let list = empty_clusters(counts, upto);
    let prefix = empty_clusters(counts, upto - 1);
    lemma_empty_clusters_bounded(counts, upto - 1);
    if counts[upto - 1] == 0 {
        assert(list == prefix.push((upto - 1) as usize));
        if j < prefix.len() {
            lemma_empty_clusters_increasing(counts, upto - 1, i, j);
        } else {
            assert(list[i] == prefix[i]);
            assert(prefix[i] < upto - 1);
            assert(list[j] == upto - 1);
        }
    } else {
        lemma_empty_clusters_increasing(counts, upto - 1, i, j);
    }
}

/// Every cluster below `upto` recorded as empty is listed.
proof fn lemma_empty_clusters_complete(counts: Seq<usize>, upto: int)
    requires
        0 <= upto <= counts.len(),
        counts.len() <= usize::MAX,
    ensures
        forall|c: int|
            0 <= c < upto && #[trigger] counts[c] == 0 ==> exists|k: int|
                0 <= k < empty_clusters(counts, upto).len() && empty_clusters(counts, upto)[k] == c,
    decreases upto,
{
    if upto > 0 {
        lemma_empty_clusters_complete(counts, upto - 1);
        let list = empty_clusters(counts, upto);
        let prefix = empty_clusters(counts, upto - 1);
        assert forall|c: int| 0 <= c < upto && #[trigger] counts[c] == 0 implies exists|k: int|
            0 <= k < list.len() && list[k] == c by {
            if counts[upto - 1] == 0 {
                assert(list == prefix.push((upto - 1) as usize));
                if c == upto - 1 {
                    assert(list[prefix.len() as int] == c);
                } else {
                    let k = choose|k: int| 0 <= k < prefix.len() && prefix[k] == c;
                    assert(list[k] == c);
                }
            } else {
                assert(c != upto - 1);
            }
        }
    }
}

/// Listed empty clusters lie below `upto` and are recorded as empty.
proof fn lemma_empty_clusters_bounded(counts: Seq<usize>, upto: int)
    requires
        0 <= upto <= counts.len(),
        counts.len() <= usize::MAX,
    ensures
        forall|i: int|
            0 <= i < empty_clusters(counts, upto).len() ==> (#[trigger] empty_clusters(
                counts,
                upto,
            )[i]) < upto && counts[empty_clusters(counts, upto)[i] as int] == 0,
    decreases upto,
{
    if upto > 0 {
        lemma_empty_clusters_bounded(counts, upto - 1);
        let list = empty_clusters(counts, upto);
        let prefix = empty_clusters(counts, upto - 1);
        if counts[upto - 1] == 0 {
            assert(list == prefix.push((upto - 1) as usize));
            assert forall|i: int| 0 <= i < list.len() implies (#[trigger] list[i]) < upto
                && counts[list[i] as int] == 0 by {
                if i < prefix.len() {
                    assert(list[i] == prefix[i]);
                }
            }
        }
    }
}

/// Once a repair fails, repairing a longer prefix of the list changes nothing.
proof fn lemma_repair_all_stays_failed(
    points: VectorSet,
    state: ClusterState,
    empties: Seq<usize>,
    k: int,
)
    requires
        0 <= k <= empties.len(),
        !repair_all(points, state, empties.take(k)).1,
    ensures
        repair_all(points, state, empties) == repair_all(points, state, empties.take(k)),
    decreases empties.len() - k,
{
    if k < empties.len() {
        assert(empties.take(k + 1).drop_last() == empties.take(k));
        lemma_repair_all_stays_failed(points, state, empties, k + 1);
    } else {
        assert(empties.take(k) == empties);
    }
}

} // verus!
