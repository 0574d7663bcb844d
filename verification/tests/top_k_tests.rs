use std::cmp::Ordering;
use product_quantization_vector_search::vector::{Neighbor, TopK};

fn neighbor(vector_id: usize, distance: f32) -> Neighbor {
    Neighbor {
        vector_id,
        distance: distance.to_bits(),
    }
}

#[test]
fn keeps_best_candidates_with_deterministic_ties() {
    let mut top = TopK::new(3);
    for (vector_id, distance) in [(4, 1.0), (2, 1.0), (3, 0.5), (1, 1.0), (0, 3.0)] {
        top.insert(neighbor(vector_id, distance));
    }
    let ids: Vec<_> = top
        .into_sorted()
        .into_iter()
        .map(|neighbor| neighbor.vector_id)
        .collect();
    assert_eq!(ids, vec![3, 1, 2]);
}

#[test]
fn does_not_duplicate_ids() {
    let mut top = TopK::new(2);
    top.insert(neighbor(1, 2.0));
    top.insert(neighbor(1, 1.0));
    assert_eq!(top.into_sorted().len(), 1);
}

#[test]
fn zero_capacity_keeps_nothing() {
    let mut top = TopK::new(0);
    top.insert(neighbor(1, 1.0));
    assert!(top.into_sorted().is_empty());
}

#[test]
fn better_duplicate_replaces_and_worse_one_is_ignored() {
    let mut top = TopK::new(2);
    top.insert(neighbor(1, 2.0));
    top.insert(neighbor(2, 3.0));
    top.insert(neighbor(1, 1.0));
    top.insert(neighbor(2, 5.0));
    assert_eq!(top.into_sorted(), vec![neighbor(1, 1.0), neighbor(2, 3.0)]);
}

#[test]
fn evicted_id_can_return_with_a_better_distance() {
    let mut top = TopK::new(1);
    top.insert(neighbor(7, 4.0));
    top.insert(neighbor(8, 2.0));
    top.insert(neighbor(7, 1.0));
    assert_eq!(top.into_sorted(), vec![neighbor(7, 1.0)]);
}

#[test]
fn quality_orders_by_total_order_then_id() {
    assert_eq!(
        neighbor(1, -1.0).compare_quality(&neighbor(0, 0.0)),
        Ordering::Less
    );
    assert_eq!(
        neighbor(1, -0.0).compare_quality(&neighbor(0, 0.0)),
        Ordering::Less
    );
    assert_eq!(
        neighbor(1, 2.0).compare_quality(&neighbor(0, 2.0)),
        Ordering::Greater
    );
    assert_eq!(
        neighbor(3, 2.0).compare_quality(&neighbor(3, 2.0)),
        Ordering::Equal
    );
    assert!(neighbor(0, 1.0).is_better_than(&neighbor(1, 1.0)));
    assert!(!neighbor(0, f32::INFINITY).is_better_than(&neighbor(1, 1.0e30)));
}

#[test]
fn cloned_selection_keeps_its_entries() {
    let mut top = TopK::new(2);
    top.insert(neighbor(5, 2.0));
    top.insert(neighbor(3, 1.0));
    let copy = top.clone();
    top.insert(neighbor(1, 0.5));
    let ids: Vec<usize> = copy.into_sorted().iter().map(|entry| entry.vector_id).collect();
    assert_eq!(ids, vec![3, 5]);
    let ids: Vec<usize> = top.into_sorted().iter().map(|entry| entry.vector_id).collect();
    assert_eq!(ids, vec![1, 3]);
}
