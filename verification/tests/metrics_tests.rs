use product_quantization_vector_search::error::AppError;
use product_quantization_vector_search::metrics::{
    aggregate_recall_hits, memory_metrics, rank_overlaps, recall_hits,
};
use product_quantization_vector_search::vector::Neighbor;

fn neighbors(ids: &[usize]) -> Vec<Neighbor> {
    ids.iter()
        .enumerate()
        .map(|(rank, vector_id)| Neighbor {
            vector_id: *vector_id,
            distance: (rank as f32).to_bits(),
        })
        .collect()
}

fn recall_at(exact: &[Neighbor], approximate: &[Neighbor], level: usize) -> f64 {
    recall_hits(exact, approximate, level).unwrap() as f64 / level as f64
}

#[test]
fn recall_handles_complete_partial_and_zero_overlap() {
    let exact = neighbors(&[1, 2, 3, 4, 5]);
    assert_eq!(recall_at(&exact, &exact, 5), 1.0);
    assert_eq!(recall_at(&exact, &neighbors(&[1, 8, 3, 9, 5]), 5), 0.6);
    assert_eq!(recall_at(&exact, &neighbors(&[6, 7, 8, 9, 10]), 5), 0.0);
}

#[test]
fn recall_level_must_be_available() {
    let exact = neighbors(&[1, 2]);
    for level in [0, 3] {
        assert!(matches!(
            recall_hits(&exact, &exact, level),
            Err(AppError::InvalidConfig(_))
        ));
    }
    assert_eq!(recall_hits(&exact, &neighbors(&[2]), 1).unwrap(), 0);
}

#[test]
fn aggregate_leaves_out_levels_above_top_k() {
    let exact = vec![neighbors(&[1, 2, 3, 4, 5]), neighbors(&[6, 7, 8, 9, 10])];
    let approximate = vec![neighbors(&[1, 2, 3, 4, 5]), neighbors(&[7, 6, 1, 2, 3])];
    let hits = aggregate_recall_hits(&exact, &approximate, 5).unwrap();
    assert_eq!(hits.at_1, Some(vec![1, 0]));
    assert_eq!(hits.at_5, Some(vec![5, 2]));
    assert_eq!(hits.at_10, None);
    assert!(aggregate_recall_hits(&exact, &approximate[..1], 5).is_err());
    assert!(aggregate_recall_hits(&[], &[], 5).is_err());
    assert!(aggregate_recall_hits(&exact, &approximate, 10).is_err());
}

#[test]
fn memory_formulas_match_acceptance_scenario() {
    let metrics = memory_metrics(64, 8, 256, 50_000).unwrap();
    assert_eq!(metrics.full_vector_bytes_per_vector, 256);
    assert_eq!(metrics.actual_pq_code_bytes_per_vector, 8);
    assert_eq!(metrics.theoretical_packed_bits_per_vector, 64);
    assert_eq!(metrics.codebook_bytes, 65_536);
    let raw_compression_ratio =
        metrics.full_vector_bytes_per_vector as f64 / metrics.actual_pq_code_bytes_per_vector as f64;
    assert_eq!(raw_compression_ratio, 32.0);
    let amortized_pq_bytes_per_vector =
        metrics.actual_pq_code_bytes_per_vector as f64 + metrics.codebook_bytes as f64 / 50_000.0;
    let expected = 8.0 + 65_536.0 / 50_000.0;
    assert!((amortized_pq_bytes_per_vector - expected).abs() < 1.0e-12);
}

#[test]
fn packed_bits_are_the_bit_length_of_the_largest_id() {
    assert_eq!(memory_metrics(32, 4, 16, 1).unwrap().theoretical_packed_bits_per_vector, 16);
    assert_eq!(memory_metrics(32, 4, 17, 1).unwrap().theoretical_packed_bits_per_vector, 20);
    assert_eq!(memory_metrics(32, 4, 1, 1).unwrap().theoretical_packed_bits_per_vector, 0);
    assert!(matches!(
        memory_metrics(32, 4, 16, 0),
        Err(AppError::InvalidConfig(_))
    ));
}

#[test]
fn rank_overlaps_mark_approximate_ids_found_among_exact() {
    let exact = neighbors(&[1, 2, 3]);
    let approximate = neighbors(&[3, 9, 1, 7]);
    assert_eq!(rank_overlaps(&exact, &approximate), vec![true, false, true]);
    assert_eq!(rank_overlaps(&exact, &neighbors(&[2])), vec![true]);
    assert!(rank_overlaps(&[], &approximate).is_empty());
}
