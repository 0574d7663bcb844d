use product_quantization_vector_search::error::AppError;
use product_quantization_vector_search::exact::{search_exact, search_exact_batch, ExactSearchCounters};
use product_quantization_vector_search::vector::{Neighbor, VectorSet};

fn bits(values: &[f32]) -> Vec<u32> {
    values.iter().map(|value| value.to_bits()).collect()
}

fn squared_l2(left: &[u32], right: &[u32]) -> f32 {
    let mut distance = 0.0_f32;
    for coordinate in 0..left.len() {
        let difference = f32::from_bits(left[coordinate]) - f32::from_bits(right[coordinate]);
        distance += difference * difference;
    }
    distance
}

fn distances_to(database: &VectorSet, query: &[u32]) -> Vec<u32> {
    (0..database.len())
        .map(|vector_id| squared_l2(database.vector(vector_id), query).to_bits())
        .collect()
}

#[test]
fn exact_search_matches_full_sort_and_counts_work() {
    let database = VectorSet::from_vectors(vec![
        bits(&[0.0, 0.0]),
        bits(&[1.0, 0.0]),
        bits(&[2.0, 0.0]),
        bits(&[3.0, 0.0]),
    ])
    .unwrap();
    let query = bits(&[1.2, 0.0]);
    let mut reference: Vec<_> = (0..database.len())
        .map(|vector_id| Neighbor {
            vector_id,
            distance: squared_l2(database.vector(vector_id), &query).to_bits(),
        })
        .collect();
    reference.sort_by(Neighbor::compare_quality);
    reference.truncate(3);

    let mut counters = ExactSearchCounters::default();
    let distances = distances_to(&database, &query);
    let actual = search_exact(&database, &query, &distances, 3, &mut counters).unwrap();
    assert_eq!(actual, reference);
    assert_eq!(counters.vectors_scanned, 4);
    assert_eq!(counters.coordinate_distance_operations, 8);
}

#[test]
fn batch_counter_formula_is_exact() {
    let database = VectorSet::new(2, vec![0.0_f32.to_bits(); 8]).unwrap();
    let queries = VectorSet::new(2, vec![0.0_f32.to_bits(); 6]).unwrap();
    let distances: Vec<Vec<u32>> = (0..queries.len())
        .map(|query_id| distances_to(&database, queries.vector(query_id)))
        .collect();
    let (_, counters) = search_exact_batch(&database, &queries, &distances, 2).unwrap();
    assert_eq!(counters.vectors_scanned, 12);
    assert_eq!(counters.coordinate_distance_operations, 24);
}

#[test]
fn ties_prefer_lower_vector_id() {
    let database = VectorSet::from_vectors(vec![bits(&[-1.0]), bits(&[1.0])]).unwrap();
    let mut counters = ExactSearchCounters::default();
    let query = bits(&[0.0]);
    let distances = distances_to(&database, &query);
    let result = search_exact(&database, &query, &distances, 1, &mut counters).unwrap();
    assert_eq!(result[0].vector_id, 0);
}

#[test]
fn exact_search_rejects_bad_queries_and_top_k() {
    let database = VectorSet::from_vectors(vec![bits(&[0.0, 0.0]), bits(&[1.0, 1.0])]).unwrap();
    let mut counters = ExactSearchCounters::default();
    let short_query = bits(&[0.0]);
    match search_exact(&database, &short_query, &[], 1, &mut counters) {
        Err(AppError::DimensionMismatch { expected, actual }) => {
            assert_eq!((expected, actual), (2, 1));
        }
        other => panic!("unexpected {other:?}"),
    }
    let query = bits(&[0.0, 0.0]);
    let distances = distances_to(&database, &query);
    for top_k in [0, 3] {
        assert!(matches!(
            search_exact(&database, &query, &distances, top_k, &mut counters),
            Err(AppError::InvalidConfig(_))
        ));
    }
    assert_eq!(counters, ExactSearchCounters::default());
}

#[test]
fn batch_rejects_mismatched_dimensions() {
    let database = VectorSet::new(2, vec![0.0_f32.to_bits(); 4]).unwrap();
    let queries = VectorSet::new(1, vec![0.0_f32.to_bits(); 3]).unwrap();
    assert!(matches!(
        search_exact_batch(&database, &queries, &Vec::new(), 1),
        Err(AppError::DimensionMismatch {
            expected: 2,
            actual: 1
        })
    ));
}
