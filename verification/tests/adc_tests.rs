use product_quantization_vector_search::adc::{
    build_distance_table, code_lookups, search_adc, search_adc_batch, AdcDistanceTable,
    AdcSearchCounters, AdcTableCounters,
};
use product_quantization_vector_search::error::AppError;
use product_quantization_vector_search::pq::{reconstruct, PqIndex, ProductQuantizer, SubspaceCodebook};
use product_quantization_vector_search::vector::VectorSet;

fn bits(values: &[f32]) -> Vec<u32> {
    values.iter().map(|value| value.to_bits()).collect()
}

fn squared_l2(left: &[u32], right: &[u32]) -> f32 {
    let mut distance = 0.0_f32;
    for coordinate in 0..left.len() {
        let difference = f32::from_bits(left[coordinate]) - f32::from_bits(right[coordinate]);
        distance += difference * difference;
    }
    distance
}

fn quantizer() -> ProductQuantizer {
    ProductQuantizer {
        dimension: 2,
        subspaces: 2,
        centroids_per_subspace: 2,
        codebooks: vec![
            SubspaceCodebook {
                subspace_index: 0,
                subvector_dimension: 1,
                centroids: vec![bits(&[0.0]), bits(&[2.0])],
            },
            SubspaceCodebook {
                subspace_index: 1,
                subvector_dimension: 1,
                centroids: vec![bits(&[10.0]), bits(&[20.0])],
            },
        ],
    }
}

fn table_distances(quantizer: &ProductQuantizer, query: &[u32]) -> Vec<u32> {
    let width = quantizer.subvector_dimension();
    let mut distances = Vec::new();
    for subspace in 0..quantizer.subspaces {
        let start = subspace * width;
        for centroid in &quantizer.codebooks[subspace].centroids {
            distances.push(squared_l2(&query[start..start + width], centroid).to_bits());
        }
    }
    distances
}

fn build(query: &[u32], counters: &mut AdcTableCounters) -> AdcDistanceTable {
    let quantizer = quantizer();
    build_distance_table(&quantizer, query, table_distances(&quantizer, query), counters).unwrap()
}

fn summed(terms: &[u32]) -> f32 {
    let mut distance = 0.0_f32;
    for term in terms {
        distance += f32::from_bits(*term);
    }
    distance
}

fn code_distances(index: &PqIndex, table: &AdcDistanceTable) -> Vec<u32> {
    (0..index.len())
        .map(|vector_id| {
            let mut scratch = AdcSearchCounters::default();
            summed(&code_lookups(index.code(vector_id), table, &mut scratch).unwrap()).to_bits()
        })
        .collect()
}

#[test]
fn table_has_expected_layout_and_formula_counts() {
    let mut counters = AdcTableCounters::default();
    let table = build(&bits(&[1.0, 12.0]), &mut counters);
    assert_eq!(table.distances, bits(&[1.0, 1.0, 4.0, 64.0]));
    assert_eq!(counters.centroid_distances, 4);
    assert_eq!(counters.coordinate_distance_operations, 4);
}

#[test]
fn scan_is_exhaustive_deterministic_and_counted() {
    let index = PqIndex::new(2, 4, vec![0, 0, 1, 0, 0, 1, 1, 1]).unwrap();
    let mut table_counters = AdcTableCounters::default();
    let table = build(&bits(&[1.0, 12.0]), &mut table_counters);
    let mut counters = AdcSearchCounters::default();
    let distances = code_distances(&index, &table);
    let result = search_adc(&index, &table, &distances, 2, &mut counters).unwrap();
    assert_eq!(result[0].vector_id, 0);
    assert_eq!(result[1].vector_id, 1);
    assert_eq!(counters.codes_scanned, 4);
    assert_eq!(counters.table_lookups, 8);
    assert_eq!(counters.distance_additions, 8);
}

#[test]
fn adc_equals_distance_to_reconstruction() {
    let quantizer = quantizer();
    let query = bits(&[1.0, 12.0]);
    let mut table_counters = AdcTableCounters::default();
    let table = build(&query, &mut table_counters);
    for code in [[0, 0], [1, 0], [0, 1], [1, 1]] {
        let mut scan_counters = AdcSearchCounters::default();
        let adc = summed(&code_lookups(&code, &table, &mut scan_counters).unwrap());
        let reconstructed = reconstruct(&quantizer, &code).unwrap();
        let expected = squared_l2(&query, &reconstructed);
        let tolerance = 1.0e-5 * expected.max(1.0);
        assert!((adc - expected).abs() <= tolerance);
    }
}

#[test]
fn lookups_reject_bad_codes_and_count_until_the_failure() {
    let mut table_counters = AdcTableCounters::default();
    let table = build(&bits(&[1.0, 12.0]), &mut table_counters);
    let mut counters = AdcSearchCounters::default();
    assert!(matches!(
        code_lookups(&[0], &table, &mut counters),
        Err(AppError::InvalidPqCode(_))
    ));
    assert_eq!(counters, AdcSearchCounters::default());
    assert!(matches!(
        code_lookups(&[1, 2], &table, &mut counters),
        Err(AppError::InvalidPqCode(_))
    ));
    assert_eq!(counters.table_lookups, 1);
    assert_eq!(table.distance(1, 1), 64.0_f32.to_bits());
}

#[test]
fn search_rejects_mismatched_shapes() {
    let mut table_counters = AdcTableCounters::default();
    let table = build(&bits(&[1.0, 12.0]), &mut table_counters);
    let mut counters = AdcSearchCounters::default();
    let index = PqIndex::new(1, 2, vec![0, 1]).unwrap();
    assert!(matches!(
        search_adc(&index, &table, &[0, 0], 1, &mut counters),
        Err(AppError::InvalidConfig(_))
    ));
    let index = PqIndex::new(2, 2, vec![0, 1, 1, 3]).unwrap();
    assert!(matches!(
        search_adc(&index, &table, &[0, 0], 3, &mut counters),
        Err(AppError::InvalidConfig(_))
    ));
    assert!(matches!(
        search_adc(&index, &table, &[0, 0], 1, &mut counters),
        Err(AppError::InvalidPqCode(_))
    ));
    assert_eq!(counters.codes_scanned, 1);
    assert_eq!(counters.table_lookups, 3);
}

#[test]
fn table_rejects_query_of_wrong_length() {
    let mut counters = AdcTableCounters::default();
    assert!(matches!(
        build_distance_table(&quantizer(), &bits(&[1.0]), Vec::new(), &mut counters),
        Err(AppError::DimensionMismatch {
            expected: 2,
            actual: 1
        })
    ));
}

fn batch_code_distances(index: &PqIndex, entries: &[u32]) -> Vec<u32> {
    (0..index.len())
        .map(|vector_id| {
            let code = index.code(vector_id);
            let mut distance = 0.0_f32;
            for (subspace, id) in code.iter().enumerate() {
                distance += f32::from_bits(entries[subspace * 2 + *id as usize]);
            }
            distance.to_bits()
        })
        .collect()
}

#[test]
fn batch_search_counts_every_query() {
    let quantizer = quantizer();
    let index = PqIndex::new(2, 4, vec![0, 0, 1, 0, 0, 1, 1, 1]).unwrap();
    let queries = VectorSet::from_vectors(vec![bits(&[1.0, 12.0]), bits(&[2.0, 19.0]), bits(&[0.0, 10.0])]).unwrap();
    let tables: Vec<Vec<u32>> = (0..queries.len())
        .map(|query_id| table_distances(&quantizer, queries.vector(query_id)))
        .collect();
    let scans: Vec<Vec<u32>> = tables.iter().map(|entries| batch_code_distances(&index, entries)).collect();
    let (results, table_counters, scan_counters) =
        search_adc_batch(&quantizer, &index, &queries, tables, &scans, 2).unwrap();
    assert_eq!(results.len(), 3);
    assert_eq!(results[0][0].vector_id, 0);
    assert_eq!(results[0][1].vector_id, 1);
    assert_eq!(results[1][0].vector_id, 3);
    assert_eq!(results[2][0].vector_id, 0);
    assert_eq!(table_counters.centroid_distances, 12);
    assert_eq!(table_counters.coordinate_distance_operations, 12);
    assert_eq!(scan_counters.codes_scanned, 12);
    assert_eq!(scan_counters.table_lookups, 24);
    assert_eq!(scan_counters.distance_additions, 24);
}

#[test]
fn batch_search_reports_the_first_failing_check() {
    let quantizer = quantizer();
    let queries = VectorSet::from_vectors(vec![bits(&[1.0, 12.0])]).unwrap();
    let tables = vec![table_distances(&quantizer, queries.vector(0))];
    let bad_index = PqIndex::new(2, 2, vec![0, 2, 1, 1]).unwrap();
    let scans = vec![vec![0; 2]];
    assert!(matches!(
        search_adc_batch(&quantizer, &bad_index, &queries, tables.clone(), &scans, 1),
        Err(AppError::InvalidPqCode(message)) if message == "centroid ID exceeds ADC table width"
    ));
    let index = PqIndex::new(2, 2, vec![0, 1, 1, 1]).unwrap();
    assert!(matches!(
        search_adc_batch(&quantizer, &index, &queries, tables, &scans, 3),
        Err(AppError::InvalidConfig(_))
    ));
    let wide = VectorSet::from_vectors(vec![bits(&[1.0, 2.0, 3.0])]).unwrap();
    assert!(matches!(
        search_adc_batch(&quantizer, &index, &wide, vec![], &vec![], 1),
        Err(AppError::DimensionMismatch { expected: 2, actual: 3 })
    ));
    let empty = VectorSet::new(2, vec![]).unwrap();
    let (results, table_counters, _) =
        search_adc_batch(&quantizer, &index, &empty, vec![], &vec![], 1).unwrap();
    assert!(results.is_empty());
    assert_eq!(table_counters.centroid_distances, 0);
}
