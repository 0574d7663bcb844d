use product_quantization_vector_search::error::AppError;
use product_quantization_vector_search::config::{KMeansConfig, PqConfig};
use product_quantization_vector_search::pq::{
    assemble_quantizer, encode, plan_training, reconstruct, subspace_points, PqIndex,
    ProductQuantizer, SubspaceCodebook,
};
use product_quantization_vector_search::rng::derive_kmeans_seed;
use product_quantization_vector_search::vector::VectorSet;

fn bits(values: &[f32]) -> Vec<u32> {
    values.iter().map(|value| value.to_bits()).collect()
}

fn squared_l2(left: &[u32], right: &[u32]) -> f32 {
    let mut distance = 0.0_f32;
    for coordinate in 0..left.len() {
        let difference = f32::from_bits(left[coordinate]) - f32::from_bits(right[coordinate]);
        distance += difference * difference;
    }
    distance
}

fn hand_quantizer() -> ProductQuantizer {
    ProductQuantizer {
        dimension: 4,
        subspaces: 2,
        centroids_per_subspace: 2,
        codebooks: vec![
            SubspaceCodebook {
                subspace_index: 0,
                subvector_dimension: 2,
                centroids: vec![bits(&[0.0, 0.0]), bits(&[2.0, 2.0])],
            },
            SubspaceCodebook {
                subspace_index: 1,
                subvector_dimension: 2,
                centroids: vec![bits(&[10.0, 10.0]), bits(&[20.0, 20.0])],
            },
        ],
    }
}

fn encoding_distances(quantizer: &ProductQuantizer, database: &VectorSet) -> Vec<u32> {
    let width = quantizer.subvector_dimension();
    let mut distances = Vec::new();
    for vector_id in 0..database.len() {
        for subspace in 0..quantizer.subspaces {
            let start = subspace * width;
            let subvector = &database.vector(vector_id)[start..start + width];
            for centroid in &quantizer.codebooks[subspace].centroids {
                distances.push(squared_l2(subvector, centroid).to_bits());
            }
        }
    }
    distances
}

#[test]
fn encoding_is_flat_deterministic_and_in_range() {
    let database = VectorSet::from_vectors(vec![
        bits(&[0.0, 0.0, 10.0, 10.0]),
        bits(&[2.0, 2.0, 20.0, 20.0]),
    ])
    .unwrap();
    let quantizer = hand_quantizer();
    let distances = encoding_distances(&quantizer, &database);
    let (index, counters) = encode(&quantizer, &database, &distances).unwrap();
    assert_eq!(index.codes(), &[0, 0, 1, 1]);
    assert_eq!(index.codes().len(), database.len() * quantizer.subspaces);
    assert!(index.codes().iter().all(|id| *id < 2));
    assert_eq!(counters.vectors_encoded, 2);
    assert_eq!(counters.centroid_comparisons, 8);
    assert_eq!(counters.coordinate_distance_operations, 16);
}

#[test]
fn reconstruction_concatenates_selected_centroids() {
    assert_eq!(
        reconstruct(&hand_quantizer(), &[1, 0]).unwrap(),
        bits(&[2.0, 2.0, 10.0, 10.0])
    );
}

#[test]
fn reconstruction_rejects_bad_codes() {
    assert!(matches!(
        reconstruct(&hand_quantizer(), &[1]),
        Err(AppError::InvalidPqCode(_))
    ));
    assert!(matches!(
        reconstruct(&hand_quantizer(), &[0, 2]),
        Err(AppError::InvalidPqCode(_))
    ));
    let mut broken = hand_quantizer();
    broken.codebooks[1].subspace_index = 0;
    assert!(matches!(
        reconstruct(&broken, &[0, 0]),
        Err(AppError::InvalidConfig(_))
    ));
}

#[test]
fn nearest_centroid_takes_first_of_equal_distances() {
    let database = VectorSet::from_vectors(vec![bits(&[1.0, 1.0, 15.0, 15.0])]).unwrap();
    let quantizer = hand_quantizer();
    let distances = encoding_distances(&quantizer, &database);
    let (index, _) = encode(&quantizer, &database, &distances).unwrap();
    assert_eq!(index.codes(), &[0, 0]);
}

#[test]
fn quantizer_validation_reports_each_problem() {
    let mut quantizer = hand_quantizer();
    assert!(quantizer.validate().is_ok());
    quantizer.subspaces = 3;
    assert!(matches!(quantizer.validate(), Err(AppError::InvalidConfig(_))));
    let mut quantizer = hand_quantizer();
    quantizer.centroids_per_subspace = 257;
    assert!(matches!(quantizer.validate(), Err(AppError::InvalidConfig(_))));
    let mut quantizer = hand_quantizer();
    quantizer.codebooks.pop();
    assert!(matches!(quantizer.validate(), Err(AppError::InvalidConfig(_))));
    let mut quantizer = hand_quantizer();
    quantizer.codebooks[0].centroids[1].push(0);
    assert!(matches!(quantizer.validate(), Err(AppError::InvalidConfig(_))));
}

#[test]
fn encode_rejects_dimension_mismatch() {
    let database = VectorSet::from_vectors(vec![bits(&[0.0, 0.0])]).unwrap();
    assert!(matches!(
        encode(&hand_quantizer(), &database, &[]),
        Err(AppError::DimensionMismatch {
            expected: 4,
            actual: 2
        })
    ));
}

#[test]
fn pq_index_layout() {
    let index = PqIndex::new(2, 3, vec![0, 1, 2, 3, 4, 5]).unwrap();
    assert_eq!(index.subspaces(), 2);
    assert_eq!(index.len(), 3);
    assert!(!index.is_empty());
    assert_eq!(index.code(1), &[2, 3]);
    assert_eq!(index.codes(), &[0, 1, 2, 3, 4, 5]);
    assert!(matches!(
        PqIndex::new(0, 0, vec![]),
        Err(AppError::InvalidPqCode(_))
    ));
    assert!(matches!(
        PqIndex::new(2, 2, vec![0; 3]),
        Err(AppError::InvalidPqCode(_))
    ));
    assert!(matches!(
        PqIndex::new(usize::MAX, 2, vec![]),
        Err(AppError::InvalidPqCode(_))
    ));
    assert!(PqIndex::new(4, 0, vec![]).unwrap().is_empty());
}

#[test]
fn subspace_points_slices_each_vector() {
    let training = VectorSet::from_vectors(vec![vec![1, 2, 3, 4], vec![5, 6, 7, 8]]).unwrap();
    let points = subspace_points(&training, 1, 2).unwrap();
    assert_eq!(points.dimension(), 2);
    assert_eq!(points.data(), &[3, 4, 7, 8]);
    assert!(subspace_points(&training, 0, 0).is_err());
}

fn training_config(centroids_per_subspace: usize) -> PqConfig {
    PqConfig {
        dimension: 32,
        subspaces: 4,
        centroids_per_subspace,
        kmeans: KMeansConfig::default(),
    }
}

fn training_set(count: usize) -> VectorSet {
    let vectors = (0..count)
        .map(|vector_id| (0..32).map(|coordinate| (vector_id * 100 + coordinate) as f32).collect::<Vec<_>>())
        .map(|vector| bits(&vector))
        .collect();
    VectorSet::from_vectors(vectors).unwrap()
}

#[test]
fn training_plan_splits_subspaces_with_their_own_seeds() {
    let training = training_set(16);
    let jobs = plan_training(&training, &training_config(16), 42).unwrap();
    assert_eq!(jobs.len(), 4);
    for (index, job) in jobs.iter().enumerate() {
        assert_eq!(job.subspace_index, index);
        assert_eq!(job.centroid_count, 16);
        assert_eq!(job.seed, derive_kmeans_seed(42, 32, 4, 16, index));
        assert_eq!(job.points.dimension(), 8);
        assert_eq!(job.points.len(), 16);
        assert_eq!(job.points.vector(3), &training.vector(3)[index * 8..index * 8 + 8]);
    }
    assert_ne!(jobs[0].seed, jobs[1].seed);
}

#[test]
fn training_plan_rejects_bad_settings_and_shapes() {
    let training = training_set(16);
    assert!(matches!(
        plan_training(&training, &training_config(64), 42),
        Err(AppError::InvalidConfig(message))
            if message == "training vector count must be at least the centroid count"
    ));
    let mut config = training_config(16);
    config.dimension = 64;
    assert!(matches!(
        plan_training(&training, &config, 42),
        Err(AppError::DimensionMismatch {
            expected: 64,
            actual: 32
        })
    ));
}

#[test]
fn assembled_quantizer_is_valid_and_holds_the_centroids() {
    let config = training_config(16);
    let centroids: Vec<Vec<Vec<u32>>> = (0..4)
        .map(|subspace| (0..16).map(|centroid| vec![(subspace * 16 + centroid) as u32; 8]).collect())
        .collect();
    let quantizer = assemble_quantizer(&config, centroids.clone());
    assert!(quantizer.validate().is_ok());
    assert_eq!(quantizer.dimension, 32);
    assert_eq!(quantizer.codebooks[2].subspace_index, 2);
    assert_eq!(quantizer.codebooks[2].subvector_dimension, 8);
    assert_eq!(quantizer.codebooks[2].centroids, centroids[2]);

    let mut short = centroids;
    short[1].pop();
    assert!(assemble_quantizer(&config, short).validate().is_err());
}

#[test]
fn codes_concatenate_to_the_code_buffer() {
    let index = PqIndex::new(3, 2, vec![1, 2, 3, 4, 5, 6]).unwrap();
    let joined: Vec<u8> = (0..index.len()).flat_map(|vector_id| index.code(vector_id).to_vec()).collect();
    assert_eq!(joined.as_slice(), index.codes());
}
