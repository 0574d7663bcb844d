use std::path::PathBuf;

use product_quantization_vector_search::benchmark::{
    preset_benchmark_config, single_benchmark_config, BenchmarkConfig, DatasetMetadata,
    ExperimentConfigResult, Preset, SingleCliConfig,
};
use product_quantization_vector_search::config::{DatasetConfig, KMeansConfig, PqConfig, RunConfig};
use product_quantization_vector_search::error::AppError;
use product_quantization_vector_search::synthetic::DatasetKind;

fn dataset() -> DatasetConfig {
    DatasetConfig {
        kind: DatasetKind::Clustered,
        dimension: 32,
        training_vectors: 100,
        database_vectors: 100,
        query_vectors: 1,
        latent_clusters: 4,
        cluster_stddev: 0.2_f32.to_bits(),
        seed: 42,
        top_k: 10,
    }
}

fn message(error: AppError) -> String {
    match error {
        AppError::InvalidConfig(message) => message,
        other => panic!("unexpected {other:?}"),
    }
}

#[test]
fn rejects_unsupported_dimension() {
    let config = DatasetConfig {
        kind: DatasetKind::Clustered,
        dimension: 12,
        training_vectors: 100,
        database_vectors: 100,
        query_vectors: 1,
        latent_clusters: 4,
        cluster_stddev: 0.2_f32.to_bits(),
        seed: 42,
        top_k: 10,
    };
    assert!(config.validate().is_err());
}

#[test]
fn dataset_checks_come_in_order() {
    assert!(dataset().validate().is_ok());
    let mut config = dataset();
    config.top_k = 0;
    config.training_vectors = 0;
    assert_eq!(
        message(config.validate().unwrap_err()),
        "training vector count must be positive"
    );
    let mut config = dataset();
    config.database_vectors = 9;
    assert_eq!(
        message(config.validate().unwrap_err()),
        "database vector count must be at least top-k"
    );
    let mut config = dataset();
    config.cluster_stddev = (-0.5_f32).to_bits();
    assert!(config.validate().is_err());
    config.cluster_stddev = (-0.0_f32).to_bits();
    assert!(config.validate().is_ok());
    config.cluster_stddev = f32::NAN.to_bits();
    assert!(config.validate().is_err());
}

#[test]
fn pq_and_kmeans_checks() {
    let pq = PqConfig {
        dimension: 32,
        subspaces: 4,
        centroids_per_subspace: 16,
        kmeans: KMeansConfig::default(),
    };
    assert!(pq.validate(16).is_ok());
    assert_eq!(pq.subvector_dimension(), 8);
    assert_eq!(
        message(pq.validate(15).unwrap_err()),
        "training vector count must be at least the centroid count"
    );
    let mut other = pq.clone();
    other.centroids_per_subspace = 32;
    assert_eq!(
        message(other.validate(100).unwrap_err()),
        "centroids per subspace must be 16, 64, or 256"
    );
    let mut other = pq.clone();
    other.kmeans.max_iterations = 0;
    assert_eq!(
        message(other.validate(100).unwrap_err()),
        "k-means maximum iterations must be positive"
    );
    let mut other = pq.clone();
    other.kmeans.convergence_epsilon = f32::INFINITY.to_bits();
    assert!(other.validate(100).is_err());
    assert_eq!(KMeansConfig::default().max_iterations, 100);
    assert_eq!(
        f32::from_bits(KMeansConfig::default().convergence_epsilon),
        1.0e-4
    );
    let run = RunConfig {
        dataset: dataset(),
        pq: PqConfig {
            dimension: 64,
            ..pq.clone()
        },
        output: PathBuf::from("out"),
    };
    assert_eq!(
        message(run.validate().unwrap_err()),
        "dataset and PQ dimensions must match"
    );
}

#[test]
fn presets_expand_in_stable_order() {
    let quick = BenchmarkConfig::from_preset(
        Preset::Quick,
        DatasetKind::Clustered,
        PathBuf::from("artifacts"),
    );
    let quick_pairs: Vec<_> = quick
        .pq_configs
        .iter()
        .map(|config| (config.subspaces, config.centroids_per_subspace))
        .collect();
    assert_eq!(quick_pairs, vec![(4, 16), (4, 64), (8, 16), (8, 64)]);

    let default = BenchmarkConfig::from_preset(
        Preset::Default,
        DatasetKind::Clustered,
        PathBuf::from("artifacts"),
    );
    let default_pairs: Vec<_> = default
        .pq_configs
        .iter()
        .map(|config| (config.subspaces, config.centroids_per_subspace))
        .collect();
    assert_eq!(
        default_pairs,
        vec![(4, 16), (4, 64), (4, 256), (8, 16), (8, 64), (8, 256)]
    );
}

#[test]
fn presets_parse_and_validate() {
    assert_eq!(Preset::parse("quick").unwrap(), Preset::Quick);
    assert_eq!(Preset::parse("default").unwrap(), Preset::Default);
    assert!(Preset::parse("Quick").is_err());
    for preset in [Preset::Quick, Preset::Default] {
        let config = BenchmarkConfig::from_preset(preset, DatasetKind::Uniform, PathBuf::new());
        assert!(config.validate().is_ok());
    }
    let mut config = preset_benchmark_config("quick", DatasetKind::Uniform, PathBuf::new()).unwrap();
    assert_eq!(config.dataset.dimension, 32);
    config.pq_configs.clear();
    assert_eq!(
        message(config.validate().unwrap_err()),
        "benchmark must contain at least one PQ configuration"
    );
    assert!(preset_benchmark_config("slow", DatasetKind::Uniform, PathBuf::new()).is_err());
}

#[test]
fn single_run_builds_one_configuration() {
    let benchmark = single_benchmark_config(SingleCliConfig {
        dimension: 64,
        training_vectors: 300,
        database_vectors: 500,
        query_vectors: 20,
        dataset: DatasetKind::Correlated,
        subspaces: 8,
        centroids: 256,
        top_k: 10,
        seed: 7,
        output: PathBuf::from("out"),
    });
    assert_eq!(benchmark.dataset.latent_clusters, 32);
    assert_eq!(benchmark.pq_configs.len(), 1);
    assert_eq!(benchmark.pq_configs[0].centroids_per_subspace, 256);
    assert!(benchmark.validate().is_ok());
    assert_eq!(benchmark.output, PathBuf::from("out"));
    assert_eq!(DatasetKind::Correlated.name(), "correlated");
    assert_eq!(DatasetKind::default(), DatasetKind::Clustered);
}

#[test]
fn report_records_keep_dataset_facts_and_shapes() {
    let metadata = DatasetMetadata::of(&dataset());
    assert_eq!(metadata.kind, DatasetKind::Clustered);
    assert_eq!(metadata.dimension, 32);
    assert_eq!(metadata.training_vectors, 100);
    assert_eq!(metadata.latent_clusters, 4);
    assert_eq!(metadata.seed, 42);
    assert_eq!(metadata.top_k, 10);
    let shape = ExperimentConfigResult::of(&PqConfig {
        dimension: 64,
        subspaces: 8,
        centroids_per_subspace: 256,
        kmeans: KMeansConfig::default(),
    });
    assert_eq!(shape.subspaces, 8);
    assert_eq!(shape.centroids_per_subspace, 256);
    assert_eq!(shape.subvector_dimension, 8);
}
