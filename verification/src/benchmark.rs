//! Benchmark matrices: presets, single runs, and their checks.

use vstd::prelude::*;
use crate::config::{
    DatasetConfig, KMeansConfig, PqConfig, DEFAULT_CLUSTER_STDDEV_BITS,
    DEFAULT_CONVERGENCE_EPSILON_BITS,
};
use crate::error::{AppError, is_invalid_config, invalid_config};
use crate::synthetic::DatasetKind;

verus! {

/// A predefined benchmark matrix.
#[derive(Clone, Copy, Debug, PartialEq, Eq, Structural)]
pub enum Preset {
    Quick,
    Default,
}

impl Preset {
    /// The preset named `value`: "quick" or "default".
    pub fn parse(value: &str) -> (preset: Result<Self, AppError>)
        ensures
            match preset {
                Ok(Preset::Quick) => value@ == "quick"@,
                Ok(Preset::Default) => value@ == "default"@,
                Err(e) => {
                    &&& value@ != "quick"@
                    &&& value@ != "default"@
                    &&& is_invalid_config(e, "preset must be 'quick' or 'default'"@)
                },
            },
    {
        let name = value.to_owned();
        if name == "quick".to_owned() {
            Ok(Preset::Quick)
        } else if name == "default".to_owned() {
            Ok(Preset::Default)
        } else {
            Err(invalid_config("preset must be 'quick' or 'default'"))
        }
    }
}

/// A dataset, the PQ configurations run on it, and where to write results.
#[derive(Debug)]
pub struct BenchmarkConfig {
    pub dataset: DatasetConfig,
    pub pq_configs: Vec<PqConfig>,
    pub output: std::path::PathBuf,
}

/// Vector dimension of a preset.
pub open spec fn preset_dimension(preset: Preset) -> usize {
    match preset {
        Preset::Quick => 32,
        Preset::Default => 64,
    }
}

/// Centroid counts a preset tries, in order.
pub open spec fn preset_centroid_counts(preset: Preset) -> Seq<usize> {
    match preset {
        Preset::Quick => seq![16usize, 64],
        Preset::Default => seq![16usize, 64, 256],
    }
}

/// The dataset of a preset.
pub open spec fn preset_dataset(preset: Preset, kind: DatasetKind) -> DatasetConfig {
    match preset {
        Preset::Quick => DatasetConfig {
            kind,
            dimension: 32,
            training_vectors: 1_000,
            database_vectors: 5_000,
            query_vectors: 25,
            latent_clusters: 16,
            cluster_stddev: DEFAULT_CLUSTER_STDDEV_BITS,
            seed: 42,
            top_k: 10,
        },
        Preset::Default => DatasetConfig {
            kind,
            dimension: 64,
            training_vectors: 10_000,
            database_vectors: 50_000,
            query_vectors: 200,
            latent_clusters: 32,
            cluster_stddev: DEFAULT_CLUSTER_STDDEV_BITS,
            seed: 42,
            top_k: 10,
        },
    }
}

/// The PQ configuration with default k-means settings.
pub open spec fn default_pq_config(
    dimension: usize,
    subspaces: usize,
    centroids_per_subspace: usize,
) -> PqConfig {
    PqConfig {
        dimension,
        subspaces,
        centroids_per_subspace,
        kmeans: KMeansConfig {
            max_iterations: 100,
            convergence_epsilon: DEFAULT_CONVERGENCE_EPSILON_BITS,
        },
    }
}

/// Configuration `i` of a preset: 4 subspaces with each centroid count in
/// turn, then 8 subspaces with each centroid count in turn.
pub open spec fn preset_pq_config(preset: Preset, i: int) -> PqConfig {
    let counts = preset_centroid_counts(preset);
    default_pq_config(
        preset_dimension(preset),
        if i < counts.len() {
            4
        } else {
            8
        },
        counts[i % (counts.len() as int)],
    )
}

impl BenchmarkConfig {
    /// The configuration a preset expands to.
    pub fn from_preset(preset: Preset, kind: DatasetKind, output: std::path::PathBuf) -> (config:
        Self)
        ensures
            config.dataset == preset_dataset(preset, kind),
            config.pq_configs@.len() == 2 * preset_centroid_counts(preset).len(),
            forall|i: int|
                0 <= i < config.pq_configs@.len() ==> #[trigger] config.pq_configs@[i]
                    == preset_pq_config(preset, i),
            config.output == output,
            config.dataset.kind == kind,
            config.dataset.dimension == if preset == Preset::Default { 64usize } else { 32usize },
            config.dataset.training_vectors == if preset == Preset::Default {
                10_000usize
            } else {
                1_000usize
            },
            config.dataset.database_vectors == if preset == Preset::Default {
                50_000usize
            } else {
                5_000usize
            },
            config.dataset.query_vectors == if preset == Preset::Default { 200usize } else { 25usize },
            config.dataset.latent_clusters == if preset == Preset::Default { 32usize } else { 16usize },
            config.dataset.cluster_stddev == 0x3E4C_CCCDu32,
            config.dataset.seed == 42,
            config.dataset.top_k == 10,
            preset == Preset::Quick ==> config.pq_configs@.map_values(
                |c: PqConfig| (c.subspaces, c.centroids_per_subspace),
            ) == seq![(4usize, 16usize), (4, 64), (8, 16), (8, 64)],
            preset == Preset::Default ==> config.pq_configs@.map_values(
                |c: PqConfig| (c.subspaces, c.centroids_per_subspace),
            ) == seq![(4usize, 16usize), (4, 64), (4, 256), (8, 16), (8, 64), (8, 256)],
            forall|i: int|
                0 <= i < config.pq_configs@.len() ==> {
                    &&& (#[trigger] config.pq_configs@[i]).dimension == config.dataset.dimension
                    &&& config.pq_configs@[i].kmeans.max_iterations == 100
                    &&& config.pq_configs@[i].kmeans.convergence_epsilon == 0x38D1_B717u32
                },
    {
        let dimension: usize = match preset {
            Preset::Quick => 32,
            Preset::Default => 64,
        };
        let counts: Vec<usize> = match preset {
            Preset::Quick => vec![16, 64],
            Preset::Default => vec![16, 64, 256],
        };
        assert(counts@ == preset_centroid_counts(preset));
        let dataset = match preset {
            Preset::Quick => DatasetConfig {
                kind,
                dimension,
                training_vectors: 1_000,
                database_vectors: 5_000,
                query_vectors: 25,
                latent_clusters: 16,
                cluster_stddev: DEFAULT_CLUSTER_STDDEV_BITS,
                seed: 42,
                top_k: 10,
            },
            Preset::Default => DatasetConfig {
                kind,
                dimension,
                training_vectors: 10_000,
                database_vectors: 50_000,
                query_vectors: 200,
                latent_clusters: 32,
                cluster_stddev: DEFAULT_CLUSTER_STDDEV_BITS,
                seed: 42,
                top_k: 10,
            },
        };
        let mut pq_configs: Vec<PqConfig> = Vec::new();
        let mut round: usize = 0;
        while round < 2
            invariant
                round <= 2,
                counts@ == preset_centroid_counts(preset),
                dimension == preset_dimension(preset),
                pq_configs@.len() == round * counts@.len(),
                forall|i: int|
                    0 <= i < pq_configs@.len() ==> #[trigger] pq_configs@[i] == preset_pq_config(
                        preset,
                        i,
                    ),
            decreases 2 - round,
        {
            let subspaces: usize = if round == 0 {
                4
            } else {
                8
            };
            let mut c: usize = 0;
            while c < counts.len()
                invariant
                    round < 2,
                    c <= counts@.len(),
                    counts@ == preset_centroid_counts(preset),
                    dimension == preset_dimension(preset),
                    subspaces == if round == 0 {
                        4usize
                    } else {
                        8usize
                    },
                    pq_configs@.len() == round * counts@.len() + c,
                    forall|i: int|
                        0 <= i < pq_configs@.len() ==> #[trigger] pq_configs@[i]
                            == preset_pq_config(preset, i),
                decreases counts@.len() - c,
            {
                let ghost position = pq_configs@.len() as int;
                pq_configs.push(
                    PqConfig {
                        dimension,
                        subspaces,
                        centroids_per_subspace: counts[c],
                        kmeans: KMeansConfig::default(),
                    },
                );
                proof {
                    let n = counts@.len() as int;
                    assert(position == round * n + c);
                    if round == 0 {
                        assert(position % n == c) by {
                            vstd::arithmetic::div_mod::lemma_small_mod(c as nat, n as nat);
                        }
                    } else {
                        assert(position == n + c);
                        assert(position % n == c) by {
                            vstd::arithmetic::div_mod::lemma_mod_add_multiples_vanish(c as int, n);
                            vstd::arithmetic::div_mod::lemma_small_mod(c as nat, n as nat);
                        }
                    }
                    assert(pq_configs@[position] == preset_pq_config(preset, position));
                }
                c += 1;
            }
            round += 1;
        }
        BenchmarkConfig { dataset, pq_configs, output }
    }

    /// Whether configuration `i` has the dataset's dimension and is valid.
    pub open spec fn pq_config_fits(&self, i: int) -> bool {
        &&& self.pq_configs@[i].dimension == self.dataset.dimension
        &&& self.pq_configs@[i].is_valid(self.dataset.training_vectors)
    }

    /// The settings that `validate` accepts.
    pub open spec fn is_valid(&self) -> bool {
        &&& self.dataset.is_valid()
        &&& self.pq_configs@.len() > 0
        &&& forall|i: int| 0 <= i < self.pq_configs@.len() ==> #[trigger] self.pq_config_fits(i)
    }

    /// The first configuration that does not fit.
    pub open spec fn first_unfit(&self) -> int {
        choose|i: int|
            0 <= i < self.pq_configs@.len() && !self.pq_config_fits(i) && forall|j: int|
                0 <= j < i ==> #[trigger] self.pq_config_fits(j)
    }

    /// Checks the dataset, then that there is a configuration, then each
    /// configuration in order.
    pub fn validate(&self) -> (checked: Result<(), AppError>)
        ensures
            match checked {
                Ok(()) => self.is_valid(),
                Err(e) => !self.is_valid() && if !self.dataset.is_valid() {
                    self.dataset.validate_error(e)
                } else if self.pq_configs@.len() == 0 {
                    is_invalid_config(e, "benchmark must contain at least one PQ configuration"@)
                } else {
                    let i = self.first_unfit();
                    if self.pq_configs@[i].dimension != self.dataset.dimension {
                        is_invalid_config(e, "all PQ dimensions must match the dataset dimension"@)
                    } else {
                        self.pq_configs@[i].validate_error(self.dataset.training_vectors, e)
                    }
                },
            },
    {
        match self.dataset.validate() {
            Ok(()) => {},
            Err(e) => {
                return Err(e);
            },
        }
        if self.pq_configs.len() == 0 {
            return Err(invalid_config("benchmark must contain at least one PQ configuration"));
        }
        let mut i: usize = 0;
        while i < self.pq_configs.len()
            invariant
                i <= self.pq_configs@.len(),
                self.dataset.is_valid(),
                self.pq_configs@.len() > 0,
                forall|j: int| 0 <= j < i ==> #[trigger] self.pq_config_fits(j),
            decreases self.pq_configs@.len() - i,
        {
            let config = &self.pq_configs[i];
            if config.dimension != self.dataset.dimension {
                proof {
                    self.lemma_first_unfit_is(i as int);
                }
                return Err(invalid_config("all PQ dimensions must match the dataset dimension"));
            }
            match config.validate(self.dataset.training_vectors) {
                Ok(()) => {},
                Err(e) => {
                    proof {
                        self.lemma_first_unfit_is(i as int);
                    }
                    return Err(e);
                },
            }
            i += 1;
        }
        Ok(())
    }

    proof fn lemma_first_unfit_is(&self, i: int)
        requires
            0 <= i < self.pq_configs@.len(),
            !self.pq_config_fits(i),
            forall|j: int| 0 <= j < i ==> #[trigger] self.pq_config_fits(j),
        ensures
            self.first_unfit() == i,
    {
        let f = self.first_unfit();
        assert(0 <= f < self.pq_configs@.len() && !self.pq_config_fits(f));
        if f < i {
            assert(self.pq_config_fits(f));
        }
        if f > i {
            assert(self.pq_config_fits(i));
        }
    }
}

/// The settings of a single command-line run.
#[derive(Debug)]
pub struct SingleCliConfig {
    pub dimension: usize,
    pub training_vectors: usize,
    pub database_vectors: usize,
    pub query_vectors: usize,
    pub dataset: DatasetKind,
    pub subspaces: usize,
    pub centroids: usize,
    pub top_k: usize,
    pub seed: u64,
    pub output: std::path::PathBuf,
}

/// The benchmark of a single command-line run: its dataset with 32 latent
/// clusters and the default spread, and its one PQ configuration with
/// default k-means settings.
pub fn single_benchmark_config(config: SingleCliConfig) -> (benchmark: BenchmarkConfig)
    ensures
        benchmark.dataset == (DatasetConfig {
            kind: config.dataset,
            dimension: config.dimension,
            training_vectors: config.training_vectors,
            database_vectors: config.database_vectors,
            query_vectors: config.query_vectors,
            latent_clusters: 32,
            cluster_stddev: DEFAULT_CLUSTER_STDDEV_BITS,
            seed: config.seed,
            top_k: config.top_k,
        }),
        benchmark.pq_configs@ == seq![
            default_pq_config(config.dimension, config.subspaces, config.centroids),
        ],
        benchmark.output == config.output,
        benchmark.dataset.cluster_stddev == 0x3E4C_CCCDu32,
        benchmark.pq_configs@[0].kmeans.max_iterations == 100,
        benchmark.pq_configs@[0].kmeans.convergence_epsilon == 0x38D1_B717u32,
{
    let mut pq_configs: Vec<PqConfig> = Vec::new();
    pq_configs.push(
        PqConfig {
            dimension: config.dimension,
            subspaces: config.subspaces,
            centroids_per_subspace: config.centroids,
            kmeans: KMeansConfig::default(),
        },
    );
    BenchmarkConfig {
        dataset: DatasetConfig {
            kind: config.dataset,
            dimension: config.dimension,
            training_vectors: config.training_vectors,
            database_vectors: config.database_vectors,
            query_vectors: config.query_vectors,
            latent_clusters: 32,
            cluster_stddev: DEFAULT_CLUSTER_STDDEV_BITS,
            seed: config.seed,
            top_k: config.top_k,
        },
        pq_configs,
        output: config.output,
    }
}

/// The benchmark of a preset command-line run: the preset named `preset`
/// expanded for `dataset`.
pub fn preset_benchmark_config(
    preset: &str,
    dataset: DatasetKind,
    output: std::path::PathBuf,
) -> (benchmark: Result<BenchmarkConfig, AppError>)
    ensures
        match benchmark {
            Ok(benchmark) => {
                &&& (preset@ == "quick"@ || preset@ == "default"@)
                &&& {
                    let p = if preset@ == "quick"@ {
                        Preset::Quick
                    } else {
                        Preset::Default
                    };
                    &&& benchmark.dataset == preset_dataset(p, dataset)
                    &&& benchmark.pq_configs@.len() == 2 * preset_centroid_counts(p).len()
                    &&& forall|i: int|
                        0 <= i < benchmark.pq_configs@.len() ==> #[trigger] benchmark.pq_configs@[i]
                            == preset_pq_config(p, i)
                }
                &&& benchmark.output == output
            },
            Err(e) => {
                &&& preset@ != "quick"@
                &&& preset@ != "default"@
                &&& is_invalid_config(e, "preset must be 'quick' or 'default'"@)
            },
        },
{
    proof {
        reveal_strlit("quick");
        reveal_strlit("default");
        assert("quick"@.len() != "default"@.len());
    }
    match Preset::parse(preset) {
        Ok(p) => Ok(BenchmarkConfig::from_preset(p, dataset, output)),
        Err(e) => Err(e),
    }
}

/// Dataset facts recorded in a report.
#[derive(Clone, Copy, Debug, PartialEq, Eq, Structural)]
pub struct DatasetMetadata {
    pub kind: DatasetKind,
    pub dimension: usize,
    pub training_vectors: usize,
    pub database_vectors: usize,
    pub query_vectors: usize,
    pub latent_clusters: usize,
    pub seed: u64,
    pub top_k: usize,
}

impl DatasetMetadata {
    /// The facts of `dataset` that a report records.
    pub fn of(dataset: &DatasetConfig) -> (metadata: Self)
        ensures
            metadata == (DatasetMetadata {
                kind: dataset.kind,
                dimension: dataset.dimension,
                training_vectors: dataset.training_vectors,
                database_vectors: dataset.database_vectors,
                query_vectors: dataset.query_vectors,
                latent_clusters: dataset.latent_clusters,
                seed: dataset.seed,
                top_k: dataset.top_k,
            }),
    {
        DatasetMetadata {
            kind: dataset.kind,
            dimension: dataset.dimension,
            training_vectors: dataset.training_vectors,
            database_vectors: dataset.database_vectors,
            query_vectors: dataset.query_vectors,
            latent_clusters: dataset.latent_clusters,
            seed: dataset.seed,
            top_k: dataset.top_k,
        }
    }
}

/// The shape of one PQ configuration, as a report records it.
#[derive(Clone, Copy, Debug, PartialEq, Eq, Structural)]
pub struct ExperimentConfigResult {
    pub subspaces: usize,
    pub centroids_per_subspace: usize,
    pub subvector_dimension: usize,
}

impl ExperimentConfigResult {
    /// The shape of `config`.
    pub fn of(config: &PqConfig) -> (shape: Self)
        requires
            config.subspaces > 0,
        ensures
            shape == (ExperimentConfigResult {
                subspaces: config.subspaces,
                centroids_per_subspace: config.centroids_per_subspace,
                subvector_dimension: config.dimension / config.subspaces,
            }),
    {
        ExperimentConfigResult {
            subspaces: config.subspaces,
            centroids_per_subspace: config.centroids_per_subspace,
            subvector_dimension: config.subvector_dimension(),
        }
    }
}

} // verus!
