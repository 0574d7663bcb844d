//! Dataset, k-means and product-quantization settings and their checks.

use vstd::prelude::*;
use crate::error::{AppError, is_invalid_config, invalid_config};
use crate::synthetic::DatasetKind;
use crate::vector::float_bits::{is_finite_bits, is_below_zero_bits, bits_are_finite, bits_are_below_zero};

verus! {

#[verifier::external_type_specification]
#[verifier::external_body]
pub struct ExPathBuf(std::path::PathBuf);

/// Bit pattern of the `f32` value 1.0e-4.
pub const DEFAULT_CONVERGENCE_EPSILON_BITS: u32 = 0x38D1_B717;

/// Bit pattern of the `f32` value 0.2.
pub const DEFAULT_CLUSTER_STDDEV_BITS: u32 = 0x3E4C_CCCD;

/// A synthetic dataset and the search it is used for.  `cluster_stddev` is
/// the bit pattern of an `f32`.
#[derive(Clone, Debug, PartialEq)]
pub struct DatasetConfig {
    pub kind: DatasetKind,
    pub dimension: usize,
    pub training_vectors: usize,
    pub database_vectors: usize,
    pub query_vectors: usize,
    pub latent_clusters: usize,
    pub cluster_stddev: u32,
    pub seed: u64,
    pub top_k: usize,
}

impl DatasetConfig {
    /// The settings that `validate` accepts.
    pub open spec fn is_valid(&self) -> bool {
        &&& (self.dimension == 32 || self.dimension == 64)
        &&& self.training_vectors > 0
        &&& self.query_vectors > 0
        &&& self.top_k > 0
        &&& self.database_vectors >= self.top_k
        &&& self.latent_clusters > 0
        &&& is_finite_bits(self.cluster_stddev)
        &&& !is_below_zero_bits(self.cluster_stddev)
    }

    /// `e` is the error `validate` returns: the first check that fails.
    pub open spec fn validate_error(&self, e: AppError) -> bool {
        if !(self.dimension == 32 || self.dimension == 64) {
            is_invalid_config(e, "dimension must be 32 or 64 for the MVP"@)
        } else if self.training_vectors == 0 {
            is_invalid_config(e, "training vector count must be positive"@)
        } else if self.query_vectors == 0 {
            is_invalid_config(e, "query vector count must be positive"@)
        } else if self.top_k == 0 {
            is_invalid_config(e, "top-k must be positive"@)
        } else if self.database_vectors < self.top_k {
            is_invalid_config(e, "database vector count must be at least top-k"@)
        } else if self.latent_clusters == 0 {
            is_invalid_config(e, "latent cluster count must be positive"@)
        } else {
            is_invalid_config(e, "cluster standard deviation must be finite and non-negative"@)
        }
    }

    /// Checks the settings (see `is_valid`).
    pub fn validate(&self) -> (checked: Result<(), AppError>)
        ensures
            match checked {
                Ok(()) => self.is_valid(),
                Err(e) => !self.is_valid() && self.validate_error(e),
            },
    {
        if !(self.dimension == 32 || self.dimension == 64) {
            return Err(invalid_config("dimension must be 32 or 64 for the MVP"));
        }
        if self.training_vectors == 0 {
            return Err(invalid_config("training vector count must be positive"));
        }
        if self.query_vectors == 0 {
            return Err(invalid_config("query vector count must be positive"));
        }
        if self.top_k == 0 {
            return Err(invalid_config("top-k must be positive"));
        }
        if self.database_vectors < self.top_k {
            return Err(invalid_config("database vector count must be at least top-k"));
        }
        if self.latent_clusters == 0 {
            return Err(invalid_config("latent cluster count must be positive"));
        }
        if !bits_are_finite(self.cluster_stddev) || bits_are_below_zero(self.cluster_stddev) {
            return Err(invalid_config("cluster standard deviation must be finite and non-negative"));
        }
        Ok(())
    }
}

/// k-means stopping rule.  `convergence_epsilon` is the bit pattern of an
/// `f32`.
#[derive(Clone, Debug, PartialEq)]
pub struct KMeansConfig {
    pub max_iterations: usize,
    pub convergence_epsilon: u32,
}

impl Default for KMeansConfig {
    fn default() -> (config: Self)
        ensures
            config.max_iterations == 100,
            config.convergence_epsilon == DEFAULT_CONVERGENCE_EPSILON_BITS,
            config.convergence_epsilon == 0x38D1_B717u32,
    {
        KMeansConfig { max_iterations: 100, convergence_epsilon: DEFAULT_CONVERGENCE_EPSILON_BITS }
    }
}

impl KMeansConfig {
    /// The settings that `validate` accepts.
    pub open spec fn is_valid(&self) -> bool {
        &&& self.max_iterations > 0
        &&& is_finite_bits(self.convergence_epsilon)
        &&& !is_below_zero_bits(self.convergence_epsilon)
    }

    /// `e` is the error `validate` returns.
    pub open spec fn validate_error(&self, e: AppError) -> bool {
        if self.max_iterations == 0 {
            is_invalid_config(e, "k-means maximum iterations must be positive"@)
        } else {
            is_invalid_config(e, "k-means convergence epsilon must be finite and non-negative"@)
        }
    }

    /// Checks the settings (see `is_valid`).
    pub fn validate(&self) -> (checked: Result<(), AppError>)
        ensures
            match checked {
                Ok(()) => self.is_valid(),
                Err(e) => !self.is_valid() && self.validate_error(e),
            },
    {
        if self.max_iterations == 0 {
            return Err(invalid_config("k-means maximum iterations must be positive"));
        }
        if !bits_are_finite(self.convergence_epsilon) || bits_are_below_zero(
            self.convergence_epsilon,
        ) {
            return Err(
                invalid_config("k-means convergence epsilon must be finite and non-negative"),
            );
        }
        Ok(())
    }
}

/// One product-quantization configuration.
#[derive(Clone, Debug, PartialEq)]
pub struct PqConfig {
    pub dimension: usize,
    pub subspaces: usize,
    pub centroids_per_subspace: usize,
    pub kmeans: KMeansConfig,
}

impl PqConfig {
    /// The settings that `validate` accepts for `training_vectors` vectors.
    pub open spec fn is_valid(&self, training_vectors: usize) -> bool {
        &&& (self.dimension == 32 || self.dimension == 64)
        &&& (self.subspaces == 4 || self.subspaces == 8)
        &&& self.dimension % self.subspaces == 0
        &&& (self.centroids_per_subspace == 16 || self.centroids_per_subspace == 64
            || self.centroids_per_subspace == 256)
        &&& training_vectors >= self.centroids_per_subspace
        &&& self.kmeans.is_valid()
    }

    /// `e` is the error `validate` returns: the first check that fails.
    pub open spec fn validate_error(&self, training_vectors: usize, e: AppError) -> bool {
        if !(self.dimension == 32 || self.dimension == 64) {
            is_invalid_config(e, "dimension must be 32 or 64 for the MVP"@)
        } else if !(self.subspaces == 4 || self.subspaces == 8) {
            is_invalid_config(e, "subspaces must be 4 or 8 for the MVP"@)
        } else if self.dimension % self.subspaces != 0 {
            is_invalid_config(e, "dimension must be divisible by subspaces"@)
        } else if !(self.centroids_per_subspace == 16 || self.centroids_per_subspace == 64
            || self.centroids_per_subspace == 256) {
            is_invalid_config(e, "centroids per subspace must be 16, 64, or 256"@)
        } else if training_vectors < self.centroids_per_subspace {
            is_invalid_config(e, "training vector count must be at least the centroid count"@)
        } else {
            self.kmeans.validate_error(e)
        }
    }

    /// Checks the settings for `training_vectors` training vectors (see
    /// `is_valid`).
    pub fn validate(&self, training_vectors: usize) -> (checked: Result<(), AppError>)
        ensures
            match checked {
                Ok(()) => self.is_valid(training_vectors),
                Err(e) => !self.is_valid(training_vectors) && self.validate_error(
                    training_vectors,
                    e,
                ),
            },
    {
        if !(self.dimension == 32 || self.dimension == 64) {
            return Err(invalid_config("dimension must be 32 or 64 for the MVP"));
        }
        if !(self.subspaces == 4 || self.subspaces == 8) {
            return Err(invalid_config("subspaces must be 4 or 8 for the MVP"));
        }
        if self.dimension % self.subspaces != 0 {
            return Err(invalid_config("dimension must be divisible by subspaces"));
        }
        if !(self.centroids_per_subspace == 16 || self.centroids_per_subspace == 64
            || self.centroids_per_subspace == 256) {
            return Err(invalid_config("centroids per subspace must be 16, 64, or 256"));
        }
        if self.centroids_per_subspace > 256 {
            return Err(invalid_config("centroids per subspace cannot exceed 256"));
        }
        if training_vectors < self.centroids_per_subspace {
            return Err(invalid_config("training vector count must be at least the centroid count"));
        }
        self.kmeans.validate()
    }

    /// Coordinates per subvector.
    pub fn subvector_dimension(&self) -> (subvector_dimension: usize)
        requires
            self.subspaces > 0,
        ensures
            subvector_dimension == self.dimension / self.subspaces,
    {
        self.dimension / self.subspaces
    }
}

/// A dataset, one PQ configuration, and where to write the results.
#[derive(Debug)]
pub struct RunConfig {
    pub dataset: DatasetConfig,
    pub pq: PqConfig,
    pub output: std::path::PathBuf,
}

impl RunConfig {
    /// The settings that `validate` accepts.
    pub open spec fn is_valid(&self) -> bool {
        &&& self.dataset.is_valid()
        &&& self.dataset.dimension == self.pq.dimension
        &&& self.pq.is_valid(self.dataset.training_vectors)
    }

    /// Checks the dataset, that the dimensions agree, then the PQ settings.
    pub fn validate(&self) -> (checked: Result<(), AppError>)
        ensures
            match checked {
                Ok(()) => self.is_valid(),
                Err(e) => !self.is_valid() && if !self.dataset.is_valid() {
                    self.dataset.validate_error(e)
                } else if self.dataset.dimension != self.pq.dimension {
                    is_invalid_config(e, "dataset and PQ dimensions must match"@)
                } else {
                    self.pq.validate_error(self.dataset.training_vectors, e)
                },
            },
    {
        match self.dataset.validate() {
            Ok(()) => {},
            Err(e) => {
                return Err(e);
            },
        }
        if self.dataset.dimension != self.pq.dimension {
            return Err(invalid_config("dataset and PQ dimensions must match"));
        }
        self.pq.validate(self.dataset.training_vectors)
    }
}

} // verus!
