//! Errors of the library.

use vstd::prelude::*;

verus! {

/// Why an operation was refused.
#[derive(Debug)]
pub enum AppError {
    /// A configuration or argument is out of its accepted range.
    InvalidConfig(String),
    /// A length differs from the one required.
    DimensionMismatch { expected: usize, actual: usize },
    /// A product-quantization code does not fit its quantizer.
    InvalidPqCode(String),
    /// k-means cannot proceed.
    KMeans(String),
}

/// `error` is an `InvalidConfig` error carrying `message`.
pub open spec fn is_invalid_config(error: AppError, message: Seq<char>) -> bool {
    error matches AppError::InvalidConfig(m) && m@ == message
}

/// `error` is an `InvalidPqCode` error carrying `message`.
pub open spec fn is_invalid_pq_code(error: AppError, message: Seq<char>) -> bool {
    error matches AppError::InvalidPqCode(m) && m@ == message
}

/// `error` is a `KMeans` error carrying `message`.
pub open spec fn is_kmeans_error(error: AppError, message: Seq<char>) -> bool {
    error matches AppError::KMeans(m) && m@ == message
}

/// An `InvalidConfig` error carrying `message`.
pub fn invalid_config(message: &str) -> (error: AppError)
    ensures
        is_invalid_config(error, message@),
{
    AppError::InvalidConfig(message.to_owned())
}

/// An `InvalidPqCode` error carrying `message`.
pub fn invalid_pq_code(message: &str) -> (error: AppError)
    ensures
        is_invalid_pq_code(error, message@),
{
    AppError::InvalidPqCode(message.to_owned())
}

/// A `KMeans` error carrying `message`.
pub fn kmeans_error(message: &str) -> (error: AppError)
    ensures
        is_kmeans_error(error, message@),
{
    AppError::KMeans(message.to_owned())
}

} // verus!
