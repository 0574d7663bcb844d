//! Product Quantization vector-search laboratory: the verified core.
//!
//! Vector coordinates and distances are carried as the IEEE-754 bit
//! patterns of `f32` values (`u32`), and every decision the library takes on
//! them (ordering, finiteness, selection) is stated over those bits.

pub mod error;
pub mod rng;
pub mod vector;
pub mod pq;
pub mod exact;
pub mod adc;
pub mod config;
pub mod synthetic;
pub mod benchmark;
pub mod metrics;
pub mod kmeans;
pub mod report;
