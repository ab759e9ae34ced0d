//! Clustering of housing properties by unit and subsidy counts.
//!
//! Records are scaled into a fixed-point unit square, partitioned by k-means
//! and summarized per cluster. All arithmetic is exact integer arithmetic.

pub mod chart;
pub mod clustering;
pub mod kmeans;
pub mod partition;
pub mod record;
pub mod report;
pub mod scaler;
pub mod singletons;
