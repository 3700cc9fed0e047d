//! Exact variance-covariance computation for jointly observed sample vectors.
//!
//! Observations are integers and every statistic is carried as an exact
//! fraction, so mean, variance, covariance and the full covariance matrix
//! are computed without any rounding.  The population normalization is used
//! throughout (divisor `n`, not `n - 1`).

pub mod laws;
pub mod model;
pub mod stats;
