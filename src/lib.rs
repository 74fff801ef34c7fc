//! Windowed statistical filters (minimum, maximum, mean, contrast, gradient)
//! over a single-channel grid of unsigned integer samples.

pub mod kind;
pub mod sample;
pub mod spatial;
pub mod stats;

pub use kind::{SpatialOpsError, StatisticOperations, ACCEPTED_STATISTIC_NAMES};
pub use sample::NumOps;
pub use spatial::{pad_replicate, spatial, spatial_ops};
pub use stats::{find_contrast, find_gradient, find_max, find_mean, find_min};
