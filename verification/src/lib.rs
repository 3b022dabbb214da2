//! Lane extraction from object trajectories: characteristic-point
//! partitioning, density clustering of line segments, and the sweep that
//! places the representative points of each cluster.
//!
//! The library works on indices and integer keys. Coordinates, speeds and the
//! distances between segments are measured by the caller, who hands the
//! library the outcome of each measurement: the cost of a partition window,
//! the neighbourhood of a segment, the position of a segment's endpoints
//! along a cluster's direction.
pub mod cluster_gen;
pub mod dbscan;
pub mod file_io;
pub mod lists;
pub mod models;
pub mod partition_tra;
pub mod sweep;
