//! Clustering kernels for LiDAR point clouds, written on fixed-width integers
//! so that each kernel maps onto a hardware datapath: Euclidean Cluster
//! Extraction (ECE), a trimmed DBSCAN, a single-pass region grower, the
//! wrapper that routes points to ECE or DBSCAN, and the drivers that run
//! them over a whole cloud.
use vstd::prelude::*;

pub mod point;
pub mod distance;
pub mod ece;
pub mod dbscan;
pub mod clustering_core;
pub mod segmentation;
pub mod trace;
pub mod growth;
pub mod run_laws;
pub mod ece_flow;
pub mod dbscan_flow;
pub mod summary;
pub mod test_data;
pub mod signature;
pub mod top_module;

pub use point::{Point3D, PointState};
pub use distance::{distance_squared, is_within_threshold};
pub use ece::{EceCore, EceState, ece_step, ece_expand};
pub use dbscan::{
    DbscanCore, DbscanState, dbscan_step, dbscan_expand, has_min_neighbors, start_expanding,
    mark_seed_as_noise,
};
pub use clustering_core::{ClusteringCore, ClusteringState, process_point};
pub use segmentation::{SegmentationCore, SegmentationMode, segmentation_step};
pub use trace::{FlowEvent, FlowReport};
pub use ece_flow::ece_flow;
pub use dbscan_flow::dbscan_flow;
pub use summary::{ClusterSummary, summarize_states, cluster_summary};
pub use test_data::generate_test_data;
pub use signature::{SignatureError, NumberError, parse_bit_widths, bit_widths_fit};
pub use top_module::{TopModuleError, segmentation_top_module};

verus! {

} // verus!
