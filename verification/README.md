# lidar_clustering_hdl

Clustering kernels for LiDAR point clouds on fixed-width integers, verified
with Verus: Euclidean Cluster Extraction (ECE), a trimmed DBSCAN, a
single-pass region grower, the segmentation wrapper that routes each point to
ECE or DBSCAN, and the drivers that run them over a whole cloud.

Coordinates are 16 bits, squared distances and thresholds 32 bits, cluster ids
and neighbour counters 8 bits; all arithmetic wraps as the hardware datapath
does, and the contracts say so.

## Layout

- `src/point.rs`: `Point3D` and `PointState`.
- `src/distance.rs`: squared distance modulo 2^32, with its laws (symmetry,
  zero on self, exact when it fits).
- `src/ece.rs`, `src/dbscan.rs`, `src/clustering_core.rs`: the kernels, each
  specified by a spec function of its result.
- `src/segmentation.rs`: the wrapper, and the laws shared by all kernels.
- `src/growth.rs`: seed search, expansion passes and cluster growth.
- `src/trace.rs`: the trace and report of a run.
- `src/run_laws.rs`: what every run keeps true (linked and closed clusters).
- `src/ece_flow.rs`, `src/dbscan_flow.rs`: the drivers, specified exactly by
  `ece_run` and `dbscan_run`.
- `src/summary.rs`: tallies of a result.
- `src/test_data.rs`: the synthetic demo cloud.
- `src/signature.rs`: port widths of a Verilog function signature.
- `src/top_module.rs`: the registered synthesis top module around the
  kernel's Verilog function.
- `app/main.rs`: the demo driver that prints both runs; `export-top [dir]`
  reads `dir/segmentation_step.v` and writes `dir/segmentation_step_top.v`
  (`app/export_top.rs`).
