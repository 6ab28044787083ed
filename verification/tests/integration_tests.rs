use lidar_clustering_hdl::{
    dbscan_expand, dbscan_flow, dbscan_step, distance_squared, ece_expand, ece_flow, ece_step,
    has_min_neighbors, segmentation_step, summarize_states, DbscanCore, DbscanState, EceCore,
    EceState, Point3D, PointState, SegmentationCore,
};

fn pt(x: u16, y: u16, z: u16) -> Point3D {
    Point3D::new(x, y, z)
}

fn tiny_cloud() -> Vec<Point3D> {
    vec![pt(0, 0, 0), pt(0, 3, 0), pt(4, 0, 0), pt(120, 120, 0)]
}

fn run_ece_flow(
    points: &Vec<Point3D>,
    threshold_sq: u32,
    max_clusters: usize,
    max_passes: usize,
) -> (usize, usize, usize, usize) {
    let min_cluster_points = 2;
    let report = ece_flow(points, threshold_sq, max_clusters, max_passes, min_cluster_points);
    summarize_states(&report.states)
}

fn run_dbscan_flow(
    points: &Vec<Point3D>,
    eps_sq: u32,
    min_pts: u8,
    max_clusters: usize,
    max_passes: usize,
) -> (usize, usize, usize, usize) {
    let report = dbscan_flow(points, eps_sq, min_pts, max_clusters, max_passes);
    summarize_states(&report.states)
}

#[test]
fn distance_squared_basic() {
    let p1 = pt(10, 20, 30);
    let p2 = pt(4, 6, 9);
    let dist = distance_squared(p1, p2);
    assert_eq!(dist, 673);
}

#[test]
fn ece_step_marks_seed() {
    let core = EceCore::new(225);
    let (new_core, new_state, modified) = ece_step(core, pt(1, 2, 3), PointState::Unvisited);

    assert!(modified);
    assert_eq!(new_state, PointState::Clustered(0));
    assert_eq!(new_core.state, EceState::Growing);
}

#[test]
fn ece_expand_clusters_when_within_threshold() {
    let threshold_sq = 225;
    let current_cluster = 1;
    let test_point = pt(5, 5, 5);
    let ref_point = pt(8, 5, 5);
    let (new_state, modified) = ece_expand(
        threshold_sq,
        current_cluster,
        test_point,
        PointState::Unvisited,
        ref_point,
        PointState::Clustered(current_cluster),
    );

    assert!(modified);
    assert_eq!(new_state, PointState::Clustered(current_cluster));
}

#[test]
fn dbscan_step_counts_neighbors() {
    let eps_sq = 225;
    let min_pts = 3;
    let core = DbscanCore::new(eps_sq, min_pts);

    let (core, state, modified) = dbscan_step(core, pt(0, 0, 0), PointState::Unvisited);
    assert!(modified);
    assert_eq!(state, PointState::Visited);
    assert_eq!(core.neighbor_count, 1);
    assert_eq!(core.state, DbscanState::CountingNeighbors);

    let (core, _, _) = dbscan_step(core, pt(0, 3, 0), PointState::Unvisited);
    let (core, _, _) = dbscan_step(core, pt(4, 0, 0), PointState::Unvisited);
    assert_eq!(core.neighbor_count, 3);
    assert!(has_min_neighbors(core));
}

#[test]
fn dbscan_expand_clusters_when_within_threshold() {
    let eps_sq = 225;
    let current_cluster = 2;
    let test_point = pt(2, 2, 2);
    let ref_point = pt(4, 2, 2);
    let (new_state, modified) = dbscan_expand(
        eps_sq,
        current_cluster,
        test_point,
        PointState::Unvisited,
        ref_point,
        PointState::Clustered(current_cluster),
    );

    assert!(modified);
    assert_eq!(new_state, PointState::Clustered(current_cluster));
}

#[test]
fn segmentation_step_respects_mode() {
    let threshold_sq = 225;
    let eps_sq = 225;
    let min_pts = 3;
    let point = pt(1, 1, 1);

    let core = SegmentationCore::new_ece(threshold_sq, eps_sq, min_pts);
    let (_, state, modified) = segmentation_step(core, point, PointState::Unvisited);
    assert!(modified);
    assert!(matches!(state, PointState::Clustered(_)));

    let core = SegmentationCore::new_dbscan(threshold_sq, eps_sq, min_pts);
    let (_, state, modified) = segmentation_step(core, point, PointState::Unvisited);
    assert!(modified);
    assert_eq!(state, PointState::Visited);
}

#[test]
fn ece_flow_clusters_tiny_cloud() {
    let points = tiny_cloud();
    let summary = run_ece_flow(&points, 225, 8, 8);
    assert_eq!(summary, (3, 1, 0, 0));
}

#[test]
fn dbscan_flow_clusters_tiny_cloud() {
    let points = tiny_cloud();
    let summary = run_dbscan_flow(&points, 225, 3, 8, 8);
    assert_eq!(summary, (3, 1, 0, 0));
}
