use lidar_clustering_hdl::{
    dbscan_expand, dbscan_step, distance_squared, ece_expand, ece_step, has_min_neighbors,
    is_within_threshold, mark_seed_as_noise, process_point, segmentation_step, start_expanding,
    ClusteringCore, ClusteringState, DbscanCore, DbscanState, EceCore, EceState, Point3D,
    PointState, SegmentationCore, SegmentationMode,
};

fn pt(x: u16, y: u16, z: u16) -> Point3D {
    Point3D::new(x, y, z)
}

#[test]
fn distance_wraps_modulo_two_to_the_32() {
    let far = pt(65535, 65535, 65535);
    let origin = pt(0, 0, 0);
    // 3 * 65535^2 = 12884508675, reduced modulo 2^32
    assert_eq!(distance_squared(far, origin), 4294574083);
    assert_eq!(distance_squared(pt(65535, 0, 0), origin), 4294836225);
}

#[test]
fn distance_is_symmetric_and_zero_on_self() {
    let pts = [pt(10, 20, 30), pt(4, 6, 9), pt(65535, 1, 7), pt(0, 0, 0), pt(300, 2, 65000)];
    for a in pts.iter() {
        assert_eq!(distance_squared(*a, *a), 0);
        for b in pts.iter() {
            assert_eq!(distance_squared(*a, *b), distance_squared(*b, *a));
        }
    }
}

#[test]
fn threshold_is_inclusive() {
    assert!(is_within_threshold(225, 225));
    assert!(is_within_threshold(0, 0));
    assert!(!is_within_threshold(226, 225));
}

#[test]
fn invalid_and_default_points() {
    let p = Point3D::invalid();
    assert_eq!(p, Point3D { x: 0, y: 0, z: 0, valid: false });
    assert_eq!(Point3D::default(), p);
    assert_eq!(PointState::default(), PointState::Unvisited);
    assert!(pt(1, 2, 3).valid);
    assert_eq!(EceState::default(), EceState::Idle);
    assert_eq!(DbscanState::default(), DbscanState::Idle);
    assert_eq!(ClusteringState::default(), ClusteringState::Idle);
    assert_eq!(SegmentationMode::default(), SegmentationMode::Ece);
}

#[test]
fn ece_next_cluster_wraps_and_resets() {
    let mut core = EceCore::new(99);
    core.current_cluster = 255;
    core.state = EceState::Growing;
    core.seed_point = pt(1, 1, 1);
    let next = core.next_cluster();
    assert_eq!(next.current_cluster, 0);
    assert_eq!(next.threshold_sq, 99);
    assert_eq!(next.state, EceState::Idle);
    assert_eq!(next.seed_point, Point3D::invalid());
}

#[test]
fn ece_step_ignores_what_it_may_not_take() {
    let core = EceCore::new(225);
    let invalid = Point3D::invalid();
    assert_eq!(ece_step(core, invalid, PointState::Unvisited), (core, PointState::Unvisited, false));
    assert_eq!(
        ece_step(core, pt(1, 1, 1), PointState::Noise),
        (core, PointState::Noise, false)
    );
    let (growing, _, _) = ece_step(core, pt(1, 1, 1), PointState::Unvisited);
    assert_eq!(growing.seed_point, pt(1, 1, 1));
    assert_eq!(
        ece_step(growing, pt(2, 2, 2), PointState::Unvisited),
        (growing, PointState::Unvisited, false)
    );
}

#[test]
fn expansion_refuses_every_failed_condition() {
    let t = pt(5, 5, 5);
    let r = pt(8, 5, 5);
    let u = PointState::Unvisited;
    let c1 = PointState::Clustered(1);
    // reference in another cluster
    assert_eq!(ece_expand(225, 1, t, u, r, PointState::Clustered(2)), (u, false));
    // beyond the threshold: distance 9
    assert_eq!(ece_expand(8, 1, t, u, r, c1), (u, false));
    assert_eq!(ece_expand(9, 1, t, u, r, c1), (c1, true));
    // test point already taken
    assert_eq!(ece_expand(225, 1, t, PointState::Noise, r, c1), (PointState::Noise, false));
    // invalid reference or test point
    assert_eq!(ece_expand(225, 1, t, u, Point3D::invalid(), c1), (u, false));
    assert_eq!(dbscan_expand(225, 1, Point3D::invalid(), u, r, c1), (u, false));
    assert_eq!(dbscan_expand(225, 1, t, u, r, PointState::Visited), (u, false));
    assert_eq!(dbscan_expand(9, 1, t, u, r, c1), (c1, true));
}

#[test]
fn dbscan_counting_skips_seed_copies_and_invalid_points() {
    let core = DbscanCore::new(225, 3);
    let (core, _, _) = dbscan_step(core, pt(0, 0, 0), PointState::Unvisited);
    // a point equal to the seed is not counted
    let (core, s, m) = dbscan_step(core, pt(0, 0, 0), PointState::Unvisited);
    assert_eq!((s, m), (PointState::Unvisited, false));
    assert_eq!(core.neighbor_count, 1);
    let (core, _, _) = dbscan_step(core, Point3D::invalid(), PointState::Unvisited);
    assert_eq!(core.neighbor_count, 1);
    // too far: 16^2 = 256 > 225
    let (core, _, _) = dbscan_step(core, pt(16, 0, 0), PointState::Unvisited);
    assert_eq!(core.neighbor_count, 1);
    // counted whatever its state
    let (core, s, _) = dbscan_step(core, pt(15, 0, 0), PointState::Noise);
    assert_eq!(s, PointState::Noise);
    assert_eq!(core.neighbor_count, 2);
    assert!(!has_min_neighbors(core));
}

#[test]
fn dbscan_counter_wraps_at_256() {
    let mut core = DbscanCore::new(225, 3);
    core.state = DbscanState::CountingNeighbors;
    core.seed_point = pt(0, 0, 0);
    core.neighbor_count = 255;
    let (core, _, _) = dbscan_step(core, pt(1, 0, 0), PointState::Unvisited);
    assert_eq!(core.neighbor_count, 0);
}

#[test]
fn dbscan_phase_changes_keep_registers() {
    let mut core = DbscanCore::new(100, 4);
    core.current_cluster = 7;
    core.state = DbscanState::CountingNeighbors;
    core.seed_point = pt(3, 3, 3);
    core.neighbor_count = 9;
    let e = start_expanding(core);
    assert_eq!(e.state, DbscanState::Expanding);
    assert_eq!((e.epsilon_sq, e.min_pts, e.current_cluster, e.seed_point, e.neighbor_count), (100, 4, 7, pt(3, 3, 3), 9));
    // an expanding controller ignores points
    assert_eq!(dbscan_step(e, pt(3, 3, 4), PointState::Unvisited), (e, PointState::Unvisited, false));
    let n = mark_seed_as_noise(core);
    assert_eq!(n.state, DbscanState::Idle);
    assert_eq!((n.epsilon_sq, n.min_pts, n.current_cluster, n.neighbor_count), (100, 4, 7, 0));
    assert_eq!(n.seed_point, Point3D::invalid());
    let next = e.next_cluster();
    assert_eq!((next.current_cluster, next.neighbor_count, next.state), (8, 0, DbscanState::Idle));
    assert_eq!((next.epsilon_sq, next.min_pts), (100, 4));
}

#[test]
fn region_grower_compares_with_its_seed() {
    let core = ClusteringCore::new(225);
    assert_eq!(core.current_cluster_id, 0);
    let (core, s, m) = process_point(core, pt(0, 0, 0), PointState::Unvisited);
    assert_eq!((s, m), (PointState::Clustered(0), true));
    assert_eq!(core.state, ClusteringState::GrowingRegion);
    assert_eq!(core.seed_point, pt(0, 0, 0));
    let (core, s, m) = process_point(core, pt(15, 0, 0), PointState::Unvisited);
    assert_eq!((s, m), (PointState::Clustered(0), true));
    let (core, s, m) = process_point(core, pt(16, 0, 0), PointState::Unvisited);
    assert_eq!((s, m), (PointState::Unvisited, false));
    let (core, s, m) = process_point(core, pt(1, 0, 0), PointState::Visited);
    assert_eq!((s, m), (PointState::Visited, false));
    let next = core.next_cluster();
    assert_eq!((next.current_cluster_id, next.state), (1, ClusteringState::Idle));
    assert_eq!(next.seed_point, Point3D::invalid());
}

#[test]
fn segmentation_leaves_the_other_controller_alone() {
    let core = SegmentationCore::new_ece(225, 100, 3);
    let (after, _, _) = segmentation_step(core, pt(1, 1, 1), PointState::Unvisited);
    assert_eq!(after.mode, SegmentationMode::Ece);
    assert_eq!(after.dbscan_core, core.dbscan_core);
    assert_eq!(after.ece_core.state, EceState::Growing);

    let core = SegmentationCore::new_dbscan(225, 100, 3);
    let (after, _, _) = segmentation_step(core, pt(1, 1, 1), PointState::Unvisited);
    assert_eq!(after.mode, SegmentationMode::Dbscan);
    assert_eq!(after.ece_core, core.ece_core);
    assert_eq!(after.dbscan_core.state, DbscanState::CountingNeighbors);
    assert_eq!(after.dbscan_core.epsilon_sq, 100);
    assert_eq!(after.ece_core.threshold_sq, 225);
}
