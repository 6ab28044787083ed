use lidar_clustering_hdl::{
    cluster_summary, dbscan_flow, distance_squared, ece_flow, generate_test_data,
    summarize_states, FlowEvent, Point3D, PointState,
};

fn pt(x: u16, y: u16, z: u16) -> Point3D {
    Point3D::new(x, y, z)
}

#[test]
fn generated_cloud_has_three_grids_and_three_outliers() {
    let points = generate_test_data();
    assert_eq!(points.len(), 48);
    assert_eq!(points[0], pt(20, 20, 20));
    assert_eq!(points[6], pt(24, 24, 20));
    assert_eq!(points[14], pt(36, 28, 20));
    assert_eq!(points[15], pt(100, 100, 50));
    assert_eq!(points[32], pt(120, 108, 50));
    assert_eq!(points[33], pt(200, 50, 100));
    assert_eq!(points[44], pt(209, 56, 100));
    assert_eq!(points[45], pt(500, 500, 500));
    assert_eq!(points[46], pt(50, 300, 200));
    assert_eq!(points[47], pt(400, 20, 300));
    assert!(points.iter().all(|p| p.valid));
}

#[test]
fn ece_demo_run_on_generated_cloud() {
    let points = generate_test_data();
    let report = ece_flow(&points, 225, 10, 20, 0);
    assert_eq!(report.clusters, 6);
    assert!(report.exhausted);
    assert!(report.converged);
    let expected = vec![
        FlowEvent::SeedFound { ordinal: 0, cluster: 0, index: 0 },
        FlowEvent::Pass { pass: 0, added: 14 },
        FlowEvent::Pass { pass: 1, added: 0 },
        FlowEvent::ClusterComplete { ordinal: 0 },
        FlowEvent::SeedFound { ordinal: 1, cluster: 1, index: 15 },
        FlowEvent::Pass { pass: 0, added: 17 },
        FlowEvent::Pass { pass: 1, added: 0 },
        FlowEvent::ClusterComplete { ordinal: 1 },
        FlowEvent::SeedFound { ordinal: 2, cluster: 2, index: 33 },
        FlowEvent::Pass { pass: 0, added: 11 },
        FlowEvent::Pass { pass: 1, added: 0 },
        FlowEvent::ClusterComplete { ordinal: 2 },
        FlowEvent::SeedFound { ordinal: 3, cluster: 3, index: 45 },
        FlowEvent::Pass { pass: 0, added: 0 },
        FlowEvent::ClusterComplete { ordinal: 3 },
        FlowEvent::SeedFound { ordinal: 4, cluster: 4, index: 46 },
        FlowEvent::Pass { pass: 0, added: 0 },
        FlowEvent::ClusterComplete { ordinal: 4 },
        FlowEvent::SeedFound { ordinal: 5, cluster: 5, index: 47 },
        FlowEvent::Pass { pass: 0, added: 0 },
        FlowEvent::ClusterComplete { ordinal: 5 },
        FlowEvent::NoMoreSeeds,
    ];
    assert_eq!(report.events, expected);
    let summary = cluster_summary(&points, &report.states);
    assert_eq!(summary.sizes, vec![(0, 15), (1, 18), (2, 12), (3, 1), (4, 1), (5, 1)]);
    assert_eq!((summary.noise, summary.unvisited, summary.visited), (0, 0, 0));
}

#[test]
fn dbscan_demo_run_on_generated_cloud() {
    let points = generate_test_data();
    let report = dbscan_flow(&points, 225, 3, 10, 20);
    assert_eq!(report.clusters, 3);
    assert!(report.exhausted);
    assert!(report.converged);
    let expected = vec![
        FlowEvent::SeedIsCore { ordinal: 0, cluster: 0, index: 0, neighbors: 12 },
        FlowEvent::Pass { pass: 0, added: 14 },
        FlowEvent::Pass { pass: 1, added: 0 },
        FlowEvent::ClusterComplete { ordinal: 0 },
        FlowEvent::SeedIsCore { ordinal: 1, cluster: 1, index: 15, neighbors: 12 },
        FlowEvent::Pass { pass: 0, added: 17 },
        FlowEvent::Pass { pass: 1, added: 0 },
        FlowEvent::ClusterComplete { ordinal: 1 },
        FlowEvent::SeedIsCore { ordinal: 2, cluster: 2, index: 33, neighbors: 12 },
        FlowEvent::Pass { pass: 0, added: 11 },
        FlowEvent::Pass { pass: 1, added: 0 },
        FlowEvent::ClusterComplete { ordinal: 2 },
        FlowEvent::SeedIsNoise { index: 45, neighbors: 1 },
        FlowEvent::SeedIsNoise { index: 46, neighbors: 1 },
        FlowEvent::SeedIsNoise { index: 47, neighbors: 1 },
        FlowEvent::NoMoreSeeds,
    ];
    assert_eq!(report.events, expected);
    assert_eq!(summarize_states(&report.states), (45, 3, 0, 0));
    let summary = cluster_summary(&points, &report.states);
    assert_eq!(summary.sizes, vec![(0, 15), (1, 18), (2, 12)]);
    assert_eq!((summary.noise, summary.unvisited, summary.visited), (3, 0, 0));
}

fn check_closed_and_linked(points: &[Point3D], states: &[PointState], events: &[FlowEvent], r: u32) {
    for i in 0..points.len() {
        if let PointState::Clustered(c) = states[i] {
            // closed: every valid neighbour is in the same cluster or noise
            for j in 0..points.len() {
                if i != j && points[j].valid && distance_squared(points[i], points[j]) <= r {
                    assert!(states[j] == states[i] || states[j] == PointState::Noise);
                }
            }
            // linked: a recorded seed, or reached from another member
            let seed = events.iter().any(|e| match e {
                FlowEvent::SeedFound { cluster, index, .. } => *cluster == c && *index == i,
                FlowEvent::SeedIsCore { cluster, index, .. } => *cluster == c && *index == i,
                _ => false,
            });
            let reached = (0..points.len()).any(|j| {
                j != i
                    && points[j].valid
                    && states[j] == states[i]
                    && distance_squared(points[i], points[j]) <= r
            });
            assert!(seed || reached);
        }
    }
}

#[test]
fn clusters_are_closed_and_linked_after_both_runs() {
    let mut points = generate_test_data();
    // a chain bridging the first grid towards the outliers, and a gap point
    points.push(pt(50, 28, 20));
    points.push(pt(64, 28, 20));
    points.push(Point3D::invalid());
    let ece = ece_flow(&points, 225, 20, 20, 0);
    assert!(ece.converged && ece.exhausted);
    check_closed_and_linked(&points, &ece.states, &ece.events, 225);
    let db = dbscan_flow(&points, 225, 3, 20, 20);
    assert!(db.converged && db.exhausted);
    check_closed_and_linked(&points, &db.states, &db.events, 225);
    // the chain joined the first cluster in both runs
    assert_eq!(ece.states[48], PointState::Clustered(0));
    assert_eq!(ece.states[49], PointState::Clustered(0));
    assert_eq!(db.states[49], PointState::Clustered(0));
    // the invalid slot is never touched
    assert_eq!(ece.states[50], PointState::Unvisited);
    assert_eq!(db.states[50], PointState::Unvisited);
}

#[test]
fn cluster_budget_stops_the_run() {
    let points = generate_test_data();
    let report = ece_flow(&points, 225, 2, 20, 0);
    assert_eq!(report.clusters, 2);
    assert!(!report.exhausted);
    assert_eq!(summarize_states(&report.states), (33, 0, 0, 15));
    let report = dbscan_flow(&points, 225, 3, 0, 20);
    assert_eq!(report.clusters, 0);
    assert!(report.events.is_empty());
}

#[test]
fn pass_budget_leaves_clusters_unconverged() {
    let points = vec![pt(0, 0, 0), pt(10, 0, 0), pt(20, 0, 0), pt(30, 0, 0)];
    // point 3 is reached only from point 2, itself reached in the same pass
    let report = ece_flow(&points, 100, 4, 1, 0);
    assert!(!report.converged);
    assert_eq!(report.clusters, 1);
    assert_eq!(summarize_states(&report.states), (4, 0, 0, 0));
    // with no pass at all every point seeds its own cluster
    let report = ece_flow(&points, 100, 4, 0, 0);
    assert!(!report.converged);
    assert_eq!(report.clusters, 4);
    assert_eq!(report.states[1], PointState::Clustered(1));
    assert_eq!(report.states[3], PointState::Clustered(3));
}

#[test]
fn small_ece_clusters_become_noise() {
    let points = generate_test_data();
    let report = ece_flow(&points, 225, 10, 20, 13);
    // the grid of 12 points and the three outliers are too small
    assert_eq!(summarize_states(&report.states), (33, 15, 0, 0));
    assert_eq!(report.states[33], PointState::Noise);
    assert_eq!(report.states[0], PointState::Clustered(0));
}

#[test]
fn dbscan_rejected_seeds_do_not_use_up_cluster_ids() {
    let points = generate_test_data();
    let report = dbscan_flow(&points, 225, 13, 10, 20);
    assert_eq!(report.clusters, 2);
    assert!(report.exhausted);
    assert_eq!(summarize_states(&report.states), (31, 17, 0, 0));
    assert_eq!(report.events[0], FlowEvent::SeedIsNoise { index: 0, neighbors: 12 });
    assert_eq!(
        report.events[1],
        FlowEvent::SeedIsCore { ordinal: 0, cluster: 0, index: 1, neighbors: 15 }
    );
    // a rejected seed stays noise even though it lies inside a cluster
    assert_eq!(report.states[0], PointState::Noise);
    assert_eq!(report.states[5], PointState::Clustered(0));
}

#[test]
fn dbscan_min_pts_above_every_count_makes_all_noise() {
    let points = generate_test_data();
    let report = dbscan_flow(&points, 225, 19, 10, 20);
    assert_eq!(report.clusters, 0);
    assert!(report.exhausted);
    assert_eq!(summarize_states(&report.states), (0, 48, 0, 0));
}

#[test]
fn ece_cluster_ids_wrap_after_256_clusters() {
    let mut points = Vec::new();
    for i in 0..260u16 {
        points.push(pt(i * 100, 0, 0));
    }
    let report = ece_flow(&points, 225, 300, 4, 0);
    assert_eq!(report.clusters, 260);
    assert!(report.exhausted);
    assert_eq!(report.states[255], PointState::Clustered(255));
    assert_eq!(report.states[256], PointState::Clustered(0));
    assert_eq!(report.states[259], PointState::Clustered(3));
}

#[test]
fn summary_skips_invalid_points() {
    let points = vec![pt(0, 0, 0), Point3D::invalid(), pt(1, 1, 1), pt(2, 2, 2)];
    let states = vec![
        PointState::Clustered(4),
        PointState::Clustered(4),
        PointState::Visited,
        PointState::Clustered(1),
    ];
    let summary = cluster_summary(&points, &states);
    assert_eq!(summary.sizes, vec![(1, 1), (4, 1)]);
    assert_eq!((summary.noise, summary.unvisited, summary.visited), (0, 0, 1));
    assert_eq!(summarize_states(&states), (3, 0, 1, 0));
}

#[test]
fn summary_counts_only_points_with_a_state() {
    let points = vec![pt(0, 0, 0), pt(1, 1, 1), pt(2, 2, 2), pt(3, 3, 3)];
    let states = vec![PointState::Clustered(2), PointState::Noise];
    let summary = cluster_summary(&points, &states);
    assert_eq!(summary.sizes, vec![(2, 1)]);
    assert_eq!((summary.noise, summary.unvisited, summary.visited), (1, 0, 0));
    let none = cluster_summary(&points, &Vec::new());
    assert!(none.sizes.is_empty());
    assert_eq!((none.noise, none.unvisited, none.visited), (0, 0, 0));
}
