//! The ECE driver: one cluster after another over a whole cloud.
use vstd::prelude::*;
use crate::point::{Point3D, PointState};
use crate::ece::{next_id, EceState};
use crate::segmentation::{SegmentationCore, SegmentationMode};
use crate::trace::{FlowEvent, FlowReport, is_seed_event, seed_recorded, lemma_seeds_kept};
use crate::growth::{
    open_point, linked_to, first_open, lemma_first_open, find_seed, grow_result, grow_cluster,
    count_state, cluster_size, noise_marked, mark_cluster_as_noise, all_unvisited,
};
use crate::run_laws::{
    clusters_closed, clusters_linked, run_laws, no_noise, lemma_formation_closes,
    lemma_noise_keeps_closed,
};
use crate::growth::lemma_linked_kept;

verus! {

/// What an ECE run yields from states `states`, with `count` clusters
/// opened so far and `cid` the id of the next one: the final states, the
/// trace from here on, the number of clusters opened, whether the run ran out
/// of seeds, and whether every growth from here on converged.
#[verifier::opaque]
pub open spec fn ece_run(
    points: Seq<Point3D>,
    threshold_sq: u32,
    max_clusters: int,
    max_passes: int,
    min_cluster_points: int,
    states: Seq<PointState>,
    cid: u8,
    count: int,
) -> (Seq<PointState>, Seq<FlowEvent>, int, bool, bool)
    decreases max_clusters - count,
{
    if count >= max_clusters {
        (states, Seq::empty(), count, false, true)
    } else {
        let f = first_open(points, states);
        if f < 0 {
            (states, seq![FlowEvent::NoMoreSeeds], count, true, true)
        } else {
            let s1 = states.update(f, PointState::Clustered(cid));
            let g = grow_result(threshold_sq, cid, points, s1, max_passes, 0);
            let s3 = if g.2 && count_state(g.0, PointState::Clustered(cid)) < min_cluster_points {
                noise_marked(g.0, cid)
            } else {
                g.0
            };
            let evs = seq![FlowEvent::SeedFound { ordinal: count as usize, cluster: cid, index: f as usize }]
                + g.1 + if g.2 {
                seq![FlowEvent::ClusterComplete { ordinal: count as usize }]
            } else {
                Seq::empty()
            };
            let rest = ece_run(
                points,
                threshold_sq,
                max_clusters,
                max_passes,
                min_cluster_points,
                s3,
                next_id(cid),
                count + 1,
            );
            (rest.0, evs + rest.1, rest.2, rest.3, g.2 && rest.4)
        }
    }
}

/// One step of `ece_run`, case by case.
proof fn lemma_ece_run_unfold(
    points: Seq<Point3D>,
    threshold_sq: u32,
    max_clusters: int,
    max_passes: int,
    min_cluster_points: int,
    states: Seq<PointState>,
    cid: u8,
    count: int,
)
    ensures
        count >= max_clusters ==> ece_run(
            points,
            threshold_sq,
            max_clusters,
            max_passes,
            min_cluster_points,
            states,
            cid,
            count,
        ) == (states, Seq::<FlowEvent>::empty(), count, false, true),
        count < max_clusters && first_open(points, states) < 0 ==> ece_run(
            points,
            threshold_sq,
            max_clusters,
            max_passes,
            min_cluster_points,
            states,
            cid,
            count,
        ) == (states, seq![FlowEvent::NoMoreSeeds], count, true, true),
        count < max_clusters && first_open(points, states) >= 0 ==> ({
            let f = first_open(points, states);
            let g = grow_result(
                threshold_sq,
                cid,
                points,
                states.update(f, PointState::Clustered(cid)),
                max_passes,
                0,
            );
            let s3 = if g.2 && count_state(g.0, PointState::Clustered(cid)) < min_cluster_points {
                noise_marked(g.0, cid)
            } else {
                g.0
            };
            let evs = seq![FlowEvent::SeedFound { ordinal: count as usize, cluster: cid, index: f as usize }]
                + g.1 + if g.2 {
                seq![FlowEvent::ClusterComplete { ordinal: count as usize }]
            } else {
                Seq::empty()
            };
            let rest = ece_run(
                points,
                threshold_sq,
                max_clusters,
                max_passes,
                min_cluster_points,
                s3,
                next_id(cid),
                count + 1,
            );
            ece_run(
                points,
                threshold_sq,
                max_clusters,
                max_passes,
                min_cluster_points,
                states,
                cid,
                count,
            ) == (rest.0, evs + rest.1, rest.2, rest.3, g.2 && rest.4)
        }),
{
    reveal(ece_run);
}

/// Opens an ECE cluster at seed `s`, already marked in `states`: grows it,
/// records the growth, and turns it into noise when its growth converged
/// with fewer than `min_cluster_points` points of its id. Returns whether
/// the growth converged.
fn ece_form_cluster(
    threshold_sq: u32,
    cluster: u8,
    points: &Vec<Point3D>,
    states: &mut Vec<PointState>,
    events: &mut Vec<FlowEvent>,
    s: usize,
    ordinal: usize,
    max_passes: usize,
    min_cluster_points: usize,
    converged: bool,
    Ghost(s0): Ghost<Seq<PointState>>,
) -> (quiet: bool)
    requires
        s < points.len(),
        open_point(points@, s0, s as int),
        old(states)@ == s0.update(s as int, PointState::Clustered(cluster)),
        run_laws(threshold_sq, points@, s0, old(events)@, converged),
        min_cluster_points == 0 ==> no_noise(s0),
    ensures
        ({
            let g = grow_result(threshold_sq, cluster, points@, old(states)@, max_passes as int, 0);
            let s3 = if g.2 && count_state(g.0, PointState::Clustered(cluster))
                < min_cluster_points {
                noise_marked(g.0, cluster)
            } else {
                g.0
            };
            let evs = seq![FlowEvent::SeedFound { ordinal, cluster, index: s }] + g.1 + if g.2 {
                seq![FlowEvent::ClusterComplete { ordinal }]
            } else {
                Seq::empty()
            };
            &&& final(states)@ == s3
            &&& final(events)@ == old(events)@ + evs
            &&& quiet == g.2
        }),
        run_laws(threshold_sq, points@, final(states)@, final(events)@, converged && quiet),
        min_cluster_points == 0 ==> no_noise(final(states)@),
{
    let n = points.len();
    let ghost e0 = events@;
    events.push(FlowEvent::SeedFound { ordinal, cluster, index: s });
    let ghost s1 = states@;
    let ghost e1 = events@;
    proof {
        assert(events@.subrange(0, e0.len() as int) =~= e0);
        assert(is_seed_event(e1[e1.len() - 1], s as int, cluster));
    }
    let quiet = grow_cluster(threshold_sq, cluster, points, states, max_passes, false, events);
    let ghost s2 = states@;
    let ghost e2 = events@;
    proof {
        lemma_seeds_kept(e0, e1);
        lemma_seeds_kept(e1, e2);
        assert(seed_recorded(e2, s as int, cluster)) by {
            assert(e2.subrange(0, e1.len() as int)[e1.len() - 1] == e2[e1.len() - 1]);
            assert(is_seed_event(e2[e1.len() - 1], s as int, cluster));
        }
        assert forall|k: int| 0 <= k < n implies #[trigger] s2[k] == s0[k] || (s0[k]
            == PointState::Unvisited && s2[k] == PointState::Clustered(cluster)) by {
            if k != s {
                assert(s1[k] == s0[k]);
            }
        }
        assert forall|i: int|
            0 <= i < n implies (#[trigger] s2[i] matches PointState::Clustered(c) ==> (
            seed_recorded(e2, i, c) || linked_to(threshold_sq, c, points@, s2, i))) by {
            if let PointState::Clustered(c) = s2[i] {
                if i != s && s2[i] == s1[i] {
                    assert(s1[i] == s0[i]);
                    if !seed_recorded(e0, i, c) {
                        assert(linked_to(threshold_sq, c, points@, s0, i));
                        assert forall|m: int|
                            0 <= m < s0.len() && s0[m] == PointState::Clustered(c) implies s2[m]
                            == s0[m] by {
                            if m != s {
                                assert(s1[m] == s0[m]);
                            }
                        }
                        lemma_linked_kept(threshold_sq, c, points@, s0, s2, i);
                    }
                }
            }
        }
        if converged && quiet {
            assert forall|k: int| 0 <= k < n implies #[trigger] s0[k] != PointState::Visited by {}
            lemma_formation_closes(threshold_sq, cluster, points@, s0, s2);
        }
    }
    if quiet {
        let ghost e_before = events@;
        events.push(FlowEvent::ClusterComplete { ordinal });
        proof {
            assert(events@.subrange(0, e2.len() as int) =~= e2);
            lemma_seeds_kept(e2, events@);
        }
        let size = cluster_size(states, cluster);
        if size < min_cluster_points {
            mark_cluster_as_noise(states, cluster);
            proof {
                let s3 = states@;
                if converged {
                    lemma_noise_keeps_closed(threshold_sq, cluster, points@, s2, s3);
                }
                assert forall|i: int|
                    0 <= i < n implies (#[trigger] s3[i] matches PointState::Clustered(c) ==> (
                    seed_recorded(events@, i, c) || linked_to(threshold_sq, c, points@, s3, i))) by {
                    if let PointState::Clustered(c) = s3[i] {
                        assert(s2[i] == s3[i]);
                        if !seed_recorded(events@, i, c) {
                            assert(linked_to(threshold_sq, c, points@, s2, i));
                            assert forall|m: int|
                                0 <= m < s2.len() && s2[m] == PointState::Clustered(c) implies s3[m]
                                == s2[m] by {}
                            lemma_linked_kept(threshold_sq, c, points@, s2, s3, i);
                        }
                    }
                }
            }
        }
        proof {
            assert(events@ =~= e0 + (seq![FlowEvent::SeedFound { ordinal, cluster, index: s }] + (
            e2.subrange(e1.len() as int, e2.len() as int)) + seq![
                FlowEvent::ClusterComplete { ordinal },
            ]));
            assert(e2 =~= e1 + e2.subrange(e1.len() as int, e2.len() as int));
        }
    } else {
        proof {
            assert(e2 =~= e1 + e2.subrange(e1.len() as int, e2.len() as int));
            assert(events@ =~= e0 + (seq![FlowEvent::SeedFound { ordinal, cluster, index: s }] + (
            e2.subrange(e1.len() as int, e2.len() as int)) + Seq::<FlowEvent>::empty()));
        }
    }
    quiet
}

/// Euclidean Cluster Extraction over a whole cloud.
///
/// Up to `max_clusters` times: the wrapper, in ECE mode, takes the first
/// valid unvisited point as a seed (when there is none the run stops), then
/// the cluster grows by up to `max_passes` expansion passes with
/// `ece_expand`. When the growth ends in a pass that added nothing and the
/// cluster's id then counts fewer than `min_cluster_points` points, those
/// points become noise. The controller then moves to the next cluster id.
///
/// The trace records each seed, each pass and each completed cluster.
pub fn ece_flow(
    points: &Vec<Point3D>,
    threshold_sq: u32,
    max_clusters: usize,
    max_passes: usize,
    min_cluster_points: usize,
) -> (report: FlowReport)
    ensures
        ({
            let r = ece_run(
                points@,
                threshold_sq,
                max_clusters as int,
                max_passes as int,
                min_cluster_points as int,
                all_unvisited(points.len() as nat),
                0,
                0,
            );
            &&& report.states@ == r.0
            &&& report.events@ == r.1
            &&& report.clusters == r.2
            &&& report.exhausted == r.3
            &&& report.converged == r.4
        }),
        report.states.len() == points.len(),
        report.clusters <= max_clusters,
        report.exhausted || report.clusters == max_clusters,
        forall|i: int|
            0 <= i < points.len() && !points@[i].valid ==> #[trigger] report.states@[i]
                == PointState::Unvisited,
        forall|i: int|
            0 <= i < points.len() ==> #[trigger] report.states@[i] != PointState::Visited,
        min_cluster_points == 0 ==> forall|i: int|
            0 <= i < points.len() ==> #[trigger] report.states@[i] != PointState::Noise,
        clusters_linked(threshold_sq, points@, report.states@, report.events@),
        report.converged ==> clusters_closed(threshold_sq, points@, report.states@),
        report.exhausted ==> forall|i: int|
            0 <= i < points.len() && points@[i].valid ==> #[trigger] report.states@[i]
                != PointState::Unvisited,
{
    let n = points.len();
    let mut core = SegmentationCore::new_ece(threshold_sq, 0, 0);
    let mut states: Vec<PointState> = Vec::new();
    let mut k: usize = 0;
    while k < n
        invariant
            n == points.len(),
            0 <= k <= n,
            states.len() == k,
            forall|m: int| 0 <= m < k ==> #[trigger] states@[m] == PointState::Unvisited,
        decreases n - k,
    {
        states.push(PointState::Unvisited);
        k += 1;
    }
    let mut events: Vec<FlowEvent> = Vec::new();
    let mut cluster_count: usize = 0;
    let mut exhausted = false;
    let mut converged = true;
    let ghost r0 = ece_run(
        points@,
        threshold_sq,
        max_clusters as int,
        max_passes as int,
        min_cluster_points as int,
        all_unvisited(n as nat),
        0,
        0,
    );
    assert(states@ =~= all_unvisited(n as nat));
    assert(events@ + r0.1 =~= r0.1);
    while cluster_count < max_clusters && !exhausted
        invariant
            n == points.len(),
            states.len() == n,
            cluster_count <= max_clusters,
            r0 == ece_run(
                points@,
                threshold_sq,
                max_clusters as int,
                max_passes as int,
                min_cluster_points as int,
                all_unvisited(n as nat),
                0,
                0,
            ),
            !exhausted ==> ({
                let r = ece_run(
                    points@,
                    threshold_sq,
                    max_clusters as int,
                    max_passes as int,
                    min_cluster_points as int,
                    states@,
                    core.ece_core.current_cluster,
                    cluster_count as int,
                );
                &&& r0.0 == r.0
                &&& r0.1 == events@ + r.1
                &&& r0.2 == r.2
                &&& r0.3 == r.3
                &&& r0.4 == (converged && r.4)
            }),
            exhausted ==> r0 == (states@, events@, cluster_count as int, true, converged),
            core.mode == SegmentationMode::Ece,
            core.ece_core.state == EceState::Idle,
            core.ece_core.threshold_sq == threshold_sq,
            run_laws(threshold_sq, points@, states@, events@, converged),
            min_cluster_points == 0 ==> no_noise(states@),
            exhausted ==> forall|i: int|
                0 <= i < n && points@[i].valid ==> #[trigger] states@[i] != PointState::Unvisited,
        decreases max_clusters - cluster_count, if exhausted {
            0int
        } else {
            1int
        },
    {
        let ghost s0 = states@;
        let ghost e0 = events@;
        let ghost cid = core.ece_core.current_cluster;
        proof {
            lemma_ece_run_unfold(
                points@,
                threshold_sq,
                max_clusters as int,
                max_passes as int,
                min_cluster_points as int,
                s0,
                cid,
                cluster_count as int,
            );
        }
        let (seed_core, seed) = find_seed(core, points, &mut states);
        match seed {
            None => {
                exhausted = true;
                events.push(FlowEvent::NoMoreSeeds);
                proof {
                    lemma_first_open(points@, s0, -1);
                    assert(events@ =~= e0 + seq![FlowEvent::NoMoreSeeds]);
                    assert(events@.subrange(0, e0.len() as int) =~= e0);
                    lemma_seeds_kept(e0, events@);
                    assert forall|i: int|
                        0 <= i < n implies (#[trigger] states@[i] matches PointState::Clustered(c)
                        ==> (seed_recorded(events@, i, c) || linked_to(
                        threshold_sq,
                        c,
                        points@,
                        states@,
                        i,
                    ))) by {}
                    assert forall|i: int| 0 <= i < n && points@[i].valid implies #[trigger] states@[i]
                        != PointState::Unvisited by {
                        assert(!open_point(points@, s0, i));
                    }
                }
            },
            Some(s) => {
                proof {
                    lemma_first_open(points@, s0, s as int);
                }
                core = seed_core;
                let cluster = core.ece_core.current_cluster;
                let quiet = ece_form_cluster(
                    threshold_sq,
                    cluster,
                    points,
                    &mut states,
                    &mut events,
                    s,
                    cluster_count,
                    max_passes,
                    min_cluster_points,
                    converged,
                    Ghost(s0),
                );
                if !quiet {
                    converged = false;
                }
                core.ece_core = core.ece_core.next_cluster();
                cluster_count += 1;
                proof {
                    let g = grow_result(
                        threshold_sq,
                        cid,
                        points@,
                        s0.update(s as int, PointState::Clustered(cid)),
                        max_passes as int,
                        0,
                    );
                    let evs = seq![FlowEvent::SeedFound { ordinal: (cluster_count - 1) as usize, cluster: cid, index: s }]
                        + g.1 + if g.2 {
                        seq![FlowEvent::ClusterComplete { ordinal: (cluster_count - 1) as usize }]
                    } else {
                        Seq::empty()
                    };
                    let rest = ece_run(
                        points@,
                        threshold_sq,
                        max_clusters as int,
                        max_passes as int,
                        min_cluster_points as int,
                        states@,
                        core.ece_core.current_cluster,
                        cluster_count as int,
                    );
                    assert(e0 + (evs + rest.1) =~= events@ + rest.1);
                }
            },
        }
    }
    proof {
        if !exhausted {
            lemma_ece_run_unfold(
                points@,
                threshold_sq,
                max_clusters as int,
                max_passes as int,
                min_cluster_points as int,
                states@,
                core.ece_core.current_cluster,
                cluster_count as int,
            );
            assert(events@ + Seq::<FlowEvent>::empty() =~= events@);
        }
    }
    FlowReport { states, events, clusters: cluster_count, exhausted, converged }
}

} // verus!
