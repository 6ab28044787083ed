//! The DBSCAN driver: seeds are counted, rejected or accepted, and accepted
//! seeds grow into clusters, over a whole cloud.
use vstd::prelude::*;
use crate::point::{Point3D, PointState};
use crate::distance::distance_sq;
use crate::ece::next_id;
use crate::dbscan::{DbscanState, DbscanCore, has_min_neighbors, start_expanding, mark_seed_as_noise};
use crate::segmentation::{SegmentationCore, SegmentationMode, segmentation_step};
use crate::trace::{FlowEvent, FlowReport, is_seed_event, seed_recorded, lemma_seeds_kept, extends, noise_recorded};
use crate::growth::{
    open_point, linked_to, first_open, lemma_first_open, lemma_first_open_is_open, find_seed,
    grow_result, grow_cluster, count_state, lemma_count_state_update, all_unvisited,
    lemma_linked_kept,
};
use crate::run_laws::{
    clusters_closed, clusters_linked, run_laws, lemma_formation_closes,
    lemma_noise_seed_keeps_closed,
};
use vstd::arithmetic::div_mod::lemma_add_mod_noop;

verus! {

/// Among the points with index below `k`, how many the DBSCAN controller
/// counts as neighbours of seed `s`: valid points other than the seed
/// itself, different from the seed point, within `eps_sq` of it.
pub open spec fn neighbors_below(points: Seq<Point3D>, s: int, eps_sq: u32, k: int) -> nat
    decreases k,
{
    if k <= 0 {
        0
    } else {
        neighbors_below(points, s, eps_sq, k - 1) + if k - 1 != s && points[k - 1].valid
            && points[k - 1] != points[s] && distance_sq(points[s], points[k - 1]) <= eps_sq {
            1nat
        } else {
            0nat
        }
    }
}

/// The neighbour count that the 8-bit counter holds for seed `s`: the seed
/// itself plus its neighbours, modulo 256.
pub open spec fn neighbor_count_of(points: Seq<Point3D>, s: int, eps_sq: u32) -> u8 {
    ((1 + neighbors_below(points, s, eps_sq, points.len() as int)) % 256) as u8
}

/// Shows every valid point other than the seed to a counting wrapper, in
/// index order, so that its DBSCAN controller counts the seed's neighbours.
fn count_neighbors(
    core: SegmentationCore,
    points: &Vec<Point3D>,
    states: &Vec<PointState>,
    seed: usize,
) -> (c: SegmentationCore)
    requires
        states.len() == points.len(),
        seed < points.len(),
        core.mode == SegmentationMode::Dbscan,
        core.dbscan_core.state == DbscanState::CountingNeighbors,
        core.dbscan_core.seed_point == points@[seed as int],
        core.dbscan_core.neighbor_count == 1,
    ensures
        c == (SegmentationCore {
            dbscan_core: DbscanCore {
                neighbor_count: neighbor_count_of(points@, seed as int, core.dbscan_core.epsilon_sq),
                ..core.dbscan_core
            },
            ..core
        }),
{
    let n = points.len();
    let mut c = core;
    let mut i: usize = 0;
    let ghost eps = core.dbscan_core.epsilon_sq;
    while i < n
        invariant
            n == points.len(),
            states.len() == n,
            seed < n,
            0 <= i <= n,
            c == (SegmentationCore {
                dbscan_core: DbscanCore {
                    neighbor_count: ((1 + neighbors_below(points@, seed as int, eps, i as int))
                        % 256) as u8,
                    ..core.dbscan_core
                },
                ..core
            }),
            eps == core.dbscan_core.epsilon_sq,
            core.mode == SegmentationMode::Dbscan,
            core.dbscan_core.state == DbscanState::CountingNeighbors,
            core.dbscan_core.seed_point == points@[seed as int],
        decreases n - i,
    {
        let ghost nb = neighbors_below(points@, seed as int, eps, i as int);
        if i == seed || !points[i].valid {
            i += 1;
            continue;
        }
        let (new_core, _, _) = segmentation_step(c, points[i], states[i]);
        proof {
            lemma_add_mod_noop(1 + nb as int, 1, 256);
        }
        c = new_core;
        i += 1;
    }
    c
}

/// Every recorded DBSCAN seed decision matches the seed's neighbour count:
/// accepted seeds had at least `min_pts`, rejected ones fewer.
pub open spec fn seed_decisions_sound(
    points: Seq<Point3D>,
    eps_sq: u32,
    min_pts: u8,
    events: Seq<FlowEvent>,
) -> bool {
    forall|k: int|
        0 <= k < events.len() ==> match #[trigger] events[k] {
            FlowEvent::SeedIsCore { index, neighbors, .. } => index < points.len() && neighbors
                == neighbor_count_of(points, index as int, eps_sq) && neighbors >= min_pts,
            FlowEvent::SeedIsNoise { index, neighbors } => index < points.len() && neighbors
                == neighbor_count_of(points, index as int, eps_sq) && neighbors < min_pts,
            _ => true,
        }
}

/// What a DBSCAN run yields from states `states`, with `count` clusters
/// opened so far and `cid` the id of the next one: the final states, the
/// trace from here on, the number of clusters opened, whether the run ran out
/// of seeds, and whether every growth from here on converged.
#[verifier::opaque]
pub open spec fn dbscan_run(
    points: Seq<Point3D>,
    eps_sq: u32,
    min_pts: u8,
    max_clusters: int,
    max_passes: int,
    states: Seq<PointState>,
    cid: u8,
    count: int,
) -> (Seq<PointState>, Seq<FlowEvent>, int, bool, bool)
    decreases max_clusters - count, count_state(states, PointState::Unvisited),
{
    if count >= max_clusters {
        (states, Seq::empty(), count, false, true)
    } else {
        let f = first_open(points, states);
        if f < 0 || f >= states.len() {
            (states, seq![FlowEvent::NoMoreSeeds], count, true, true)
        } else {
            let nb = neighbor_count_of(points, f, eps_sq);
            if nb < min_pts {
                let s1 = states.update(f, PointState::Noise);
                proof {
                    lemma_first_open_is_open(points, states);
                    lemma_count_state_update(states, f, PointState::Noise, PointState::Unvisited);
                }
                let rest = dbscan_run(
                    points,
                    eps_sq,
                    min_pts,
                    max_clusters,
                    max_passes,
                    s1,
                    cid,
                    count,
                );
                (
                    rest.0,
                    seq![FlowEvent::SeedIsNoise { index: f as usize, neighbors: nb }] + rest.1,
                    rest.2,
                    rest.3,
                    rest.4,
                )
            } else {
                let s1 = states.update(f, PointState::Clustered(cid));
                let g = grow_result(eps_sq, cid, points, s1, max_passes, 0);
                let evs = seq![
                    FlowEvent::SeedIsCore {
                        ordinal: count as usize,
                        cluster: cid,
                        index: f as usize,
                        neighbors: nb,
                    },
                ] + g.1 + if g.2 {
                    seq![FlowEvent::ClusterComplete { ordinal: count as usize }]
                } else {
                    Seq::empty()
                };
                let rest = dbscan_run(
                    points,
                    eps_sq,
                    min_pts,
                    max_clusters,
                    max_passes,
                    g.0,
                    next_id(cid),
                    count + 1,
                );
                (rest.0, evs + rest.1, rest.2, rest.3, g.2 && rest.4)
            }
        }
    }
}

/// One step of `dbscan_run`, case by case.
proof fn lemma_dbscan_run_unfold(
    points: Seq<Point3D>,
    eps_sq: u32,
    min_pts: u8,
    max_clusters: int,
    max_passes: int,
    states: Seq<PointState>,
    cid: u8,
    count: int,
)
    requires
        states.len() == points.len(),
    ensures
        count >= max_clusters ==> dbscan_run(
            points,
            eps_sq,
            min_pts,
            max_clusters,
            max_passes,
            states,
            cid,
            count,
        ) == (states, Seq::<FlowEvent>::empty(), count, false, true),
        count < max_clusters && first_open(points, states) < 0 ==> dbscan_run(
            points,
            eps_sq,
            min_pts,
            max_clusters,
            max_passes,
            states,
            cid,
            count,
        ) == (states, seq![FlowEvent::NoMoreSeeds], count, true, true),
        count < max_clusters && first_open(points, states) >= 0 && neighbor_count_of(
            points,
            first_open(points, states),
            eps_sq,
        ) < min_pts ==> ({
            let f = first_open(points, states);
            let nb = neighbor_count_of(points, f, eps_sq);
            let rest = dbscan_run(
                points,
                eps_sq,
                min_pts,
                max_clusters,
                max_passes,
                states.update(f, PointState::Noise),
                cid,
                count,
            );
            dbscan_run(points, eps_sq, min_pts, max_clusters, max_passes, states, cid, count) == (
                rest.0,
                seq![FlowEvent::SeedIsNoise { index: f as usize, neighbors: nb }] + rest.1,
                rest.2,
                rest.3,
                rest.4,
            )
        }),
        count < max_clusters && first_open(points, states) >= 0 && neighbor_count_of(
            points,
            first_open(points, states),
            eps_sq,
        ) >= min_pts ==> ({
            let f = first_open(points, states);
            let nb = neighbor_count_of(points, f, eps_sq);
            let g = grow_result(
                eps_sq,
                cid,
                points,
                states.update(f, PointState::Clustered(cid)),
                max_passes,
                0,
            );
            let evs = seq![
                FlowEvent::SeedIsCore {
                    ordinal: count as usize,
                    cluster: cid,
                    index: f as usize,
                    neighbors: nb,
                },
            ] + g.1 + if g.2 {
                seq![FlowEvent::ClusterComplete { ordinal: count as usize }]
            } else {
                Seq::empty()
            };
            let rest = dbscan_run(
                points,
                eps_sq,
                min_pts,
                max_clusters,
                max_passes,
                g.0,
                next_id(cid),
                count + 1,
            );
            dbscan_run(points, eps_sq, min_pts, max_clusters, max_passes, states, cid, count) == (
                rest.0,
                evs + rest.1,
                rest.2,
                rest.3,
                g.2 && rest.4,
            )
        }),
{
    reveal(dbscan_run);
    lemma_first_open_is_open(points, states);
}

/// Every noise point is a recorded rejected seed.
pub open spec fn noise_from_seeds(states: Seq<PointState>, events: Seq<FlowEvent>) -> bool {
    forall|i: int|
        0 <= i < states.len() && #[trigger] states[i] == PointState::Noise ==> noise_recorded(
            events,
            i,
        )
}

/// What every DBSCAN run keeps true of its states and trace: the laws of
/// every run, sound seed decisions, and noise only from rejected seeds.
pub open spec fn dbscan_laws(
    points: Seq<Point3D>,
    eps_sq: u32,
    min_pts: u8,
    states: Seq<PointState>,
    events: Seq<FlowEvent>,
    converged: bool,
) -> bool {
    &&& run_laws(eps_sq, points, states, events, converged)
    &&& seed_decisions_sound(points, eps_sq, min_pts, events)
    &&& noise_from_seeds(states, events)
}

/// Appending events that are not seed decisions keeps the recorded
/// decisions sound and every recorded rejection.
proof fn lemma_decisions_kept(
    points: Seq<Point3D>,
    eps_sq: u32,
    min_pts: u8,
    e0: Seq<FlowEvent>,
    e1: Seq<FlowEvent>,
)
    requires
        seed_decisions_sound(points, eps_sq, min_pts, e0),
        extends(e0, e1),
        forall|k: int|
            e0.len() <= k < e1.len() ==> !(#[trigger] e1[k] is SeedIsCore) && !(e1[k] is SeedIsNoise),
    ensures
        seed_decisions_sound(points, eps_sq, min_pts, e1),
        forall|i: int| noise_recorded(e0, i) ==> #[trigger] noise_recorded(e1, i),
{
    assert forall|k: int| 0 <= k < e1.len() implies match #[trigger] e1[k] {
        FlowEvent::SeedIsCore { index, neighbors, .. } => index < points.len() && neighbors
            == neighbor_count_of(points, index as int, eps_sq) && neighbors >= min_pts,
        FlowEvent::SeedIsNoise { index, neighbors } => index < points.len() && neighbors
            == neighbor_count_of(points, index as int, eps_sq) && neighbors < min_pts,
        _ => true,
    } by {
        if k < e0.len() {
            assert(e1.subrange(0, e0.len() as int)[k] == e1[k]);
        }
    }
    assert forall|i: int| noise_recorded(e0, i) implies #[trigger] noise_recorded(e1, i) by {
        let k = choose|k: int|
            0 <= k < e0.len() && (#[trigger] e0[k] matches FlowEvent::SeedIsNoise { index, .. }
                && index == i);
        assert(e1.subrange(0, e0.len() as int)[k] == e1[k]);
    }
}

/// Rejects seed `s`, already marked visited in `states`, which had
/// `neighbors` neighbours, fewer than `min_pts`: it becomes noise and the
/// rejection is recorded.
fn dbscan_reject_seed(
    eps_sq: u32,
    min_pts: u8,
    points: &Vec<Point3D>,
    states: &mut Vec<PointState>,
    events: &mut Vec<FlowEvent>,
    s: usize,
    neighbors: u8,
    converged: bool,
    Ghost(s0): Ghost<Seq<PointState>>,
)
    requires
        s < points.len(),
        open_point(points@, s0, s as int),
        old(states)@ == s0.update(s as int, PointState::Visited),
        neighbors == neighbor_count_of(points@, s as int, eps_sq),
        neighbors < min_pts,
        dbscan_laws(points@, eps_sq, min_pts, s0, old(events)@, converged),
    ensures
        final(states)@ == s0.update(s as int, PointState::Noise),
        final(events)@ == old(events)@.push(FlowEvent::SeedIsNoise { index: s, neighbors }),
        dbscan_laws(points@, eps_sq, min_pts, final(states)@, final(events)@, converged),
{
    let n = points.len();
    let ghost e0 = events@;
    states.set(s, PointState::Noise);
    events.push(FlowEvent::SeedIsNoise { index: s, neighbors });
    proof {
        let s3 = states@;
        assert(s3 =~= s0.update(s as int, PointState::Noise));
        if converged {
            lemma_noise_seed_keeps_closed(eps_sq, points@, s0, s as int);
        }
        assert(events@.subrange(0, e0.len() as int) =~= e0);
        lemma_seeds_kept(e0, events@);
        assert forall|i: int|
            0 <= i < n implies (#[trigger] s3[i] matches PointState::Clustered(c) ==> (
            seed_recorded(events@, i, c) || linked_to(eps_sq, c, points@, s3, i))) by {
            if let PointState::Clustered(c) = s3[i] {
                if !seed_recorded(e0, i, c) {
                    assert(linked_to(eps_sq, c, points@, s0, i));
                    lemma_linked_kept(eps_sq, c, points@, s0, s3, i);
                }
            }
        }
        assert forall|i: int|
            0 <= i < n && #[trigger] s3[i] == PointState::Noise implies noise_recorded(
            events@,
            i,
        ) by {
            if i == s {
                assert(events@[events@.len() - 1] matches FlowEvent::SeedIsNoise { index, .. }
                    && index == i);
            } else {
                let k = choose|k: int|
                    0 <= k < e0.len() && (#[trigger] e0[k] matches FlowEvent::SeedIsNoise {
                        index,
                        ..
                    } && index == i);
                assert(events@[k] == e0[k]);
            }
        }
        assert forall|k: int| 0 <= k < events@.len() implies match #[trigger] events@[k] {
            FlowEvent::SeedIsCore { index, neighbors, .. } => index < points.len() && neighbors
                == neighbor_count_of(points@, index as int, eps_sq) && neighbors >= min_pts,
            FlowEvent::SeedIsNoise { index, neighbors } => index < points.len() && neighbors
                == neighbor_count_of(points@, index as int, eps_sq) && neighbors < min_pts,
            _ => true,
        } by {
            if k < e0.len() {
                assert(events@[k] == e0[k]);
            }
        }
    }
}

/// Opens a DBSCAN cluster at the accepted seed `s`, already marked in
/// `states`, which had `neighbors` neighbours: records the decision, grows
/// the cluster and records the growth. Returns whether the growth converged.
fn dbscan_form_cluster(
    eps_sq: u32,
    min_pts: u8,
    cluster: u8,
    points: &Vec<Point3D>,
    states: &mut Vec<PointState>,
    events: &mut Vec<FlowEvent>,
    s: usize,
    neighbors: u8,
    ordinal: usize,
    max_passes: usize,
    converged: bool,
    Ghost(s0): Ghost<Seq<PointState>>,
) -> (quiet: bool)
    requires
        s < points.len(),
        open_point(points@, s0, s as int),
        old(states)@ == s0.update(s as int, PointState::Clustered(cluster)),
        neighbors == neighbor_count_of(points@, s as int, eps_sq),
        neighbors >= min_pts,
        dbscan_laws(points@, eps_sq, min_pts, s0, old(events)@, converged),
    ensures
        ({
            let g = grow_result(eps_sq, cluster, points@, old(states)@, max_passes as int, 0);
            let evs = seq![FlowEvent::SeedIsCore { ordinal, cluster, index: s, neighbors }] + g.1
                + if g.2 {
                seq![FlowEvent::ClusterComplete { ordinal }]
            } else {
                Seq::empty()
            };
            &&& final(states)@ == g.0
            &&& final(events)@ == old(events)@ + evs
            &&& quiet == g.2
        }),
        dbscan_laws(points@, eps_sq, min_pts, final(states)@, final(events)@, converged && quiet),
{
    let n = points.len();
    let ghost e0 = events@;
    events.push(FlowEvent::SeedIsCore { ordinal, cluster, index: s, neighbors });
    let ghost s1 = states@;
    let ghost e1 = events@;
    proof {
        assert(events@.subrange(0, e0.len() as int) =~= e0);
        assert(is_seed_event(e1[e1.len() - 1], s as int, cluster));
        assert forall|k: int| 0 <= k < e1.len() implies match #[trigger] e1[k] {
            FlowEvent::SeedIsCore { index, neighbors, .. } => index < points.len() && neighbors
                == neighbor_count_of(points@, index as int, eps_sq) && neighbors >= min_pts,
            FlowEvent::SeedIsNoise { index, neighbors } => index < points.len() && neighbors
                == neighbor_count_of(points@, index as int, eps_sq) && neighbors < min_pts,
            _ => true,
        } by {
            if k < e0.len() {
                assert(e1[k] == e0[k]);
            }
        }
        assert forall|i: int| noise_recorded(e0, i) implies #[trigger] noise_recorded(e1, i) by {
            let k = choose|k: int|
                0 <= k < e0.len() && (#[trigger] e0[k] matches FlowEvent::SeedIsNoise {
                    index,
                    ..
                } && index == i);
            assert(e1[k] == e0[k]);
        }
    }
    let quiet = grow_cluster(eps_sq, cluster, points, states, max_passes, true, events);
    let ghost s2 = states@;
    let ghost e2 = events@;
    proof {
        lemma_decisions_kept(points@, eps_sq, min_pts, e1, e2);
        lemma_seeds_kept(e0, e1);
        lemma_seeds_kept(e1, e2);
        assert(seed_recorded(e2, s as int, cluster)) by {
            assert(e2.subrange(0, e1.len() as int)[e1.len() - 1] == e2[e1.len() - 1]);
            assert(is_seed_event(e2[e1.len() - 1], s as int, cluster));
        }
        assert forall|k: int| 0 <= k < n implies #[trigger] s2[k] == s0[k] || (s0[k]
            == PointState::Unvisited && s2[k] == PointState::Clustered(cluster)) by {
            if k != s {
                assert(s1[k] == s0[k]);
            }
        }
        assert forall|i: int|
            0 <= i < n implies (#[trigger] s2[i] matches PointState::Clustered(c) ==> (
            seed_recorded(e2, i, c) || linked_to(eps_sq, c, points@, s2, i))) by {
            if let PointState::Clustered(c) = s2[i] {
                if i != s && s2[i] == s1[i] {
                    assert(s1[i] == s0[i]);
                    if !seed_recorded(e0, i, c) {
                        assert(linked_to(eps_sq, c, points@, s0, i));
                        assert forall|m: int|
                            0 <= m < s0.len() && s0[m] == PointState::Clustered(c) implies s2[m]
                            == s0[m] by {
                            if m != s {
                                assert(s1[m] == s0[m]);
                            }
                        }
                        lemma_linked_kept(eps_sq, c, points@, s0, s2, i);
                    }
                }
            }
        }
        assert forall|i: int|
            0 <= i < n && #[trigger] s2[i] == PointState::Noise implies noise_recorded(e2, i) by {
            assert(s0[i] == PointState::Noise);
        }
        if converged && quiet {
            assert forall|k: int| 0 <= k < n implies #[trigger] s0[k] != PointState::Visited by {}
            lemma_formation_closes(eps_sq, cluster, points@, s0, s2);
        }
        assert(e2 =~= e1 + e2.subrange(e1.len() as int, e2.len() as int));
    }
    if quiet {
        events.push(FlowEvent::ClusterComplete { ordinal });
        proof {
            assert(events@.subrange(0, e2.len() as int) =~= e2);
            lemma_seeds_kept(e2, events@);
            lemma_decisions_kept(points@, eps_sq, min_pts, e2, events@);
            assert(events@ =~= e0 + (seq![FlowEvent::SeedIsCore { ordinal, cluster, index: s, neighbors }] + (
            e2.subrange(e1.len() as int, e2.len() as int)) + seq![
                FlowEvent::ClusterComplete { ordinal },
            ]));
        }
    } else {
        proof {
            assert(events@ =~= e0 + (seq![FlowEvent::SeedIsCore { ordinal, cluster, index: s, neighbors }] + (
            e2.subrange(e1.len() as int, e2.len() as int)) + Seq::<FlowEvent>::empty()));
        }
    }
    quiet
}

/// The trimmed DBSCAN over a whole cloud.
///
/// While fewer than `max_clusters` clusters are open: the wrapper, in DBSCAN
/// mode, takes the first valid unvisited point as a seed (when there is none
/// the run stops) and counts its neighbours among all other valid points.
/// A seed with fewer than `min_pts` (itself included, counted in 8 bits) is
/// marked noise and the next seed is sought for the same cluster. Otherwise
/// the seed opens the cluster, which grows by up to `max_passes` expansion
/// passes with `dbscan_expand`; the controller then moves to the next id.
///
/// The trace records each seed decision, each pass and each completed
/// cluster.
pub fn dbscan_flow(
    points: &Vec<Point3D>,
    eps_sq: u32,
    min_pts: u8,
    max_clusters: usize,
    max_passes: usize,
) -> (report: FlowReport)
    ensures
        ({
            let r = dbscan_run(
                points@,
                eps_sq,
                min_pts,
                max_clusters as int,
                max_passes as int,
                all_unvisited(points.len() as nat),
                0,
                0,
            );
            &&& report.states@ == r.0
            &&& report.events@ == r.1
            &&& report.clusters == r.2
            &&& report.exhausted == r.3
            &&& report.converged == r.4
        }),
        report.states.len() == points.len(),
        report.clusters <= max_clusters,
        report.exhausted || report.clusters == max_clusters,
        forall|i: int|
            0 <= i < points.len() && !points@[i].valid ==> #[trigger] report.states@[i]
                == PointState::Unvisited,
        forall|i: int|
            0 <= i < points.len() ==> #[trigger] report.states@[i] != PointState::Visited,
        forall|i: int|
            0 <= i < points.len() && #[trigger] report.states@[i] == PointState::Noise
                ==> noise_recorded(report.events@, i),
        seed_decisions_sound(points@, eps_sq, min_pts, report.events@),
        clusters_linked(eps_sq, points@, report.states@, report.events@),
        report.converged ==> clusters_closed(eps_sq, points@, report.states@),
        report.exhausted ==> forall|i: int|
            0 <= i < points.len() && points@[i].valid ==> #[trigger] report.states@[i]
                != PointState::Unvisited,
{
    let n = points.len();
    let mut core = SegmentationCore::new_dbscan(0, eps_sq, min_pts);
    let mut states: Vec<PointState> = Vec::new();
    let mut k: usize = 0;
    while k < n
        invariant
            n == points.len(),
            0 <= k <= n,
            states.len() == k,
            forall|m: int| 0 <= m < k ==> #[trigger] states@[m] == PointState::Unvisited,
        decreases n - k,
    {
        states.push(PointState::Unvisited);
        k += 1;
    }
    let mut events: Vec<FlowEvent> = Vec::new();
    let mut cluster_count: usize = 0;
    let mut exhausted = false;
    let mut converged = true;
    let ghost r0 = dbscan_run(
        points@,
        eps_sq,
        min_pts,
        max_clusters as int,
        max_passes as int,
        all_unvisited(n as nat),
        0,
        0,
    );
    assert(states@ =~= all_unvisited(n as nat));
    assert(events@ + r0.1 =~= r0.1);
    while cluster_count < max_clusters && !exhausted
        invariant
            n == points.len(),
            states.len() == n,
            cluster_count <= max_clusters,
            r0 == dbscan_run(
                points@,
                eps_sq,
                min_pts,
                max_clusters as int,
                max_passes as int,
                all_unvisited(n as nat),
                0,
                0,
            ),
            !exhausted ==> ({
                let r = dbscan_run(
                    points@,
                    eps_sq,
                    min_pts,
                    max_clusters as int,
                    max_passes as int,
                    states@,
                    core.dbscan_core.current_cluster,
                    cluster_count as int,
                );
                &&& r0.0 == r.0
                &&& r0.1 == events@ + r.1
                &&& r0.2 == r.2
                &&& r0.3 == r.3
                &&& r0.4 == (converged && r.4)
            }),
            exhausted ==> r0 == (states@, events@, cluster_count as int, true, converged),
            core.mode == SegmentationMode::Dbscan,
            core.dbscan_core.state == DbscanState::Idle,
            core.dbscan_core.epsilon_sq == eps_sq,
            core.dbscan_core.min_pts == min_pts,
            dbscan_laws(points@, eps_sq, min_pts, states@, events@, converged),
            exhausted ==> forall|i: int|
                0 <= i < n && points@[i].valid ==> #[trigger] states@[i] != PointState::Unvisited,
        decreases max_clusters - cluster_count, count_state(states@, PointState::Unvisited) + if exhausted {
            0int
        } else {
            1int
        },
    {
        let ghost s0 = states@;
        let ghost e0 = events@;
        let ghost cid = core.dbscan_core.current_cluster;
        proof {
            lemma_dbscan_run_unfold(
                points@,
                eps_sq,
                min_pts,
                max_clusters as int,
                max_passes as int,
                s0,
                cid,
                cluster_count as int,
            );
        }
        let (seed_core, seed) = find_seed(core, points, &mut states);
        match seed {
            None => {
                exhausted = true;
                events.push(FlowEvent::NoMoreSeeds);
                proof {
                    lemma_first_open(points@, s0, -1);
                    assert(events@ =~= e0 + seq![FlowEvent::NoMoreSeeds]);
                    assert(events@.subrange(0, e0.len() as int) =~= e0);
                    lemma_seeds_kept(e0, events@);
                    lemma_decisions_kept(points@, eps_sq, min_pts, e0, events@);
                    assert forall|i: int|
                        0 <= i < n implies (#[trigger] states@[i] matches PointState::Clustered(c)
                        ==> (seed_recorded(events@, i, c) || linked_to(
                        eps_sq,
                        c,
                        points@,
                        states@,
                        i,
                    ))) by {}
                    assert forall|i: int| 0 <= i < n && points@[i].valid implies #[trigger] states@[i]
                        != PointState::Unvisited by {
                        assert(!open_point(points@, s0, i));
                    }
                }
            },
            Some(s) => {
                proof {
                    lemma_first_open(points@, s0, s as int);
                    lemma_count_state_update(s0, s as int, PointState::Visited, PointState::Unvisited);
                }
                core = count_neighbors(seed_core, points, &states, s);
                let neighbors = core.dbscan_core.neighbor_count;
                if !has_min_neighbors(core.dbscan_core) {
                    dbscan_reject_seed(
                        eps_sq,
                        min_pts,
                        points,
                        &mut states,
                        &mut events,
                        s,
                        neighbors,
                        converged,
                        Ghost(s0),
                    );
                    core.dbscan_core = mark_seed_as_noise(core.dbscan_core);
                    proof {
                        let s1 = s0.update(s as int, PointState::Visited);
                        assert(states@ =~= s1.update(s as int, PointState::Noise));
                        lemma_count_state_update(s1, s as int, PointState::Noise, PointState::Unvisited);
                        let rest = dbscan_run(
                            points@,
                            eps_sq,
                            min_pts,
                            max_clusters as int,
                            max_passes as int,
                            states@,
                            cid,
                            cluster_count as int,
                        );
                        assert(e0 + (seq![FlowEvent::SeedIsNoise { index: s, neighbors }] + rest.1)
                            =~= events@ + rest.1);
                    }
                } else {
                    let cluster = core.dbscan_core.current_cluster;
                    states.set(s, PointState::Clustered(cluster));
                    core.dbscan_core = start_expanding(core.dbscan_core);
                    proof {
                        assert(states@ =~= s0.update(s as int, PointState::Clustered(cluster)));
                    }
                    let quiet = dbscan_form_cluster(
                        eps_sq,
                        min_pts,
                        cluster,
                        points,
                        &mut states,
                        &mut events,
                        s,
                        neighbors,
                        cluster_count,
                        max_passes,
                        converged,
                        Ghost(s0),
                    );
                    if !quiet {
                        converged = false;
                    }
                    core.dbscan_core = core.dbscan_core.next_cluster();
                    cluster_count += 1;
                    proof {
                        let g = grow_result(
                            eps_sq,
                            cid,
                            points@,
                            s0.update(s as int, PointState::Clustered(cid)),
                            max_passes as int,
                            0,
                        );
                        let evs = seq![
                            FlowEvent::SeedIsCore {
                                ordinal: (cluster_count - 1) as usize,
                                cluster: cid,
                                index: s,
                                neighbors,
                            },
                        ] + g.1 + if g.2 {
                            seq![FlowEvent::ClusterComplete { ordinal: (cluster_count - 1) as usize }]
                        } else {
                            Seq::empty()
                        };
                        let rest = dbscan_run(
                            points@,
                            eps_sq,
                            min_pts,
                            max_clusters as int,
                            max_passes as int,
                            states@,
                            core.dbscan_core.current_cluster,
                            cluster_count as int,
                        );
                        assert(e0 + (evs + rest.1) =~= events@ + rest.1);
                    }
                }
            },
        }
    }
    proof {
        if !exhausted {
            lemma_dbscan_run_unfold(
                points@,
                eps_sq,
                min_pts,
                max_clusters as int,
                max_passes as int,
                states@,
                core.dbscan_core.current_cluster,
                cluster_count as int,
            );
            assert(events@ + Seq::<FlowEvent>::empty() =~= events@);
        }
    }
    FlowReport { states, events, clusters: cluster_count, exhausted, converged }
}

} // verus!
