//! What every clustering run keeps true: clusters are linked through their
//! seeds and closed under the radius.
use vstd::prelude::*;
use crate::point::{Point3D, PointState};
use crate::distance::{within, lemma_distance_symmetric};
use crate::trace::{FlowEvent, seed_recorded};
use crate::growth::{open_point, linked_to, cluster_is_closed};

verus! {

/// Clusters are closed under the radius: every valid point within the
/// radius of a valid point of a cluster is in the same cluster, or is noise.
pub open spec fn clusters_closed(radius_sq: u32, points: Seq<Point3D>, states: Seq<PointState>) -> bool {
    forall|i: int, j: int|
        #![trigger states[i], states[j]]
        0 <= i < points.len() && 0 <= j < points.len() && i != j && points[i].valid
            && points[j].valid && within(points[i], points[j], radius_sq) && states[i] is Clustered
            ==> states[j] == states[i] || states[j] == PointState::Noise
}

/// Every clustered point is the recorded seed of its cluster or lies within
/// the radius of another valid point of the same cluster.
pub open spec fn clusters_linked(
    radius_sq: u32,
    points: Seq<Point3D>,
    states: Seq<PointState>,
    events: Seq<FlowEvent>,
) -> bool {
    forall|i: int|
        0 <= i < points.len() ==> (#[trigger] states[i] matches PointState::Clustered(c) ==> (
        seed_recorded(events, i, c) || linked_to(radius_sq, c, points, states, i)))
}

/// What every run keeps true of its states and trace: invalid points stay
/// unvisited, no point is left visited, every clustered point is linked to
/// its cluster, and while every growth has converged the clusters are closed.
pub open spec fn run_laws(
    radius_sq: u32,
    points: Seq<Point3D>,
    states: Seq<PointState>,
    events: Seq<FlowEvent>,
    converged: bool,
) -> bool {
    &&& states.len() == points.len()
    &&& forall|i: int|
        0 <= i < points.len() && !points[i].valid ==> #[trigger] states[i]
            == PointState::Unvisited
    &&& forall|i: int| 0 <= i < points.len() ==> #[trigger] states[i] != PointState::Visited
    &&& clusters_linked(radius_sq, points, states, events)
    &&& converged ==> clusters_closed(radius_sq, points, states)
}

/// No point is noise.
pub open spec fn no_noise(states: Seq<PointState>) -> bool {
    forall|i: int| 0 <= i < states.len() ==> #[trigger] states[i] != PointState::Noise
}

/// A cluster formed on closed states, which only took unvisited points and
/// cannot grow any further, leaves the states closed.
pub proof fn lemma_formation_closes(
    radius_sq: u32,
    cur: u8,
    points: Seq<Point3D>,
    s0: Seq<PointState>,
    s2: Seq<PointState>,
)
    requires
        s0.len() == points.len(),
        s2.len() == points.len(),
        clusters_closed(radius_sq, points, s0),
        forall|k: int| 0 <= k < s0.len() ==> #[trigger] s0[k] != PointState::Visited,
        forall|k: int|
            0 <= k < s0.len() ==> #[trigger] s2[k] == s0[k] || (s0[k] == PointState::Unvisited
                && s2[k] == PointState::Clustered(cur)),
        cluster_is_closed(radius_sq, cur, points, s2),
    ensures
        clusters_closed(radius_sq, points, s2),
{
    assert forall|i: int, j: int|
        0 <= i < points.len() && 0 <= j < points.len() && i != j && points[i].valid
            && points[j].valid && within(points[i], points[j], radius_sq)
            && #[trigger] s2[i] is Clustered implies #[trigger] s2[j] == s2[i] || s2[j]
        == PointState::Noise by {
        lemma_distance_symmetric(points[i], points[j]);
        assert(within(points[j], points[i], radius_sq));
        assert(s0[i] is Clustered ==> s0[j] == s0[i] || s0[j] == PointState::Noise);
        assert(s0[j] is Clustered ==> s0[i] == s0[j] || s0[i] == PointState::Noise);
        if s2[j] == PointState::Unvisited {
            assert(open_point(points, s2, j));
            assert(!within(points[j], points[i], radius_sq));
        }
    }
}

/// Turning a whole cluster into noise keeps the states closed.
pub proof fn lemma_noise_keeps_closed(
    radius_sq: u32,
    cur: u8,
    points: Seq<Point3D>,
    s2: Seq<PointState>,
    s3: Seq<PointState>,
)
    requires
        s2.len() == points.len(),
        s3.len() == points.len(),
        clusters_closed(radius_sq, points, s2),
        forall|k: int|
            0 <= k < s2.len() ==> #[trigger] s3[k] == if s2[k] == PointState::Clustered(cur) {
                PointState::Noise
            } else {
                s2[k]
            },
    ensures
        clusters_closed(radius_sq, points, s3),
{
    assert forall|i: int, j: int|
        0 <= i < points.len() && 0 <= j < points.len() && i != j && points[i].valid
            && points[j].valid && within(points[i], points[j], radius_sq)
            && #[trigger] s3[i] is Clustered implies #[trigger] s3[j] == s3[i] || s3[j]
        == PointState::Noise by {
        assert(s2[i] is Clustered ==> s2[j] == s2[i] || s2[j] == PointState::Noise);
    }
}

/// Turning an unvisited point into noise keeps the states closed.
pub proof fn lemma_noise_seed_keeps_closed(
    radius_sq: u32,
    points: Seq<Point3D>,
    s0: Seq<PointState>,
    seed: int,
)
    requires
        s0.len() == points.len(),
        0 <= seed < s0.len(),
        s0[seed] == PointState::Unvisited,
        clusters_closed(radius_sq, points, s0),
    ensures
        clusters_closed(radius_sq, points, s0.update(seed, PointState::Noise)),
{
    let s3 = s0.update(seed, PointState::Noise);
    assert forall|i: int, j: int|
        0 <= i < points.len() && 0 <= j < points.len() && i != j && points[i].valid
            && points[j].valid && within(points[i], points[j], radius_sq)
            && #[trigger] s3[i] is Clustered implies #[trigger] s3[j] == s3[i] || s3[j]
        == PointState::Noise by {
        assert(s0[i] is Clustered ==> s0[j] == s0[i] || s0[j] == PointState::Noise);
    }
}

} // verus!
