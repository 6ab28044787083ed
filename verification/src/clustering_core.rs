//! A single-pass region grower: the first valid unvisited point becomes the
//! seed, and every later valid unvisited point within the threshold of that
//! seed joins its cluster.
use vstd::prelude::*;
use crate::point::{Point3D, PointState, invalid_point};
use crate::distance::{distance_squared, is_within_threshold, distance_sq};
use crate::ece::next_id;

verus! {

/// Phase of the region grower.
#[derive(Copy, Clone, Debug, PartialEq, Eq, Structural)]
pub enum ClusteringState {
    Idle,
    GrowingRegion,
}

impl Default for ClusteringState {
    /// The grower starts idle.
    fn default() -> (s: Self)
        ensures
            s == ClusteringState::Idle,
    {
        ClusteringState::Idle
    }
}

/// Registers of the region grower.
#[derive(Copy, Clone, Debug, PartialEq, Eq, Structural)]
pub struct ClusteringCore {
    pub threshold_sq: u32,
    pub current_cluster_id: u8,
    pub seed_point: Point3D,
    pub state: ClusteringState,
}

impl ClusteringCore {
    /// A fresh grower: cluster 0, no seed, idle.
    pub fn new(threshold_sq: u32) -> (c: Self)
        ensures
            c == (ClusteringCore {
                threshold_sq,
                current_cluster_id: 0,
                seed_point: invalid_point(),
                state: ClusteringState::Idle,
            }),
    {
        ClusteringCore {
            threshold_sq,
            current_cluster_id: 0,
            seed_point: Point3D::invalid(),
            state: ClusteringState::Idle,
        }
    }

    /// The grower for the next cluster: the id advances by one (wrapping at
    /// 256), the threshold stays, the seed is cleared and the phase is idle.
    pub fn next_cluster(&self) -> (c: Self)
        ensures
            c == (ClusteringCore {
                threshold_sq: self.threshold_sq,
                current_cluster_id: next_id(self.current_cluster_id),
                seed_point: invalid_point(),
                state: ClusteringState::Idle,
            }),
    {
        ClusteringCore {
            threshold_sq: self.threshold_sq,
            current_cluster_id: self.current_cluster_id.wrapping_add(1),
            seed_point: Point3D::invalid(),
            state: ClusteringState::Idle,
        }
    }
}

/// What one step of the region grower makes of `core` shown `p` in state
/// `ps`: only a valid unvisited point is ever touched. An idle grower takes
/// it as the seed of the current cluster and starts growing; a growing one
/// adds it to the current cluster when it lies within the threshold of the
/// seed. The flag reports whether the point's state changed.
pub open spec fn process_point_result(core: ClusteringCore, p: Point3D, ps: PointState) -> (ClusteringCore, PointState, bool) {
    if !(ps == PointState::Unvisited && p.valid) {
        (core, ps, false)
    } else if core.state == ClusteringState::Idle {
        (
            ClusteringCore { seed_point: p, state: ClusteringState::GrowingRegion, ..core },
            PointState::Clustered(core.current_cluster_id),
            true,
        )
    } else if distance_sq(core.seed_point, p) <= core.threshold_sq {
        (core, PointState::Clustered(core.current_cluster_id), true)
    } else {
        (core, ps, false)
    }
}

/// Whether a point's state changed exactly when the flag says so, and only
/// for a valid unvisited point.
pub open spec fn flag_tracks_change(p: Point3D, ps: PointState, new_state: PointState, flag: bool) -> bool {
    &&& flag <==> new_state != ps
    &&& new_state != ps ==> p.valid && ps == PointState::Unvisited
}

/// A grower step changes a point's state only when the point is valid and
/// unvisited, and its flag says exactly whether the state changed.
pub proof fn lemma_grower_changes_only_open_points(core: ClusteringCore, p: Point3D, ps: PointState)
    ensures
        ({
            let r = process_point_result(core, p, ps);
            flag_tracks_change(p, ps, r.1, r.2)
        }),
{
}

/// A growing region grower keeps its registers, and adds a valid unvisited
/// point to its current cluster exactly when the squared distance from the
/// seed to the point (in the 32-bit datapath) is at most the threshold;
/// otherwise the point keeps its state. The flag is set exactly when the
/// point joins.
pub proof fn lemma_growing_joins_iff_within_seed(core: ClusteringCore, p: Point3D, ps: PointState)
    requires
        core.state == ClusteringState::GrowingRegion,
        p.valid,
        ps == PointState::Unvisited,
    ensures
        ({
            let r = process_point_result(core, p, ps);
            &&& r.0 == core
            &&& r.1 == PointState::Clustered(core.current_cluster_id) <==> distance_sq(core.seed_point, p)
                <= core.threshold_sq
            &&& r.2 <==> distance_sq(core.seed_point, p) <= core.threshold_sq
            &&& !r.2 ==> r.1 == ps
        }),
{
}

/// A growing region grower never adds a point that lies beyond the threshold
/// of its seed, never changes its registers, and touches no point that is
/// invalid or already visited.
pub proof fn lemma_growing_adds_only_near_points(core: ClusteringCore, p: Point3D, ps: PointState)
    requires
        core.state == ClusteringState::GrowingRegion,
    ensures
        ({
            let r = process_point_result(core, p, ps);
            &&& r.0 == core
            &&& r.1 != ps ==> p.valid && ps == PointState::Unvisited && distance_sq(core.seed_point, p)
                <= core.threshold_sq && r.1 == PointState::Clustered(core.current_cluster_id)
            &&& distance_sq(core.seed_point, p) > core.threshold_sq ==> r == (core, ps, false)
        }),
{
}

/// An idle region grower takes a valid unvisited point as its seed: the
/// point joins the current cluster and the grower starts growing around it
/// with the same threshold and id. Any other point leaves everything as it
/// was.
pub proof fn lemma_idle_grower_takes_seed(core: ClusteringCore, p: Point3D, ps: PointState)
    requires
        core.state == ClusteringState::Idle,
    ensures
        ({
            let r = process_point_result(core, p, ps);
            &&& p.valid && ps == PointState::Unvisited ==> {
                &&& r.0.seed_point == p
                &&& r.0.state == ClusteringState::GrowingRegion
                &&& r.0.threshold_sq == core.threshold_sq
                &&& r.0.current_cluster_id == core.current_cluster_id
                &&& r.1 == PointState::Clustered(core.current_cluster_id)
                &&& r.2
            }
            &&& !(p.valid && ps == PointState::Unvisited) ==> r == (core, ps, false)
        }),
{
}

/// One step of the region grower on one point.
///
/// Only a valid unvisited point is ever touched. An idle grower takes it as
/// the seed of the current cluster and starts growing; a growing grower adds
/// it to the current cluster when it lies within the threshold of the seed.
/// The flag reports whether the point's state changed.
pub fn process_point(core: ClusteringCore, input_point: Point3D, point_state: PointState) -> (r: (
    ClusteringCore,
    PointState,
    bool,
))
    ensures
        r == process_point_result(core, input_point, point_state),
        core.state == ClusteringState::GrowingRegion ==> {
            &&& r.0 == core
            &&& r.2 <==> input_point.valid && point_state == PointState::Unvisited && distance_sq(
                core.seed_point,
                input_point,
            ) <= core.threshold_sq
            &&& r.1 == (if r.2 {
                PointState::Clustered(core.current_cluster_id)
            } else {
                point_state
            })
        },
{
    match core.state {
        ClusteringState::Idle => {
            if (point_state == PointState::Unvisited) && input_point.valid {
                (
                    ClusteringCore {
                        threshold_sq: core.threshold_sq,
                        current_cluster_id: core.current_cluster_id,
                        seed_point: input_point,
                        state: ClusteringState::GrowingRegion,
                    },
                    PointState::Clustered(core.current_cluster_id),
                    true,
                )
            } else {
                (core, point_state, false)
            }
        },
        ClusteringState::GrowingRegion => {
            if (point_state == PointState::Unvisited) && input_point.valid {
                let dist_sq = distance_squared(core.seed_point, input_point);
                if is_within_threshold(dist_sq, core.threshold_sq) {
                    (core, PointState::Clustered(core.current_cluster_id), true)
                } else {
                    (core, point_state, false)
                }
            } else {
                (core, point_state, false)
            }
        },
    }
}

} // verus!
