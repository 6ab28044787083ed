//! Euclidean Cluster Extraction: a seed kernel that opens a cluster and an
//! expansion kernel that grows it one point at a time.
use vstd::prelude::*;
use crate::point::{Point3D, PointState, invalid_point};
use crate::distance::{distance_squared, distance_sq};

verus! {

/// Phase of the ECE controller.
#[derive(Copy, Clone, Debug, PartialEq, Eq, Structural)]
pub enum EceState {
    /// Looking for a seed for the next cluster.
    Idle,
    /// A seed was taken; the cluster grows through `ece_expand`.
    Growing,
}

impl Default for EceState {
    /// The controller starts idle.
    fn default() -> (s: Self)
        ensures
            s == EceState::Idle,
    {
        EceState::Idle
    }
}

/// Registers of the ECE controller.
#[derive(Copy, Clone, Debug, PartialEq, Eq, Structural)]
pub struct EceCore {
    pub threshold_sq: u32,
    pub current_cluster: u8,
    pub state: EceState,
    pub seed_point: Point3D,
}

/// The cluster id that follows `id`; ids are 8 bits wide and wrap.
pub open spec fn next_id(id: u8) -> u8 {
    ((id + 1) % 256) as u8
}

/// A fresh ECE controller: cluster 0, idle, no seed.
pub open spec fn fresh_ece_core(threshold_sq: u32) -> EceCore {
    EceCore { threshold_sq, current_cluster: 0, state: EceState::Idle, seed_point: invalid_point() }
}

/// What the ECE seed step makes of `core` shown the point `p` in state `ps`:
/// an idle controller takes a valid unvisited point as the seed of its
/// current cluster; in every other case nothing changes.
pub open spec fn ece_step_result(core: EceCore, p: Point3D, ps: PointState) -> (EceCore, PointState, bool) {
    if core.state == EceState::Idle && p.valid && ps == PointState::Unvisited {
        (
            EceCore { state: EceState::Growing, seed_point: p, ..core },
            PointState::Clustered(core.current_cluster),
            true,
        )
    } else {
        (core, ps, false)
    }
}

/// The ECE seed step only ever opens a cluster: an idle controller takes a
/// valid unvisited point as its seed, putting it in the current cluster and
/// starting to grow; a growing controller changes nothing, neither itself nor
/// the point, whatever the point is (growth is the expansion kernel's work).
pub proof fn lemma_ece_seed_step_only_opens(core: EceCore, p: Point3D, ps: PointState)
    ensures
        ({
            let r = ece_step_result(core, p, ps);
            &&& core.state == EceState::Growing ==> r == (core, ps, false)
            &&& r.2 <==> r.1 != ps
            &&& r.2 <==> core.state == EceState::Idle && p.valid && ps == PointState::Unvisited
            &&& r.2 ==> r.1 == PointState::Clustered(core.current_cluster) && r.0.seed_point == p
                && r.0.state == EceState::Growing && r.0.current_cluster == core.current_cluster
                && r.0.threshold_sq == core.threshold_sq
            &&& !r.2 ==> r.0 == core
        }),
{
}

impl EceCore {
    /// A fresh controller: cluster 0, idle, no seed.
    pub fn new(threshold_sq: u32) -> (c: Self)
        ensures
            c == fresh_ece_core(threshold_sq),
    {
        EceCore {
            threshold_sq,
            current_cluster: 0,
            state: EceState::Idle,
            seed_point: Point3D::invalid(),
        }
    }

    /// The controller for the next cluster: the id advances by one (wrapping
    /// at 256), the threshold stays, the phase returns to idle and the seed
    /// slot is cleared.
    pub fn next_cluster(&self) -> (c: Self)
        ensures
            c == (EceCore {
                threshold_sq: self.threshold_sq,
                current_cluster: next_id(self.current_cluster),
                state: EceState::Idle,
                seed_point: invalid_point(),
            }),
    {
        EceCore {
            threshold_sq: self.threshold_sq,
            current_cluster: self.current_cluster.wrapping_add(1),
            state: EceState::Idle,
            seed_point: Point3D::invalid(),
        }
    }
}

/// Seed step of ECE. An idle controller takes the first valid unvisited
/// point it is shown as the seed of the current cluster: the point becomes
/// `Clustered(current_cluster)`, the controller records it and starts
/// growing. In every other case nothing changes. The flag reports whether the
/// point was taken.
pub fn ece_step(core: EceCore, p: Point3D, ps: PointState) -> (r: (EceCore, PointState, bool))
    ensures
        r == ece_step_result(core, p, ps),
        core.state == EceState::Growing ==> r == (core, ps, false),
{
    match core.state {
        EceState::Idle => {
            if p.valid && ps == PointState::Unvisited {
                (
                    EceCore {
                        threshold_sq: core.threshold_sq,
                        current_cluster: core.current_cluster,
                        state: EceState::Growing,
                        seed_point: p,
                    },
                    PointState::Clustered(core.current_cluster),
                    true,
                )
            } else {
                (core, ps, false)
            }
        },
        EceState::Growing => (core, ps, false),
    }
}

/// Whether the expansion kernels may add `test_point` to `cluster` by way of
/// `reference_point`: both points valid, the test point unvisited, the
/// reference point in the cluster, and the two within the squared radius.
pub open spec fn joins_cluster(
    radius_sq: u32,
    cluster: u8,
    test_point: Point3D,
    test_state: PointState,
    reference_point: Point3D,
    reference_state: PointState,
) -> bool {
    &&& test_point.valid
    &&& test_state == PointState::Unvisited
    &&& reference_point.valid
    &&& reference_state == PointState::Clustered(cluster)
    &&& distance_sq(test_point, reference_point) <= radius_sq
}

/// What an expansion step makes of the test point: it joins `cluster` when
/// `joins_cluster` holds, and keeps its state otherwise. The flag reports
/// whether it joined.
pub open spec fn expand_result(
    radius_sq: u32,
    cluster: u8,
    test_point: Point3D,
    test_state: PointState,
    reference_point: Point3D,
    reference_state: PointState,
) -> (PointState, bool) {
    if joins_cluster(radius_sq, cluster, test_point, test_state, reference_point, reference_state) {
        (PointState::Clustered(cluster), true)
    } else {
        (test_state, false)
    }
}

/// An expansion step adds the test point to the cluster exactly when the
/// test point is valid and unvisited, the reference point is valid and in
/// that cluster, and the squared distance between the two points (in the
/// 32-bit datapath) is at most the radius; then the test point becomes
/// `Clustered(cluster)` and the flag is set. Otherwise the test point keeps
/// its state and the flag is clear. The order of the two points in the
/// distance does not matter.
pub proof fn lemma_expand_joins_iff_near_member(
    radius_sq: u32,
    cluster: u8,
    test_point: Point3D,
    test_state: PointState,
    reference_point: Point3D,
    reference_state: PointState,
)
    ensures
        ({
            let r = expand_result(radius_sq, cluster, test_point, test_state, reference_point, reference_state);
            &&& r.1 <==> test_point.valid && test_state == PointState::Unvisited && reference_point.valid
                && reference_state == PointState::Clustered(cluster) && distance_sq(
                reference_point,
                test_point,
            ) <= radius_sq
            &&& r.0 == (if r.1 {
                PointState::Clustered(cluster)
            } else {
                test_state
            })
        }),
{
    crate::distance::lemma_distance_symmetric(test_point, reference_point);
}

/// Expansion step of ECE: an unvisited valid point joins the current cluster
/// when it lies within the threshold of a valid point already in that
/// cluster. Otherwise its state is returned unchanged. The flag reports
/// whether the point joined.
pub fn ece_expand(
    threshold_sq: u32,
    current_cluster: u8,
    test_point: Point3D,
    test_state: PointState,
    reference_point: Point3D,
    reference_state: PointState,
) -> (r: (PointState, bool))
    ensures
        r == expand_result(
            threshold_sq,
            current_cluster,
            test_point,
            test_state,
            reference_point,
            reference_state,
        ),
{
    let ref_in_cluster = match reference_state {
        PointState::Clustered(id) => id == current_cluster,
        _ => false,
    };
    let can_expand = test_point.valid && test_state == PointState::Unvisited
        && reference_point.valid && ref_in_cluster;
    if can_expand {
        let dist = distance_squared(test_point, reference_point);
        if dist <= threshold_sq {
            (PointState::Clustered(current_cluster), true)
        } else {
            (test_state, false)
        }
    } else {
        (test_state, false)
    }
}

} // verus!
