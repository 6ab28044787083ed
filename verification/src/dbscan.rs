//! A trimmed DBSCAN: a seed is taken, its neighbours within `epsilon_sq` are
//! counted, and a seed with at least `min_pts` points (itself included)
//! opens a cluster that then grows through `dbscan_expand`.
use vstd::prelude::*;
use crate::point::{Point3D, PointState, invalid_point};
use crate::distance::{distance_squared, distance_sq};
use crate::ece::{next_id, expand_result};

verus! {

/// Phase of the DBSCAN controller.
#[derive(Copy, Clone, Debug, PartialEq, Eq, Structural)]
pub enum DbscanState {
    /// Looking for a seed.
    Idle,
    /// A seed was taken; every point shown is compared with it.
    CountingNeighbors,
    /// The seed was a core point; the cluster grows through `dbscan_expand`.
    Expanding,
}

impl Default for DbscanState {
    /// The controller starts idle.
    fn default() -> (s: Self)
        ensures
            s == DbscanState::Idle,
    {
        DbscanState::Idle
    }
}

/// Registers of the DBSCAN controller.
#[derive(Copy, Clone, Debug, PartialEq, Eq, Structural)]
pub struct DbscanCore {
    pub epsilon_sq: u32,
    pub min_pts: u8,
    pub current_cluster: u8,
    pub state: DbscanState,
    pub seed_point: Point3D,
    pub neighbor_count: u8,
}

/// `n + 1` in the 8-bit neighbour counter, wrapping at 256.
pub open spec fn count_succ(n: u8) -> u8 {
    ((n + 1) % 256) as u8
}

/// A fresh DBSCAN controller: cluster 0, idle, no seed, no neighbours.
pub open spec fn fresh_dbscan_core(eps: u32, min_pts: u8) -> DbscanCore {
    DbscanCore {
        epsilon_sq: eps,
        min_pts,
        current_cluster: 0,
        state: DbscanState::Idle,
        seed_point: invalid_point(),
        neighbor_count: 0,
    }
}

impl DbscanCore {
    /// A fresh controller: cluster 0, idle, no seed, no neighbours counted.
    pub fn new(eps: u32, min_pts: u8) -> (c: Self)
        ensures
            c == fresh_dbscan_core(eps, min_pts),
    {
        DbscanCore {
            epsilon_sq: eps,
            min_pts,
            current_cluster: 0,
            state: DbscanState::Idle,
            seed_point: Point3D::invalid(),
            neighbor_count: 0,
        }
    }

    /// The controller for the next cluster: the id advances by one (wrapping
    /// at 256), the parameters stay, everything else is reset.
    pub fn next_cluster(&self) -> (c: Self)
        ensures
            c == (DbscanCore {
                epsilon_sq: self.epsilon_sq,
                min_pts: self.min_pts,
                current_cluster: next_id(self.current_cluster),
                state: DbscanState::Idle,
                seed_point: invalid_point(),
                neighbor_count: 0,
            }),
    {
        DbscanCore {
            epsilon_sq: self.epsilon_sq,
            min_pts: self.min_pts,
            current_cluster: self.current_cluster.wrapping_add(1),
            state: DbscanState::Idle,
            seed_point: Point3D::invalid(),
            neighbor_count: 0,
        }
    }
}

/// Whether a counting controller counts `p` as a neighbour of its seed: `p`
/// is valid, differs from the seed point, and lies within `epsilon_sq`.
pub open spec fn counts_as_neighbor(core: DbscanCore, p: Point3D) -> bool {
    &&& p.valid
    &&& p != core.seed_point
    &&& distance_sq(core.seed_point, p) <= core.epsilon_sq
}

/// What one DBSCAN controller step makes of `core` shown `p` in state `ps`.
///
/// - Idle: a valid unvisited point becomes the seed. It is marked `Visited`,
///   the controller records it, counts it as its own first neighbour and
///   starts counting. The flag is set.
/// - Counting: a point that counts as a neighbour of the seed bumps the 8-bit
///   counter (wrapping). The state is returned unchanged, the flag clear.
/// - Expanding, and every other case: nothing changes.
pub open spec fn dbscan_step_result(core: DbscanCore, p: Point3D, ps: PointState) -> (DbscanCore, PointState, bool) {
    if core.state == DbscanState::Idle && ps == PointState::Unvisited && p.valid {
        (
            DbscanCore {
                state: DbscanState::CountingNeighbors,
                seed_point: p,
                neighbor_count: 1,
                ..core
            },
            PointState::Visited,
            true,
        )
    } else if core.state == DbscanState::CountingNeighbors && counts_as_neighbor(core, p) {
        (DbscanCore { neighbor_count: count_succ(core.neighbor_count), ..core }, ps, false)
    } else {
        (core, ps, false)
    }
}

/// While counting neighbours, a DBSCAN step leaves every point's state as it
/// was and never sets the flag. It adds one (wrapping at 256) to the
/// neighbour counter exactly when the point is valid, is not the seed point
/// and lies within `epsilon_sq` of the seed; no other register changes.
pub proof fn lemma_counting_leaves_points_alone(core: DbscanCore, p: Point3D, ps: PointState)
    requires
        core.state == DbscanState::CountingNeighbors,
    ensures
        ({
            let r = dbscan_step_result(core, p, ps);
            &&& r.1 == ps
            &&& !r.2
            &&& r.0.epsilon_sq == core.epsilon_sq
            &&& r.0.min_pts == core.min_pts
            &&& r.0.current_cluster == core.current_cluster
            &&& r.0.state == DbscanState::CountingNeighbors
            &&& r.0.seed_point == core.seed_point
            &&& r.0.neighbor_count as int == if p.valid && p != core.seed_point && distance_sq(
                core.seed_point,
                p,
            ) <= core.epsilon_sq {
                (core.neighbor_count + 1) % 256
            } else {
                core.neighbor_count as int
            }
        }),
{
}

/// Only an idle DBSCAN controller ever changes a point's state: it marks a
/// valid unvisited point `Visited` and takes it as the seed, with one
/// neighbour counted (the seed itself). A counting or expanding controller
/// returns every point's state unchanged with the flag clear, and an
/// expanding one changes nothing at all.
pub proof fn lemma_only_idle_step_marks_points(core: DbscanCore, p: Point3D, ps: PointState)
    ensures
        ({
            let r = dbscan_step_result(core, p, ps);
            &&& r.2 <==> r.1 != ps
            &&& r.2 <==> core.state == DbscanState::Idle && p.valid && ps == PointState::Unvisited
            &&& r.2 ==> r.1 == PointState::Visited && r.0.seed_point == p && r.0.neighbor_count == 1
                && r.0.state == DbscanState::CountingNeighbors && r.0.current_cluster
                == core.current_cluster
            &&& core.state == DbscanState::Expanding ==> r == (core, ps, false)
        }),
{
}

/// One step of the DBSCAN controller, as `dbscan_step_result` describes it.
pub fn dbscan_step(core: DbscanCore, p: Point3D, ps: PointState) -> (r: (
    DbscanCore,
    PointState,
    bool,
))
    ensures
        r == dbscan_step_result(core, p, ps),
        core.state != DbscanState::Idle ==> r.1 == ps && !r.2,
{
    match core.state {
        DbscanState::Idle => {
            if ps == PointState::Unvisited && p.valid {
                (
                    DbscanCore {
                        epsilon_sq: core.epsilon_sq,
                        min_pts: core.min_pts,
                        current_cluster: core.current_cluster,
                        state: DbscanState::CountingNeighbors,
                        seed_point: p,
                        neighbor_count: 1,
                    },
                    PointState::Visited,
                    true,
                )
            } else {
                (core, ps, false)
            }
        },
        DbscanState::CountingNeighbors => {
            if p.valid && p != core.seed_point {
                let d = distance_squared(core.seed_point, p);
                if d <= core.epsilon_sq {
                    (
                        DbscanCore {
                            epsilon_sq: core.epsilon_sq,
                            min_pts: core.min_pts,
                            current_cluster: core.current_cluster,
                            state: core.state,
                            seed_point: core.seed_point,
                            neighbor_count: core.neighbor_count.wrapping_add(1),
                        },
                        ps,
                        false,
                    )
                } else {
                    (core, ps, false)
                }
            } else {
                (core, ps, false)
            }
        },
        DbscanState::Expanding => (core, ps, false),
    }
}

/// Expansion step of DBSCAN: an unvisited valid point joins the current
/// cluster when it lies within `epsilon_sq` of a valid point already in that
/// cluster. Otherwise its state is returned unchanged. The flag reports
/// whether the point joined.
pub fn dbscan_expand(
    epsilon_sq: u32,
    current_cluster: u8,
    test_point: Point3D,
    test_state: PointState,
    reference_point: Point3D,
    reference_state: PointState,
) -> (r: (PointState, bool))
    ensures
        r == expand_result(
            epsilon_sq,
            current_cluster,
            test_point,
            test_state,
            reference_point,
            reference_state,
        ),
{
    let ref_in_cluster = match reference_state {
        PointState::Clustered(id) => id == current_cluster,
        _ => false,
    };
    let can_expand = test_point.valid && test_state == PointState::Unvisited
        && reference_point.valid && ref_in_cluster;
    if can_expand {
        let dist = distance_squared(test_point, reference_point);
        if dist <= epsilon_sq {
            (PointState::Clustered(current_cluster), true)
        } else {
            (test_state, false)
        }
    } else {
        (test_state, false)
    }
}

/// Whether the seed has at least `min_pts` neighbours (itself included).
pub fn has_min_neighbors(core: DbscanCore) -> (r: bool)
    ensures
        r == (core.neighbor_count >= core.min_pts),
{
    core.neighbor_count >= core.min_pts
}

/// Switches the controller to the expanding phase, keeping every register.
pub fn start_expanding(core: DbscanCore) -> (c: DbscanCore)
    ensures
        c == (DbscanCore { state: DbscanState::Expanding, ..core }),
{
    DbscanCore {
        epsilon_sq: core.epsilon_sq,
        min_pts: core.min_pts,
        current_cluster: core.current_cluster,
        state: DbscanState::Expanding,
        seed_point: core.seed_point,
        neighbor_count: core.neighbor_count,
    }
}

/// Drops a seed that had too few neighbours: the controller returns to idle
/// with the same cluster id and parameters, the seed slot cleared and the
/// counter at zero.
pub fn mark_seed_as_noise(core: DbscanCore) -> (c: DbscanCore)
    ensures
        c == (DbscanCore {
            state: DbscanState::Idle,
            seed_point: invalid_point(),
            neighbor_count: 0,
            ..core
        }),
{
    DbscanCore {
        epsilon_sq: core.epsilon_sq,
        min_pts: core.min_pts,
        current_cluster: core.current_cluster,
        state: DbscanState::Idle,
        seed_point: Point3D::invalid(),
        neighbor_count: 0,
    }
}

} // verus!
