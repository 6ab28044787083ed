//! The segmentation wrapper: one core that holds both controllers and routes
//! each point to the one its mode selects.
use vstd::prelude::*;
use crate::point::{Point3D, PointState};
use crate::clustering_core::flag_tracks_change;
use crate::ece::expand_result;
use crate::ece::{EceCore, EceState, ece_step, ece_step_result, fresh_ece_core};
use crate::dbscan::{DbscanCore, DbscanState, dbscan_step, dbscan_step_result, fresh_dbscan_core};

verus! {

/// Which algorithm the wrapper runs.
#[derive(Copy, Clone, Debug, PartialEq, Eq, Structural)]
pub enum SegmentationMode {
    Ece,
    Dbscan,
}

impl Default for SegmentationMode {
    /// ECE is the default mode.
    fn default() -> (m: Self)
        ensures
            m == SegmentationMode::Ece,
    {
        SegmentationMode::Ece
    }
}

/// Both controllers and the mode that selects between them.
#[derive(Copy, Clone, Debug, PartialEq, Eq, Structural)]
pub struct SegmentationCore {
    pub mode: SegmentationMode,
    pub ece_core: EceCore,
    pub dbscan_core: DbscanCore,
}

impl SegmentationCore {
    /// A wrapper in ECE mode, both controllers fresh.
    pub fn new_ece(threshold_sq: u32, eps_sq: u32, min_pts: u8) -> (c: Self)
        ensures
            c.mode == SegmentationMode::Ece,
            c.ece_core == fresh_ece_core(threshold_sq),
            c.dbscan_core == fresh_dbscan_core(eps_sq, min_pts),
    {
        SegmentationCore {
            mode: SegmentationMode::Ece,
            ece_core: EceCore::new(threshold_sq),
            dbscan_core: DbscanCore::new(eps_sq, min_pts),
        }
    }

    /// A wrapper in DBSCAN mode, both controllers fresh.
    pub fn new_dbscan(threshold_sq: u32, eps_sq: u32, min_pts: u8) -> (c: Self)
        ensures
            c.mode == SegmentationMode::Dbscan,
            c.ece_core == fresh_ece_core(threshold_sq),
            c.dbscan_core == fresh_dbscan_core(eps_sq, min_pts),
    {
        SegmentationCore {
            mode: SegmentationMode::Dbscan,
            ece_core: EceCore::new(threshold_sq),
            dbscan_core: DbscanCore::new(eps_sq, min_pts),
        }
    }
}

/// What one wrapper step makes of `core` shown `p` in state `ps`: the
/// controller of the current mode steps, the other one is left as it was.
pub open spec fn segmentation_step_result(core: SegmentationCore, p: Point3D, ps: PointState) -> (SegmentationCore, PointState, bool) {
    match core.mode {
        SegmentationMode::Ece => {
            let e = ece_step_result(core.ece_core, p, ps);
            (SegmentationCore { ece_core: e.0, ..core }, e.1, e.2)
        },
        SegmentationMode::Dbscan => {
            let d = dbscan_step_result(core.dbscan_core, p, ps);
            (SegmentationCore { dbscan_core: d.0, ..core }, d.1, d.2)
        },
    }
}

/// A wrapper step never changes the mode and leaves the controller of the
/// other mode as it was.
pub proof fn lemma_step_keeps_mode_and_other_controller(core: SegmentationCore, p: Point3D, ps: PointState)
    ensures
        ({
            let r = segmentation_step_result(core, p, ps);
            &&& r.0.mode == core.mode
            &&& core.mode == SegmentationMode::Ece ==> r.0.dbscan_core == core.dbscan_core
            &&& core.mode == SegmentationMode::Dbscan ==> r.0.ece_core == core.ece_core
        }),
{
}

/// A wrapper step, in either mode, changes a point's state only when the
/// point is valid and unvisited, and its flag says exactly whether the state
/// changed.
pub proof fn lemma_step_changes_only_open_points(core: SegmentationCore, p: Point3D, ps: PointState)
    ensures
        ({
            let r = segmentation_step_result(core, p, ps);
            flag_tracks_change(p, ps, r.1, r.2)
        }),
{
}

/// An expansion step (`ece_expand` or `dbscan_expand`) changes the test
/// point's state only when it is valid and unvisited, only into the current
/// cluster, and its flag says exactly whether the state changed.
pub proof fn lemma_expand_changes_only_open_points(
    radius_sq: u32,
    cluster: u8,
    test_point: Point3D,
    test_state: PointState,
    reference_point: Point3D,
    reference_state: PointState,
)
    ensures
        ({
            let r = expand_result(radius_sq, cluster, test_point, test_state, reference_point, reference_state);
            &&& flag_tracks_change(test_point, test_state, r.0, r.1)
            &&& r.0 != test_state ==> r.0 == PointState::Clustered(cluster)
        }),
{
}

/// A wrapper step gives the point the state and flag that the seed step of
/// the controller of its mode gives it, and leaves in that slot the
/// controller that step returns. In ECE mode with a growing controller this
/// means nothing changes at all: the wrapper never grows a cluster itself.
/// In DBSCAN mode, only an idle controller changes a point's state.
pub proof fn lemma_step_is_the_mode_controller_step(core: SegmentationCore, p: Point3D, ps: PointState)
    ensures
        ({
            let r = segmentation_step_result(core, p, ps);
            &&& core.mode == SegmentationMode::Ece ==> {
                let e = ece_step_result(core.ece_core, p, ps);
                &&& r.0.ece_core == e.0
                &&& r.1 == e.1
                &&& r.2 == e.2
            }
            &&& core.mode == SegmentationMode::Dbscan ==> {
                let d = dbscan_step_result(core.dbscan_core, p, ps);
                &&& r.0.dbscan_core == d.0
                &&& r.1 == d.1
                &&& r.2 == d.2
            }
            &&& core.mode == SegmentationMode::Ece && core.ece_core.state == EceState::Growing ==> r == (
                core,
                ps,
                false,
            )
            &&& core.mode == SegmentationMode::Dbscan && core.dbscan_core.state != DbscanState::Idle
                ==> r.1 == ps && !r.2
        }),
{
}

/// Routes one point to the controller of the current mode. The other
/// controller is left as it was; the mode never changes. The result is the
/// new wrapper, the new state of the point and the controller's flag.
pub fn segmentation_step(core: SegmentationCore, input_point: Point3D, input_state: PointState) -> (r: (
    SegmentationCore,
    PointState,
    bool,
))
    ensures
        r == segmentation_step_result(core, input_point, input_state),
        core.mode == SegmentationMode::Ece && core.ece_core.state == EceState::Growing ==> r == (
            core,
            input_state,
            false,
        ),
        core.mode == SegmentationMode::Dbscan && core.dbscan_core.state != DbscanState::Idle ==> r.1
            == input_state && !r.2,
{
    match core.mode {
        SegmentationMode::Ece => {
            let (new_ece, new_state, modified) = ece_step(core.ece_core, input_point, input_state);
            (
                SegmentationCore {
                    mode: core.mode,
                    ece_core: new_ece,
                    dbscan_core: core.dbscan_core,
                },
                new_state,
                modified,
            )
        },
        SegmentationMode::Dbscan => {
            let (new_dbscan, new_state, modified) = dbscan_step(
                core.dbscan_core,
                input_point,
                input_state,
            );
            (
                SegmentationCore {
                    mode: core.mode,
                    ece_core: core.ece_core,
                    dbscan_core: new_dbscan,
                },
                new_state,
                modified,
            )
        },
    }
}

} // verus!
