//! The trace of a clustering run: what happened, in order, and the final
//! report.
use vstd::prelude::*;
use crate::point::PointState;

verus! {

/// One entry of a clustering trace.
#[derive(Copy, Clone, Debug, PartialEq, Eq, Structural)]
pub enum FlowEvent {
    /// ECE took point `index` as the seed of its `ordinal`-th cluster, whose
    /// id is `cluster`.
    SeedFound { ordinal: usize, cluster: u8, index: usize },
    /// DBSCAN rejected seed `index`, which had `neighbors` neighbours.
    SeedIsNoise { index: usize, neighbors: u8 },
    /// DBSCAN accepted seed `index`, with `neighbors` neighbours, as the
    /// seed of its `ordinal`-th cluster, whose id is `cluster`.
    SeedIsCore { ordinal: usize, cluster: u8, index: usize, neighbors: u8 },
    /// Expansion pass number `pass` added `added` points to the cluster.
    Pass { pass: usize, added: usize },
    /// The `ordinal`-th cluster stopped growing.
    ClusterComplete { ordinal: usize },
    /// No valid unvisited point was left to seed a cluster.
    NoMoreSeeds,
}

/// The outcome of a clustering run.
pub struct FlowReport {
    /// The final state of every point, index for index.
    pub states: Vec<PointState>,
    /// What happened, in order.
    pub events: Vec<FlowEvent>,
    /// How many clusters were opened.
    pub clusters: usize,
    /// The run stopped because no valid unvisited point was left.
    pub exhausted: bool,
    /// Every cluster's growth ended in a pass that added nothing.
    pub converged: bool,
}

/// The trace `e2` extends the trace `e1`.
pub open spec fn extends(e1: Seq<FlowEvent>, e2: Seq<FlowEvent>) -> bool {
    e1.len() <= e2.len() && e2.subrange(0, e1.len() as int) == e1
}

/// Event `e` records point `i` as the seed of a cluster with id `c`.
pub open spec fn is_seed_event(e: FlowEvent, i: int, c: u8) -> bool {
    ||| e matches FlowEvent::SeedFound { cluster, index, .. } && cluster == c && index == i
    ||| e matches FlowEvent::SeedIsCore { cluster, index, .. } && cluster == c && index == i
}

/// The trace records point `i` as the seed of a cluster with id `c`.
pub open spec fn seed_recorded(events: Seq<FlowEvent>, i: int, c: u8) -> bool {
    exists|k: int| 0 <= k < events.len() && #[trigger] is_seed_event(events[k], i, c)
}

/// Extending a trace keeps every recorded seed.
pub proof fn lemma_seeds_kept(e1: Seq<FlowEvent>, e2: Seq<FlowEvent>)
    requires
        extends(e1, e2),
    ensures
        forall|i: int, c: u8| seed_recorded(e1, i, c) ==> #[trigger] seed_recorded(e2, i, c),
{
    assert forall|i: int, c: u8| seed_recorded(e1, i, c) implies #[trigger] seed_recorded(
        e2,
        i,
        c,
    ) by {
        let k = choose|k: int| 0 <= k < e1.len() && #[trigger] is_seed_event(e1[k], i, c);
        assert(e2.subrange(0, e1.len() as int)[k] == e2[k]);
        assert(is_seed_event(e2[k], i, c));
    }
}

/// The trace records point `i` as a rejected seed.
pub open spec fn noise_recorded(events: Seq<FlowEvent>, i: int) -> bool {
    exists|k: int|
        0 <= k < events.len() && (#[trigger] events[k] matches FlowEvent::SeedIsNoise { index, .. }
            && index == i)
}

} // verus!
