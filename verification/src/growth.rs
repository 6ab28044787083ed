//! Growing one cluster: finding a seed, expansion passes, and the
//! bookkeeping on point states that the drivers share.
use vstd::prelude::*;
use crate::point::{Point3D, PointState};
use crate::distance::within;
use crate::ece::{ece_expand, joins_cluster, EceState};
use crate::dbscan::{dbscan_expand, DbscanState};
use crate::segmentation::{SegmentationCore, SegmentationMode, segmentation_step, segmentation_step_result};
use crate::trace::{FlowEvent, extends};

verus! {

/// Point `k` is valid and still unvisited.
pub open spec fn open_point(points: Seq<Point3D>, states: Seq<PointState>, k: int) -> bool {
    points[k].valid && states[k] == PointState::Unvisited
}

/// Point `k` lies within the radius of some other valid point of cluster `c`.
pub open spec fn linked_to(
    radius_sq: u32,
    c: u8,
    points: Seq<Point3D>,
    states: Seq<PointState>,
    k: int,
) -> bool {
    exists|r: int|
        #![trigger states[r]]
        0 <= r < points.len() && r != k && points[r].valid && states[r] == PointState::Clustered(c)
            && within(points[k], points[r], radius_sq)
}

/// `after` grows from `before` by adding points to cluster `c`: every point keeps
/// its state, except valid unvisited points that joined `c` through another
/// point of `c` within the radius.
pub open spec fn grows_into(
    radius_sq: u32,
    c: u8,
    points: Seq<Point3D>,
    before: Seq<PointState>,
    after: Seq<PointState>,
) -> bool {
    &&& after.len() == before.len()
    &&& forall|k: int|
        0 <= k < before.len() ==> #[trigger] after[k] == before[k] || (before[k] == PointState::Unvisited
            && points[k].valid && after[k] == PointState::Clustered(c) && linked_to(
            radius_sq,
            c,
            points,
            after,
            k,
        ))
}

/// No valid unvisited point lies within the radius of a valid point of
/// cluster `c`: the cluster cannot grow any further.
pub open spec fn cluster_is_closed(
    radius_sq: u32,
    c: u8,
    points: Seq<Point3D>,
    states: Seq<PointState>,
) -> bool {
    forall|t: int, r: int|
        #![trigger states[t], states[r]]
        0 <= t < points.len() && 0 <= r < points.len() && t != r && open_point(points, states, t)
            && points[r].valid && states[r] == PointState::Clustered(c) ==> !within(
            points[t],
            points[r],
            radius_sq,
        )
}

/// The active controller of the wrapper is looking for a seed.
pub open spec fn seeking(core: SegmentationCore) -> bool {
    ||| core.mode == SegmentationMode::Ece && core.ece_core.state == EceState::Idle
    ||| core.mode == SegmentationMode::Dbscan && core.dbscan_core.state == DbscanState::Idle
}

/// A point stays linked to cluster `c` as long as no point of `c` changes.
pub proof fn lemma_linked_kept(
    radius_sq: u32,
    c: u8,
    points: Seq<Point3D>,
    s1: Seq<PointState>,
    s2: Seq<PointState>,
    k: int,
)
    requires
        linked_to(radius_sq, c, points, s1, k),
        s1.len() == points.len(),
        s2.len() == points.len(),
        forall|m: int| 0 <= m < s1.len() && s1[m] == PointState::Clustered(c) ==> s2[m] == s1[m],
    ensures
        linked_to(radius_sq, c, points, s2, k),
{
    let r = choose|r: int|
        #![trigger s1[r]]
        0 <= r < points.len() && r != k && points[r].valid && s1[r] == PointState::Clustered(c)
            && within(points[k], points[r], radius_sq);
    assert(s2[r] == s1[r]);
}

/// Growth into the same cluster composes.
proof fn lemma_grows_into_trans(
    radius_sq: u32,
    c: u8,
    points: Seq<Point3D>,
    a: Seq<PointState>,
    b: Seq<PointState>,
    d: Seq<PointState>,
)
    requires
        a.len() == points.len(),
        grows_into(radius_sq, c, points, a, b),
        grows_into(radius_sq, c, points, b, d),
    ensures
        grows_into(radius_sq, c, points, a, d),
{
    assert forall|m: int| 0 <= m < b.len() && b[m] == PointState::Clustered(c) implies d[m]
        == b[m] by {
        assert(d[m] == b[m]);
    }
    assert forall|k: int| 0 <= k < a.len() implies #[trigger] d[k] == a[k] || (a[k]
        == PointState::Unvisited && points[k].valid && d[k] == PointState::Clustered(c)
        && linked_to(radius_sq, c, points, d, k)) by {
        if b[k] != a[k] {
            assert(d[k] == b[k]);
            lemma_linked_kept(radius_sq, c, points, b, d, k);
        }
    }
}

/// The index of the first valid unvisited point, or -1 when there is none.
pub open spec fn first_open(points: Seq<Point3D>, states: Seq<PointState>) -> int {
    if exists|k: int| 0 <= k < points.len() && open_point(points, states, k) {
        choose|k: int|
            0 <= k < points.len() && open_point(points, states, k) && forall|j: int|
                0 <= j < k ==> !open_point(points, states, j)
    } else {
        -1
    }
}

/// Where some point is open, a first open point exists.
proof fn lemma_first_open_exists(points: Seq<Point3D>, states: Seq<PointState>, i: int)
    requires
        0 <= i < points.len(),
        open_point(points, states, i),
    ensures
        exists|f: int|
            0 <= f < points.len() && open_point(points, states, f) && forall|j: int|
                0 <= j < f ==> !open_point(points, states, j),
    decreases i,
{
    if exists|j: int| 0 <= j < i && open_point(points, states, j) {
        let j = choose|j: int| 0 <= j < i && open_point(points, states, j);
        lemma_first_open_exists(points, states, j);
    }
}

/// A non-negative `first_open` is the index of a valid unvisited point.
pub proof fn lemma_first_open_is_open(points: Seq<Point3D>, states: Seq<PointState>)
    ensures
        first_open(points, states) >= 0 ==> 0 <= first_open(points, states) < points.len()
            && open_point(points, states, first_open(points, states)),
{
    if exists|k: int| 0 <= k < points.len() && open_point(points, states, k) {
        let k = choose|k: int| 0 <= k < points.len() && open_point(points, states, k);
        lemma_first_open_exists(points, states, k);
    }
}

/// `first_open` is the least index of a valid unvisited point, or -1 when
/// there is none.
pub proof fn lemma_first_open(points: Seq<Point3D>, states: Seq<PointState>, s: int)
    ensures
        s == -1 && (forall|k: int| 0 <= k < points.len() ==> !open_point(points, states, k))
            ==> first_open(points, states) == -1,
        0 <= s < points.len() && open_point(points, states, s) && (forall|k: int|
            0 <= k < s ==> !open_point(points, states, k)) ==> first_open(points, states) == s,
{
    if 0 <= s < points.len() && open_point(points, states, s) && (forall|k: int|
        0 <= k < s ==> !open_point(points, states, k)) {
        lemma_first_open_exists(points, states, s);
        let f = first_open(points, states);
        if f < s {
            assert(!open_point(points, states, f));
        }
        if s < f {
            assert(!open_point(points, states, s));
        }
    }
}

/// Scans the cloud in order and shows each point to the wrapper until its
/// active controller takes one as a seed; that point's state is updated.
/// Returns the wrapper and the index of the seed, or `None` when no valid
/// unvisited point is left (then nothing changes).
pub fn find_seed(core: SegmentationCore, points: &Vec<Point3D>, states: &mut Vec<PointState>) -> (r: (
    SegmentationCore,
    Option<usize>,
))
    requires
        seeking(core),
        old(states).len() == points.len(),
    ensures
        final(states).len() == points.len(),
        r.1 is None ==> r.0 == core && final(states)@ == old(states)@ && forall|k: int|
            0 <= k < points.len() ==> !open_point(points@, old(states)@, k),
        r.1 matches Some(s) ==> {
            &&& s < points.len()
            &&& open_point(points@, old(states)@, s as int)
            &&& forall|k: int| 0 <= k < s ==> !open_point(points@, old(states)@, k)
            &&& ({
                let st = segmentation_step_result(core, points@[s as int], PointState::Unvisited);
                r.0 == st.0 && final(states)@ == old(states)@.update(s as int, st.1)
            })
        },
{
    let mut c = core;
    let n = points.len();
    let mut i: usize = 0;
    while i < n
        invariant
            n == points.len(),
            states@ == old(states)@,
            states.len() == n,
            c == core,
            seeking(core),
            0 <= i <= n,
            forall|k: int| 0 <= k < i ==> !open_point(points@, states@, k),
        decreases n - i,
    {
        let (new_core, new_state, modified) = segmentation_step(c, points[i], states[i]);
        c = new_core;
        if modified && new_state != states[i] {
            states.set(i, new_state);
            return (c, Some(i));
        }
        i += 1;
    }
    (c, None)
}

/// Looks, in index order, for a point through which point `i` joins
/// `cluster` by the expansion kernel (`dbscan_expand` when `dbscan` is set,
/// `ece_expand` otherwise); returns the first one found.
fn find_reference(
    radius_sq: u32,
    cluster: u8,
    points: &Vec<Point3D>,
    states: &Vec<PointState>,
    i: usize,
    dbscan: bool,
) -> (r: Option<usize>)
    requires
        i < points.len(),
        states.len() == points.len(),
    ensures
        r matches Some(j) ==> j < points.len() && j != i && joins_cluster(
            radius_sq,
            cluster,
            points@[i as int],
            states@[i as int],
            points@[j as int],
            states@[j as int],
        ),
        r is None ==> forall|j: int|
            0 <= j < points.len() && j != i ==> !joins_cluster(
                radius_sq,
                cluster,
                points@[i as int],
                states@[i as int],
                #[trigger] points@[j],
                states@[j],
            ),
{
    let n = points.len();
    let mut j: usize = 0;
    while j < n
        invariant
            n == points.len(),
            states.len() == n,
            i < n,
            0 <= j <= n,
            forall|k: int|
                0 <= k < j && k != i ==> !joins_cluster(
                    radius_sq,
                    cluster,
                    points@[i as int],
                    states@[i as int],
                    #[trigger] points@[k],
                    states@[k],
                ),
        decreases n - j,
    {
        if i == j || !points[j].valid {
            j += 1;
            continue;
        }
        let (new_state, modified) = if dbscan {
            dbscan_expand(radius_sq, cluster, points[i], states[i], points[j], states[j])
        } else {
            ece_expand(radius_sq, cluster, points[i], states[i], points[j], states[j])
        };
        if modified && new_state != states[i] {
            return Some(j);
        }
        j += 1;
    }
    None
}

/// Point `k` joins `c` in a pass that has reached it with states `s`: it is
/// valid and unvisited, and some other point lets it join by the expansion
/// kernel.
pub open spec fn joins_now(radius_sq: u32, c: u8, points: Seq<Point3D>, s: Seq<PointState>, k: int) -> bool {
    open_point(points, s, k) && exists|r: int|
        0 <= r < points.len() && r != k && #[trigger] joins_cluster(
            radius_sq,
            c,
            points[k],
            s[k],
            points[r],
            s[r],
        )
}

/// The states and the count of joined points after an expansion pass has
/// gone through the points with index below `k`, starting from `s0`.
pub open spec fn pass_prefix(radius_sq: u32, c: u8, points: Seq<Point3D>, s0: Seq<PointState>, k: int) -> (Seq<PointState>, nat)
    decreases k,
{
    if k <= 0 {
        (s0, 0)
    } else {
        let prev = pass_prefix(radius_sq, c, points, s0, k - 1);
        if joins_now(radius_sq, c, points, prev.0, k - 1) {
            (prev.0.update(k - 1, PointState::Clustered(c)), prev.1 + 1)
        } else {
            prev
        }
    }
}

/// The states after a whole expansion pass for cluster `c`, and how many
/// points joined.
pub open spec fn pass_result(radius_sq: u32, c: u8, points: Seq<Point3D>, s0: Seq<PointState>) -> (Seq<PointState>, nat) {
    pass_prefix(radius_sq, c, points, s0, points.len() as int)
}

/// One expansion pass: every valid unvisited point, in index order, joins
/// `cluster` when the expansion kernel finds a reference point for it among
/// the states as they stand at that moment. Returns how many points joined.
///
/// The new states grow from the old ones into `cluster`; a pass that adds
/// nothing leaves the states as they were and finds `cluster` closed.
pub fn expansion_pass(
    radius_sq: u32,
    cluster: u8,
    points: &Vec<Point3D>,
    states: &mut Vec<PointState>,
    dbscan: bool,
) -> (added: usize)
    requires
        old(states).len() == points.len(),
    ensures
        (final(states)@, added as nat) == pass_result(radius_sq, cluster, points@, old(states)@),
        grows_into(radius_sq, cluster, points@, old(states)@, final(states)@),
        added <= points.len(),
        added == 0 <==> final(states)@ == old(states)@,
        added == 0 ==> cluster_is_closed(radius_sq, cluster, points@, final(states)@),
{
    let n = points.len();
    let mut added: usize = 0;
    let mut i: usize = 0;
    while i < n
        invariant
            n == points.len(),
            old(states).len() == n,
            0 <= i <= n,
            added <= i,
            (states@, added as nat) == pass_prefix(radius_sq, cluster, points@, old(states)@, i as int),
            grows_into(radius_sq, cluster, points@, old(states)@, states@),
            added == 0 <==> states@ == old(states)@,
            forall|k: int| 0 <= k < n && i <= k ==> states@[k] == old(states)@[k],
            added == 0 ==> forall|t: int, r: int|
                #![trigger states@[t], states@[r]]
                0 <= t < i && 0 <= r < n && t != r && open_point(points@, states@, t)
                    && points@[r].valid && states@[r] == PointState::Clustered(cluster) ==> !within(
                    points@[t],
                    points@[r],
                    radius_sq,
                ),
        decreases n - i,
    {
        if !points[i].valid || states[i] != PointState::Unvisited {
            i += 1;
            continue;
        }
        match find_reference(radius_sq, cluster, points, states, i, dbscan) {
            Some(j) => {
                let ghost before = states@;
                states.set(i, PointState::Clustered(cluster));
                proof {
                    let after = states@;
                    assert(after[j as int] == before[j as int]);
                    assert(linked_to(radius_sq, cluster, points@, after, i as int));
                    assert forall|m: int|
                        0 <= m < before.len() && before[m] == PointState::Clustered(
                            cluster,
                        ) implies after[m] == before[m] by {}
                    assert forall|k: int| 0 <= k < n implies #[trigger] after[k] == old(
                        states,
                    )@[k] || (old(states)@[k] == PointState::Unvisited && points@[k].valid
                        && after[k] == PointState::Clustered(cluster) && linked_to(
                        radius_sq,
                        cluster,
                        points@,
                        after,
                        k,
                    )) by {
                        if k != i && before[k] != old(states)@[k] {
                            lemma_linked_kept(radius_sq, cluster, points@, before, after, k);
                        }
                    }
                    assert(after[i as int] != old(states)@[i as int]);
                }
                added += 1;
            },
            None => {},
        }
        i += 1;
    }
    added
}

/// What growing cluster `c` from states `s0` by up to `passes` expansion
/// passes, numbered from `first_pass`, yields: the final states, the pass
/// events, and whether the growth ended in a pass that added nothing.
pub open spec fn grow_result(
    radius_sq: u32,
    c: u8,
    points: Seq<Point3D>,
    s0: Seq<PointState>,
    passes: int,
    first_pass: int,
) -> (Seq<PointState>, Seq<FlowEvent>, bool)
    decreases passes,
{
    if passes <= 0 {
        (s0, Seq::empty(), false)
    } else {
        let (s1, added) = pass_result(radius_sq, c, points, s0);
        let ev = FlowEvent::Pass { pass: first_pass as usize, added: added as usize };
        if added == 0 {
            (s1, seq![ev], true)
        } else {
            let rest = grow_result(radius_sq, c, points, s1, passes - 1, first_pass + 1);
            (rest.0, seq![ev] + rest.1, rest.2)
        }
    }
}

/// Grows `cluster` by expansion passes until a pass adds nothing or
/// `max_passes` passes have run. Each pass is recorded in `events`. Returns
/// whether the growth ended in a pass that added nothing.
pub(crate) fn grow_cluster(
    radius_sq: u32,
    cluster: u8,
    points: &Vec<Point3D>,
    states: &mut Vec<PointState>,
    max_passes: usize,
    dbscan: bool,
    events: &mut Vec<FlowEvent>,
) -> (quiet: bool)
    requires
        old(states).len() == points.len(),
    ensures
        ({
            let g = grow_result(radius_sq, cluster, points@, old(states)@, max_passes as int, 0);
            &&& final(states)@ == g.0
            &&& final(events)@ == old(events)@ + g.1
            &&& quiet == g.2
        }),
        grows_into(radius_sq, cluster, points@, old(states)@, final(states)@),
        quiet ==> cluster_is_closed(radius_sq, cluster, points@, final(states)@),
        extends(old(events)@, final(events)@),
        forall|k: int|
            old(events)@.len() <= k < final(events)@.len() ==> #[trigger] final(events)@[k] is Pass,
{
    let mut pass: usize = 0;
    assert(events@.subrange(0, events@.len() as int) =~= events@);
    while pass < max_passes
        invariant
            old(states).len() == points.len(),
            pass <= max_passes,
            ({
                let g = grow_result(radius_sq, cluster, points@, old(states)@, max_passes as int, 0);
                let h = grow_result(
                    radius_sq,
                    cluster,
                    points@,
                    states@,
                    max_passes - pass,
                    pass as int,
                );
                &&& g.0 == h.0
                &&& old(events)@ + g.1 == events@ + h.1
                &&& g.2 == h.2
            }),
            grows_into(radius_sq, cluster, points@, old(states)@, states@),
            extends(old(events)@, events@),
            forall|k: int| old(events)@.len() <= k < events@.len() ==> #[trigger] events@[k] is Pass,
        decreases max_passes - pass,
    {
        let ghost before = states@;
        let added = expansion_pass(radius_sq, cluster, points, states, dbscan);
        proof {
            lemma_grows_into_trans(radius_sq, cluster, points@, old(states)@, before, states@);
        }
        let ghost ev_before = events@;
        events.push(FlowEvent::Pass { pass, added });
        proof {
            let h = grow_result(radius_sq, cluster, points@, before, max_passes - pass, pass as int);
            let h2 = grow_result(
                radius_sq,
                cluster,
                points@,
                states@,
                max_passes - pass - 1,
                pass + 1,
            );
            if added != 0 {
                assert(h.1 == seq![FlowEvent::Pass { pass, added }] + h2.1);
                assert(ev_before + h.1 =~= events@ + h2.1);
            } else {
                assert(ev_before + h.1 =~= events@ + Seq::<FlowEvent>::empty());
            }
        }
        assert(events@.subrange(0, old(events)@.len() as int) =~= ev_before.subrange(
            0,
            old(events)@.len() as int,
        ));
        if added == 0 {
            return true;
        }
        pass += 1;
    }
    false
}

/// Number of entries of `states` equal to `v`.
pub open spec fn count_state(states: Seq<PointState>, v: PointState) -> nat
    decreases states.len(),
{
    if states.len() == 0 {
        0
    } else {
        count_state(states.drop_last(), v) + if states.last() == v {
            1nat
        } else {
            0nat
        }
    }
}

/// How the count of a state changes when one entry is overwritten.
pub proof fn lemma_count_state_update(states: Seq<PointState>, i: int, w: PointState, v: PointState)
    requires
        0 <= i < states.len(),
    ensures
        count_state(states.update(i, w), v) + (if states[i] == v {
            1int
        } else {
            0int
        }) == count_state(states, v) + (if w == v {
            1int
        } else {
            0int
        }),
    decreases states.len(),
{
    let u = states.update(i, w);
    if i == states.len() - 1 {
        assert(u.drop_last() == states.drop_last());
    } else {
        assert(u.drop_last() == states.drop_last().update(i, w));
        lemma_count_state_update(states.drop_last(), i, w, v);
    }
}

/// Counts the points whose state is `Clustered(cluster)`.
pub fn cluster_size(states: &Vec<PointState>, cluster: u8) -> (size: usize)
    ensures
        size == count_state(states@, PointState::Clustered(cluster)),
{
    let n = states.len();
    let mut size: usize = 0;
    let mut i: usize = 0;
    while i < n
        invariant
            n == states.len(),
            0 <= i <= n,
            size <= i,
            size == count_state(states@.subrange(0, i as int), PointState::Clustered(cluster)),
        decreases n - i,
    {
        assert(states@.subrange(0, i + 1).drop_last() == states@.subrange(0, i as int));
        if states[i] == PointState::Clustered(cluster) {
            size += 1;
        }
        i += 1;
    }
    assert(states@.subrange(0, n as int) == states@);
    size
}

/// `s` with every point of cluster `c` turned into noise.
pub open spec fn noise_marked(s: Seq<PointState>, c: u8) -> Seq<PointState> {
    Seq::new(
        s.len(),
        |k: int|
            if s[k] == PointState::Clustered(c) {
                PointState::Noise
            } else {
                s[k]
            },
    )
}

/// Turns every point of `cluster` into noise.
pub fn mark_cluster_as_noise(states: &mut Vec<PointState>, cluster: u8)
    ensures
        final(states)@ == noise_marked(old(states)@, cluster),
        final(states).len() == old(states).len(),
        forall|k: int|
            0 <= k < old(states).len() ==> #[trigger] final(states)@[k] == if old(states)@[k]
                == PointState::Clustered(cluster) {
                PointState::Noise
            } else {
                old(states)@[k]
            },
{
    let n = states.len();
    let mut i: usize = 0;
    while i < n
        invariant
            n == states.len(),
            n == old(states).len(),
            0 <= i <= n,
            forall|k: int|
                0 <= k < n ==> #[trigger] states@[k] == if k < i && old(states)@[k]
                    == PointState::Clustered(cluster) {
                    PointState::Noise
                } else {
                    old(states)@[k]
                },
        decreases n - i,
    {
        if states[i] == PointState::Clustered(cluster) {
            states.set(i, PointState::Noise);
        }
        i += 1;
    }
    assert(states@ =~= noise_marked(old(states)@, cluster));
}

/// Every point unvisited.
pub open spec fn all_unvisited(n: nat) -> Seq<PointState> {
    Seq::new(n, |k: int| PointState::Unvisited)
}

} // verus!
