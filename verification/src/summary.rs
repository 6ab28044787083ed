//! Tallies of clustering results.
use vstd::prelude::*;
use crate::point::{Point3D, PointState};
use std::collections::HashMap;

verus! {

broadcast use vstd::std_specs::hash::group_hash_axioms;

/// Number of points with index below `k` that are valid and whose state
/// satisfies `pred`.
pub open spec fn count_valid_where(
    points: Seq<Point3D>,
    states: Seq<PointState>,
    pred: spec_fn(PointState) -> bool,
    k: int,
) -> nat
    decreases k,
{
    if k <= 0 {
        0
    } else {
        count_valid_where(points, states, pred, k - 1) + if points[k - 1].valid && pred(
            states[k - 1],
        ) {
            1nat
        } else {
            0nat
        }
    }
}

/// Number of entries of `states` with index below `k` that satisfy `pred`.
pub open spec fn count_where(states: Seq<PointState>, pred: spec_fn(PointState) -> bool, k: int) -> nat
    decreases k,
{
    if k <= 0 {
        0
    } else {
        count_where(states, pred, k - 1) + if pred(states[k - 1]) {
            1nat
        } else {
            0nat
        }
    }
}

/// The point is in some cluster.
pub open spec fn is_clustered(s: PointState) -> bool {
    s is Clustered
}

/// The point is noise.
pub open spec fn is_noise(s: PointState) -> bool {
    s == PointState::Noise
}

/// The point is visited.
pub open spec fn is_visited(s: PointState) -> bool {
    s == PointState::Visited
}

/// The point is unvisited.
pub open spec fn is_unvisited(s: PointState) -> bool {
    s == PointState::Unvisited
}

/// The point is in cluster `c`.
pub open spec fn in_cluster(c: u8) -> spec_fn(PointState) -> bool {
    |s: PointState| s == PointState::Clustered(c)
}

/// Counts the states by kind: `(clustered, noise, visited, unvisited)`.
pub fn summarize_states(states: &Vec<PointState>) -> (r: (usize, usize, usize, usize))
    ensures
        r.0 == count_where(states@, |s: PointState| is_clustered(s), states.len() as int),
        r.1 == count_where(states@, |s: PointState| is_noise(s), states.len() as int),
        r.2 == count_where(states@, |s: PointState| is_visited(s), states.len() as int),
        r.3 == count_where(states@, |s: PointState| is_unvisited(s), states.len() as int),
        r.0 + r.1 + r.2 + r.3 == states.len(),
{
    let n = states.len();
    let mut clustered: usize = 0;
    let mut noise: usize = 0;
    let mut visited: usize = 0;
    let mut unvisited: usize = 0;
    let mut i: usize = 0;
    while i < n
        invariant
            n == states.len(),
            0 <= i <= n,
            clustered + noise + visited + unvisited == i,
            clustered == count_where(states@, |s: PointState| is_clustered(s), i as int),
            noise == count_where(states@, |s: PointState| is_noise(s), i as int),
            visited == count_where(states@, |s: PointState| is_visited(s), i as int),
            unvisited == count_where(states@, |s: PointState| is_unvisited(s), i as int),
        decreases n - i,
    {
        match states[i] {
            PointState::Clustered(_) => clustered += 1,
            PointState::Noise => noise += 1,
            PointState::Visited => visited += 1,
            PointState::Unvisited => unvisited += 1,
        }
        i += 1;
    }
    (clustered, noise, visited, unvisited)
}

/// Per-cluster sizes and per-kind counts over the valid points of a cloud.
pub struct ClusterSummary {
    /// `(id, size)` for every cluster id held by at least one valid point,
    /// in increasing order of id.
    pub sizes: Vec<(u8, usize)>,
    pub noise: usize,
    pub unvisited: usize,
    pub visited: usize,
}

/// Tallies the result of a run over the valid points that have a state: the
/// size of every cluster that has such points, in order of id, and how many
/// of them are noise, unvisited and visited. Invalid points are not counted,
/// and neither are the points past the end of `states`.
///
/// Sizes are counted in a map keyed by the cluster id; the ids are then read
/// back from the map in increasing order (ids are 8 bits wide, so there are
/// 256 to ask for).
pub fn cluster_summary(points: &Vec<Point3D>, states: &Vec<PointState>) -> (r: ClusterSummary)
    requires
        states.len() <= points.len(),
    ensures
        r.noise == count_valid_where(points@, states@, |s: PointState| is_noise(s), states.len() as int),
        r.unvisited == count_valid_where(
            points@,
            states@,
            |s: PointState| is_unvisited(s),
            states.len() as int,
        ),
        r.visited == count_valid_where(
            points@,
            states@,
            |s: PointState| is_visited(s),
            states.len() as int,
        ),
        forall|k: int|
            0 <= k < r.sizes.len() ==> #[trigger] r.sizes@[k].1 == count_valid_where(
                points@,
                states@,
                in_cluster(r.sizes@[k].0),
                states.len() as int,
            ) && r.sizes@[k].1 > 0,
        forall|a: int, b: int|
            0 <= a < b < r.sizes.len() ==> #[trigger] r.sizes@[a].0 < #[trigger] r.sizes@[b].0,
        forall|c: u8|
            count_valid_where(points@, states@, in_cluster(c), states.len() as int) > 0 ==> exists|
                k: int,
            |
                0 <= k < r.sizes.len() && #[trigger] r.sizes@[k].0 == c,
{
    let n = states.len();
    // Points per cluster id, keyed by the id.
    let mut per_id: HashMap<u64, usize> = HashMap::new();
    let mut noise: usize = 0;
    let mut unvisited: usize = 0;
    let mut visited: usize = 0;
    let mut i: usize = 0;
    while i < n
        invariant
            n == states.len(),
            n <= points.len(),
            0 <= i <= n,
            noise <= i,
            unvisited <= i,
            visited <= i,
            forall|m: u64| #[trigger] per_id@.contains_key(m) ==> m < 256,
            forall|m: int|
                0 <= m < 256 ==> (#[trigger] per_id@.contains_key(m as u64) <==> count_valid_where(
                    points@,
                    states@,
                    in_cluster(m as u8),
                    i as int,
                ) > 0),
            forall|m: int|
                0 <= m < 256 && #[trigger] per_id@.contains_key(m as u64) ==> per_id@[m as u64]
                    == count_valid_where(points@, states@, in_cluster(m as u8), i as int)
                    && per_id@[m as u64] <= i,
            noise == count_valid_where(points@, states@, |s: PointState| is_noise(s), i as int),
            unvisited == count_valid_where(points@, states@, |s: PointState| is_unvisited(s), i as int),
            visited == count_valid_where(points@, states@, |s: PointState| is_visited(s), i as int),
        decreases n - i,
    {
        let ghost before = per_id@;
        if points[i].valid {
            match states[i] {
                PointState::Clustered(id) => {
                    let key = id as u64;
                    let count = match per_id.get(&key) {
                        Some(v) => *v,
                        None => 0,
                    };
                    per_id.insert(key, count + 1);
                    proof {
                        assert forall|m: int|
                            0 <= m < 256 implies (#[trigger] per_id@.contains_key(m as u64)
                            <==> count_valid_where(
                                points@,
                                states@,
                                in_cluster(m as u8),
                                i + 1,
                            ) > 0) by {
                            assert((m as u8 == id) == (m as u64 == key));
                            if m as u64 != key {
                                assert(before.contains_key(m as u64) == per_id@.contains_key(m as u64));
                            }
                        }
                        assert forall|m: int|
                            0 <= m < 256 && #[trigger] per_id@.contains_key(m as u64) implies per_id@[m
                                as u64] == count_valid_where(
                                points@,
                                states@,
                                in_cluster(m as u8),
                                i + 1,
                            ) && per_id@[m as u64] <= i + 1 by {
                            assert((m as u8 == id) == (m as u64 == key));
                        }
                    }
                },
                PointState::Noise => noise += 1,
                PointState::Unvisited => unvisited += 1,
                PointState::Visited => visited += 1,
            }
        }
        proof {
            if !(points@[i as int].valid && states@[i as int] is Clustered) {
                assert(per_id@ == before);
                assert forall|m: int|
                    0 <= m < 256 implies #[trigger] count_valid_where(
                        points@,
                        states@,
                        in_cluster(m as u8),
                        i + 1,
                    ) == count_valid_where(points@, states@, in_cluster(m as u8), i as int) by {
                    assert(!in_cluster(m as u8)(states@[i as int]) || !points@[i as int].valid);
                }
            }
        }
        i += 1;
    }
    // Sizes in increasing order of id, read back from the map.
    let mut sizes: Vec<(u8, usize)> = Vec::new();
    let mut c: u64 = 0;
    while c < 256
        invariant
            n == states.len(),
            n <= points.len(),
            0 <= c <= 256,
            forall|m: int|
                0 <= m < 256 ==> (#[trigger] per_id@.contains_key(m as u64) <==> count_valid_where(
                    points@,
                    states@,
                    in_cluster(m as u8),
                    n as int,
                ) > 0),
            forall|m: int|
                0 <= m < 256 && #[trigger] per_id@.contains_key(m as u64) ==> per_id@[m as u64]
                    == count_valid_where(points@, states@, in_cluster(m as u8), n as int),
            forall|k: int|
                0 <= k < sizes.len() ==> #[trigger] sizes@[k].1 == count_valid_where(
                    points@,
                    states@,
                    in_cluster(sizes@[k].0),
                    n as int,
                ) && sizes@[k].1 > 0 && sizes@[k].0 < c,
            forall|a: int, b: int|
                0 <= a < b < sizes.len() ==> #[trigger] sizes@[a].0 < #[trigger] sizes@[b].0,
            forall|m: u8|
                m < c && count_valid_where(points@, states@, in_cluster(m), n as int) > 0
                    ==> exists|k: int| 0 <= k < sizes.len() && #[trigger] sizes@[k].0 == m,
        decreases 256 - c,
    {
        let ghost cm = c as int;
        match per_id.get(&c) {
            Some(count) => {
                let count = *count;
                let ghost before = sizes@;
                sizes.push((c as u8, count));
                proof {
                    assert(per_id@.contains_key(cm as u64));
                    assert forall|a: int, b: int|
                        0 <= a < b < sizes.len() implies #[trigger] sizes@[a].0 < #[trigger] sizes@[b].0 by {
                        assert(sizes@[a] == before[a]);
                        assert(before[a].1 > 0);
                        if b < before.len() {
                            assert(sizes@[b] == before[b]);
                        }
                    }
                    assert forall|m: u8|
                        m < c + 1 && count_valid_where(points@, states@, in_cluster(m), n as int) > 0
                            implies exists|k: int| 0 <= k < sizes.len() && #[trigger] sizes@[k].0 == m by {
                        if m < c {
                            let k = choose|k: int| 0 <= k < before.len() && #[trigger] before[k].0 == m;
                            assert(sizes@[k] == before[k]);
                        } else {
                            assert(sizes@[before.len() as int].0 == m);
                        }
                    }
                }
            },
            None => {
                proof {
                    assert forall|m: u8|
                        m < c + 1 && count_valid_where(points@, states@, in_cluster(m), n as int) > 0
                            implies exists|k: int| 0 <= k < sizes.len() && #[trigger] sizes@[k].0 == m by {
                        if m as u64 == c {
                            assert(!per_id@.contains_key(m as int as u64));
                        }
                    }
                }
            },
        }
        c += 1;
    }
    ClusterSummary { sizes, noise, unvisited, visited }
}

} // verus!
