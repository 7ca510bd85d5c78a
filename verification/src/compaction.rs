//! Path compaction: waypoints that a straight move can skip are dropped.

use vstd::prelude::*;
use crate::footprint::{edge_valid, is_valid_path, path_valid};
use crate::geometry::Pose;
use crate::playground::Playground;

verus! {

/// What is kept of `path` from index `i` on, when `last` is the waypoint
/// kept most recently: the waypoint before each one that `last` cannot reach
/// in a straight move, and the final waypoint.
pub open spec fn kept_from(
    world: &Playground,
    size: (i32, i32),
    path: Seq<Pose>,
    last: Pose,
    i: int,
) -> Seq<Pose>
    decreases path.len() - i,
{
    if i >= path.len() || i < 1 {
        seq![path.last()]
    } else if !edge_valid(world, size, last, path[i]) {
        seq![path[i - 1]] + kept_from(world, size, path, path[i - 1], i + 1)
    } else {
        kept_from(world, size, path, last, i + 1)
    }
}

/// The compacted path: the first waypoint, then what is kept from the third
/// on. The edge between the first two waypoints is never examined.
pub open spec fn compacted(world: &Playground, size: (i32, i32), path: Seq<Pose>) -> Seq<Pose> {
    seq![path[0]] + kept_from(world, size, path, path[0], 2)
}

/// `picks` names, in rising order, positions of `path` at or after `from`
/// that hold the waypoints `kept`.
pub open spec fn picks_from(path: Seq<Pose>, kept: Seq<Pose>, picks: Seq<int>, from: int) -> bool {
    &&& picks.len() == kept.len()
    &&& forall|k: int| 0 <= k < picks.len() ==> from <= #[trigger] picks[k] < path.len()
    &&& forall|k: int| 0 <= k < picks.len() ==> kept[k] == path[#[trigger] picks[k]]
    &&& forall|a: int, b: int| 0 <= a < b < picks.len() ==> #[trigger] picks[a] < #[trigger] picks[b]
}

/// What is kept ends with the final waypoint and is taken from the path in
/// order, from the waypoint before `i` on.
pub proof fn lemma_kept_is_subsequence(
    world: &Playground,
    size: (i32, i32),
    path: Seq<Pose>,
    last: Pose,
    i: int,
) -> (picks: Seq<int>)
    requires
        1 <= i <= path.len(),
    ensures
        kept_from(world, size, path, last, i).len() >= 1,
        kept_from(world, size, path, last, i).len() <= path.len() - i + 1,
        kept_from(world, size, path, last, i).last() == path.last(),
        picks_from(path, kept_from(world, size, path, last, i), picks, i - 1),
    decreases path.len() - i,
{
    if i >= path.len() {
        seq![path.len() - 1]
    } else if !edge_valid(world, size, last, path[i]) {
        let tail = lemma_kept_is_subsequence(world, size, path, path[i - 1], i + 1);
        let picks = seq![i - 1] + tail;
        assert forall|a: int, b: int| 0 <= a < b < picks.len() implies #[trigger] picks[a]
            < #[trigger] picks[b] by {}
        picks
    } else {
        lemma_kept_is_subsequence(world, size, path, last, i + 1)
    }
}

/// Where every edge of `path` is valid and `last` reaches the waypoint
/// before `i`, it reaches the first waypoint that is kept, and every edge
/// between kept waypoints is valid.
pub proof fn lemma_kept_is_valid(world: &Playground, size: (i32, i32), path: Seq<Pose>, at: int, i: int)
    requires
        path_valid(world, size, path),
        0 <= at,
        at + 2 <= i <= path.len(),
        edge_valid(world, size, path[at], path[i - 1]),
    ensures
        edge_valid(world, size, path[at], kept_from(world, size, path, path[at], i)[0]),
        path_valid(world, size, kept_from(world, size, path, path[at], i)),
    decreases path.len() - i,
{
    if i < path.len() {
        if !edge_valid(world, size, path[at], path[i]) {
            lemma_kept_is_valid(world, size, path, i - 1, i + 1);
        } else {
            lemma_kept_is_valid(world, size, path, at, i + 1);
        }
    }
}

/// The compacted path starts and ends where the path does, is no longer
/// than it, and is taken from it in order.
pub proof fn lemma_compacted_endpoints(world: &Playground, size: (i32, i32), path: Seq<Pose>) -> (picks: Seq<
    int,
>)
    requires
        path.len() >= 2,
    ensures
        compacted(world, size, path).len() >= 2,
        compacted(world, size, path).len() <= path.len(),
        compacted(world, size, path)[0] == path[0],
        compacted(world, size, path).last() == path.last(),
        picks_from(path, compacted(world, size, path), picks, 0),
{
    let tail = lemma_kept_is_subsequence(world, size, path, path[0], 2);
    seq![0int] + tail
}

/// A path of two waypoints is its own compaction.
pub proof fn lemma_compacted_pair(world: &Playground, size: (i32, i32), path: Seq<Pose>)
    requires
        path.len() == 2,
    ensures
        compacted(world, size, path) == path,
{
}

/// Compaction keeps a path valid: where every edge of the path is valid, so
/// is every edge of the compacted path.
pub proof fn lemma_compacted_valid(world: &Playground, size: (i32, i32), path: Seq<Pose>)
    requires
        path.len() >= 2,
        path_valid(world, size, path),
    ensures
        path_valid(world, size, compacted(world, size, path)),
{
    lemma_kept_is_valid(world, size, path, 0, 2);
}

/// Drops the waypoints of a path that a straight move can skip. The first
/// and the last waypoint always stay.
pub fn compact_path(world: &Playground, size: (i32, i32), path: &Vec<Pose>) -> (short: Vec<Pose>)
    requires
        path@.len() >= 2,
    ensures
        short@ == compacted(world, size, path@),
        short@.len() >= 2,
        short@.len() <= path@.len(),
        short@[0] == path@[0],
        short@.last() == path@.last(),
        path@.len() == 2 ==> short@ == path@,
        path_valid(world, size, path@) ==> path_valid(world, size, short@),
{
    let mut acc: Vec<Pose> = Vec::new();
    acc.push(path[0]);
    let mut i: usize = 2;
    while i < path.len()
        invariant
            2 <= i <= path@.len(),
            acc@.len() >= 1,
            acc@ + kept_from(world, size, path@, acc@.last(), i as int) == compacted(world, size, path@),
        decreases path@.len() - i,
    {
        let last = acc[acc.len() - 1];
        if !is_valid_path(world, size, &last, &path[i]) {
            acc.push(path[i - 1]);
        }
        i = i + 1;
    }
    acc.push(path[path.len() - 1]);
    proof {
        lemma_compacted_endpoints(world, size, path@);
        if path@.len() == 2 {
            lemma_compacted_pair(world, size, path@);
        }
        if path_valid(world, size, path@) {
            lemma_compacted_valid(world, size, path@);
        }
    }
    acc
}

} // verus!
