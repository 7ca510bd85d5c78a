//! Where the actor's footprint may stand and where it may travel: a pose is
//! judged by the upright rectangle around the turned footprint, a straight
//! move by one rectangle around both of its ends.

use vstd::prelude::*;
use crate::geometry::{Pose, Region};
use crate::playground::Playground;
use crate::trig::{turned_extent, extent_at, magnitude};

verus! {

/// The larger of two integers.
pub open spec fn larger(a: int, b: int) -> int {
    if a >= b {
        a
    } else {
        b
    }
}

/// The smaller of two integers.
pub open spec fn smaller(a: int, b: int) -> int {
    if a <= b {
        a
    } else {
        b
    }
}

/// The upright rectangle around a footprint of the given size that stands
/// at `pose`, centred on the pose's position.
pub open spec fn pose_box(size: (i32, i32), pose: Pose) -> Region {
    let e = turned_extent(size, pose.t as int);
    Region { x: pose.x - e.0 / 2, y: pose.y - e.1 / 2, w: e.0, h: e.1 }
}

/// The upright rectangle that stands for the footprint on its way from one
/// pose to another: it spans both positions, widened by the larger of the
/// two turned extents.
pub open spec fn sweep_box(size: (i32, i32), from: Pose, to: Pose) -> Region {
    let a = turned_extent(size, from.t as int);
    let b = turned_extent(size, to.t as int);
    let bw = larger(a.0, b.0);
    let bh = larger(a.1, b.1);
    Region {
        x: smaller(from.x as int, to.x as int) - bw / 2,
        y: smaller(from.y as int, to.y as int) - bh / 2,
        w: magnitude(from.x - to.x) + bw,
        h: magnitude(from.y - to.y) + bh,
    }
}

/// The footprint may stand at the pose.
pub open spec fn pose_valid(world: &Playground, size: (i32, i32), pose: Pose) -> bool {
    !world.blocked(pose_box(size, pose))
}

/// The footprint may travel straight from one pose to the other.
pub open spec fn edge_valid(world: &Playground, size: (i32, i32), from: Pose, to: Pose) -> bool {
    !world.blocked(sweep_box(size, from, to))
}

/// Every pair of neighbours in the path is joined by a valid edge.
pub open spec fn path_valid(world: &Playground, size: (i32, i32), path: Seq<Pose>) -> bool {
    forall|i: int| 0 <= i < path.len() - 1 ==> edge_valid(world, size, #[trigger] path[i], path[i + 1])
}

/// Whether the footprint may stand at the pose.
pub fn is_valid_pose(world: &Playground, size: (i32, i32), pose: &Pose) -> (ok: bool)
    ensures
        ok == pose_valid(world, size, *pose),
{
    let e = extent_at(size, pose.t);
    !world.region_blocked(pose.x as i64 - e.0 / 2, pose.y as i64 - e.1 / 2, e.0, e.1)
}

/// Whether the footprint may travel straight from `from` to `to`.
pub fn is_valid_path(world: &Playground, size: (i32, i32), from: &Pose, to: &Pose) -> (ok: bool)
    ensures
        ok == edge_valid(world, size, *from, *to),
{
    let a = extent_at(size, from.t);
    let b = extent_at(size, to.t);
    let bw = if a.0 >= b.0 { a.0 } else { b.0 };
    let bh = if a.1 >= b.1 { a.1 } else { b.1 };
    let fx = from.x as i64;
    let fy = from.y as i64;
    let tx = to.x as i64;
    let ty = to.y as i64;
    let left = if fx <= tx { fx } else { tx };
    let top = if fy <= ty { fy } else { ty };
    let dx = if fx >= tx { fx - tx } else { tx - fx };
    let dy = if fy >= ty { fy - ty } else { ty - fy };
    !world.region_blocked(left - bw / 2, top - bh / 2, dx + bw, dy + bh)
}

/// A move is valid only between poses at which the footprint may stand: the
/// rectangle of the move holds the rectangles of both its ends.
pub proof fn lemma_edge_covers_poses(world: &Playground, size: (i32, i32), a: Pose, b: Pose)
    requires
        edge_valid(world, size, a, b),
    ensures
        sweep_box(size, a, b).contains(pose_box(size, a)),
        sweep_box(size, a, b).contains(pose_box(size, b)),
        pose_valid(world, size, a),
        pose_valid(world, size, b),
{
    crate::trig::lemma_extent_bounds(size, a.t as int);
    crate::trig::lemma_extent_bounds(size, b.t as int);
    if !pose_valid(world, size, a) {
        world.lemma_blocked_monotone(pose_box(size, a), sweep_box(size, a, b));
    }
    if !pose_valid(world, size, b) {
        world.lemma_blocked_monotone(pose_box(size, b), sweep_box(size, a, b));
    }
}

/// A move is judged alike in both directions.
pub proof fn lemma_edge_symmetric(world: &Playground, size: (i32, i32), a: Pose, b: Pose)
    ensures
        sweep_box(size, a, b) == sweep_box(size, b, a),
        edge_valid(world, size, a, b) == edge_valid(world, size, b, a),
{
}

} // verus!
