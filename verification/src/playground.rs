//! The bounded world: its extent, the two endpoints of the journey, and the
//! obstacles that a planner must keep clear of.

use vstd::prelude::*;
use vstd::multiset::Multiset;
use crate::geometry::Region;
pub use crate::geometry::Rect;
use crate::index::{ObstacleIndex, GeometryError, COORD_LIMIT};

verus! {

/// A world of a given extent with a start, a goal and obstacles.
pub struct Playground {
    /// Extent of the world; `(0, 0)` is its top-left corner.
    pub size: (i32, i32),
    pub obstacles: ObstacleIndex,
    pub start: (i32, i32),
    pub goal: (i32, i32),
}

impl Playground {
    /// An edge of the region lies on or beyond a border of the world.
    pub open spec fn out_of_bounds(&self, r: Region) -> bool {
        ||| r.x <= 0
        ||| r.y <= 0
        ||| r.x + r.w >= self.size.0
        ||| r.y + r.h >= self.size.1
    }

    /// The region is malformed, leaves the world, or touches an obstacle.
    pub open spec fn blocked(&self, r: Region) -> bool {
        ||| !r.well_formed()
        ||| self.out_of_bounds(r)
        ||| self.obstacles.touches_any(r)
    }

    /// What keeps a region from being placed keeps every region around it
    /// from being placed.
    pub proof fn lemma_blocked_monotone(&self, inner: Region, outer: Region)
        requires
            inner.well_formed(),
            outer.contains(inner),
            self.blocked(inner),
        ensures
            self.blocked(outer),
    {
    }

    /// An empty world of the given extent.
    pub fn new(size: (i32, i32), start: (i32, i32), goal: (i32, i32)) -> (world: Self)
        ensures
            world.size == size,
            world.start == start,
            world.goal == goal,
            world.obstacles@ == Multiset::<Rect>::empty(),
            world.obstacles.listing() == Seq::<Rect>::empty(),
            world.obstacles.next_id() == 0,
    {
        Playground { size, obstacles: ObstacleIndex::new(), start, goal }
    }

    /// Adds an obstacle exactly as given, whether or not it fits the world,
    /// and returns its identifier. A rectangle with a negative extent is
    /// refused and changes nothing.
    pub fn add_obstacles(&mut self, o: Rect) -> (res: Result<u32, GeometryError>)
        requires
            old(self).obstacles.next_id() < u32::MAX,
        ensures
            final(self).size == old(self).size,
            final(self).start == old(self).start,
            final(self).goal == old(self).goal,
            o.well_formed() ==> res == Ok::<u32, GeometryError>(
                old(self).obstacles.next_id() as u32,
            ) && final(self).obstacles@ == old(self).obstacles@.insert(o)
                && final(self).obstacles.next_id() == old(self).obstacles.next_id() + 1,
            !o.well_formed() ==> res == Err::<u32, GeometryError>(GeometryError::NegativeExtent)
                && final(self).obstacles@ == old(self).obstacles@
                && final(self).obstacles.listing() == old(self).obstacles.listing()
                && final(self).obstacles.next_id() == old(self).obstacles.next_id(),
    {
        self.obstacles.insert(o)
    }

    /// Every obstacle, with the anchor and size it was added with. The order
    /// stays the same as long as no obstacle is added.
    pub fn get_obstacles(&self) -> (all: Vec<Rect>)
        ensures
            all@ == self.obstacles.listing(),
            all@.to_multiset() == self.obstacles@,
    {
        self.obstacles.list()
    }

    /// Whether the rectangle is kept from being placed: it is malformed, one
    /// of its edges lies on or beyond a border of the world, or it touches an
    /// obstacle.
    pub fn is_collision(&self, r: &Rect) -> (hit: bool)
        ensures
            hit == self.blocked(r.region()),
    {
        self.region_blocked(r.anchor.0 as i64, r.anchor.1 as i64, r.size.0 as i64, r.size.1 as i64)
    }

    /// [`Playground::is_collision`] for a rectangle whose coordinates need
    /// not fit a [`Rect`].
    pub(crate) fn region_blocked(&self, x: i64, y: i64, w: i64, h: i64) -> (hit: bool)
        requires
            -COORD_LIMIT <= x <= COORD_LIMIT,
            -COORD_LIMIT <= y <= COORD_LIMIT,
            -COORD_LIMIT <= w <= COORD_LIMIT,
            -COORD_LIMIT <= h <= COORD_LIMIT,
        ensures
            hit == self.blocked(Region { x: x as int, y: y as int, w: w as int, h: h as int }),
    {
        if w < 0 || h < 0 {
            return true;
        }
        if x <= 0 || y <= 0 || x + w >= self.size.0 as i64 || y + h >= self.size.1 as i64 {
            return true;
        }
        self.obstacles.touches(x, y, w, h)
    }
}

} // verus!
