//! The actor: a rectangular footprint with a pose, and the planning steps
//! that depend on its size.

use vstd::prelude::*;
use crate::compaction::{compact_path, compacted};
use crate::error::PlanError;
use crate::footprint::{edge_valid, is_valid_path, is_valid_pose, path_valid, pose_valid};
use crate::geometry::{dist_sq, euclid_dist, floor_sqrt};
pub use crate::geometry::Pose;
use crate::grid_search::{arrived, drives, grid_search, grid_to_goal};
use crate::playground::Playground;
use crate::rrt::{drawable, goal_pose, grown_by, is_route, route_of, rrt_to_goal, start_pose};
use crate::sampling::has_grid;

verus! {

/// Width and height of the footprint of a new actor.
pub const DEFAULT_SIZE: (i32, i32) = (15, 30);

/// Candidates that a tree search tries where no other number is given.
pub const DEFAULT_ATTEMPTS: u32 = 100_000;

/// A rectangular footprint of a fixed size and the pose at which it stands.
pub struct Actor {
    pub pose: Pose,
    pub size: (i32, i32),
}

impl Actor {
    /// An actor of the default size at the start of the world.
    pub fn new(playground: &Playground) -> (actor: Self)
        ensures
            actor.pose == start_pose(playground),
            actor.size == DEFAULT_SIZE,
    {
        Actor { pose: Pose { x: playground.start.0, y: playground.start.1, t: 0 }, size: DEFAULT_SIZE }
    }

    /// Drops the waypoints of a path that a straight move of this actor can
    /// skip.
    pub fn compact_path(&self, playground: &Playground, path: &Vec<Pose>) -> (short: Vec<Pose>)
        requires
            path@.len() >= 2,
        ensures
            short@ == compacted(playground, self.size, path@),
            short@.len() >= 2,
            short@.len() <= path@.len(),
            short@[0] == path@[0],
            short@.last() == path@.last(),
            path@.len() == 2 ==> short@ == path@,
            path_valid(playground, self.size, path@) ==> path_valid(playground, self.size, short@),
    {
        compact_path(playground, self.size, path)
    }

    /// Searches a path for this actor from the start of the world to its
    /// goal with [`DEFAULT_ATTEMPTS`] candidates at most.
    pub fn rrt_to_goal(&self, playground: &Playground) -> (res: Result<Vec<Pose>, PlanError>)
        ensures
            !has_grid(playground) ==> res == Err::<Vec<Pose>, PlanError>(PlanError::WorldTooSmall),
            has_grid(playground) ==> match res {
                Ok(path) => is_route(playground, self.size, path@),
                Err(e) => e == PlanError::Unreachable,
            },
            start_pose(playground) == goal_pose(playground) || !pose_valid(
                playground,
                self.size,
                goal_pose(playground),
            ) ==> res is Err,
            !pose_valid(playground, self.size, start_pose(playground)) ==> res is Err,
            has_grid(playground) ==> exists|draws: Seq<Pose>|
                {
                    &&& drawable(playground, DEFAULT_ATTEMPTS, draws)
                    &&& res is Err ==> draws.len() == DEFAULT_ATTEMPTS
                    &&& route_of(
                        #[trigger] grown_by(
                            playground,
                            self.size,
                            start_pose(playground),
                            goal_pose(playground),
                            draws,
                        ),
                    ) == match res {
                        Ok(path) => Ok::<Seq<Pose>, PlanError>(path@),
                        Err(e) => Err::<Seq<Pose>, PlanError>(e),
                    }
                },
    {
        rrt_to_goal(playground, self.size, DEFAULT_ATTEMPTS)
    }

    /// Searches a path for this actor from the start of the world to its
    /// goal with `max_attempts` candidates at most.
    pub fn rrt_to_goal_within(&self, playground: &Playground, max_attempts: u32) -> (res: Result<
        Vec<Pose>,
        PlanError,
    >)
        ensures
            !has_grid(playground) ==> res == Err::<Vec<Pose>, PlanError>(PlanError::WorldTooSmall),
            has_grid(playground) ==> match res {
                Ok(path) => is_route(playground, self.size, path@) && path@.len() <= max_attempts + 1,
                Err(e) => e == PlanError::Unreachable,
            },
            max_attempts == 0 || start_pose(playground) == goal_pose(playground) || !pose_valid(
                playground,
                self.size,
                goal_pose(playground),
            ) ==> res is Err,
            !pose_valid(playground, self.size, start_pose(playground)) ==> res is Err,
            has_grid(playground) ==> exists|draws: Seq<Pose>|
                {
                    &&& drawable(playground, max_attempts, draws)
                    &&& res is Err ==> draws.len() == max_attempts
                    &&& route_of(
                        #[trigger] grown_by(
                            playground,
                            self.size,
                            start_pose(playground),
                            goal_pose(playground),
                            draws,
                        ),
                    ) == match res {
                        Ok(path) => Ok::<Seq<Pose>, PlanError>(path@),
                        Err(e) => Err::<Seq<Pose>, PlanError>(e),
                    }
                },
    {
        rrt_to_goal(playground, self.size, max_attempts)
    }

    /// Searches a way for this actor from the start of the world to a pose
    /// that has arrived at its goal, by single moves and best first, trying
    /// at most `max_expansions` poses beyond the start.
    pub fn grid_to_goal(&self, playground: &Playground, max_expansions: u32) -> (res: Result<
        Vec<Pose>,
        PlanError,
    >)
        ensures
            match res {
                Ok(path) => {
                    &&& grid_search(
                        playground,
                        self.size,
                        start_pose(playground),
                        goal_pose(playground),
                        max_expansions as nat,
                    ) == Ok::<Seq<Pose>, PlanError>(path@)
                    &&& drives(playground, self.size, start_pose(playground), path@)
                    &&& arrived(path@.last(), goal_pose(playground))
                    &&& forall|k: int|
                        0 <= k < path@.len() - 1 ==> !arrived(#[trigger] path@[k], goal_pose(playground))
                    &&& path@.no_duplicates()
                    &&& path@.len() <= max_expansions + 1
                },
                Err(e) => {
                    &&& grid_search(
                        playground,
                        self.size,
                        start_pose(playground),
                        goal_pose(playground),
                        max_expansions as nat,
                    ) == Err::<Seq<Pose>, PlanError>(e)
                    &&& e == PlanError::PathNotFound || e == PlanError::SearchExhausted
                    &&& e == PlanError::PathNotFound ==> forall|path: Seq<Pose>|
                        #[trigger] drives(playground, self.size, start_pose(playground), path) ==> !arrived(
                            path.last(),
                            goal_pose(playground),
                        )
                },
            },
            arrived(start_pose(playground), goal_pose(playground)) ==> res is Ok && res->Ok_0@
                == seq![start_pose(playground)],
    {
        let start = Pose { x: playground.start.0, y: playground.start.1, t: 0 };
        let goal = Pose { x: playground.goal.0, y: playground.goal.1, t: 0 };
        grid_to_goal(playground, self.size, start, goal, max_expansions)
    }

    /// Straight-line distance between the positions of two poses, rounded
    /// down to whole units.
    pub fn euclid_dist(from: &Pose, to: &Pose) -> (d: u64)
        ensures
            d == floor_sqrt(dist_sq(*from, *to)),
    {
        euclid_dist(from, to)
    }

    /// Whether this actor may travel straight from `f` to `t`.
    pub fn is_valid_path(&self, playground: &Playground, f: &Pose, t: &Pose) -> (ok: bool)
        ensures
            ok == edge_valid(playground, self.size, *f, *t),
    {
        is_valid_path(playground, self.size, f, t)
    }

    /// Whether this actor may stand at the pose.
    pub fn is_valid_pose(&self, playground: &Playground, pose: &Pose) -> (ok: bool)
        ensures
            ok == pose_valid(playground, self.size, *pose),
    {
        is_valid_pose(playground, self.size, pose)
    }
}

} // verus!
