//! The planner: it finds a path once, shortens it, lays it out as a
//! trajectory, and moves the actor's pose along that trajectory as time
//! goes by.

use vstd::prelude::*;
use crate::actor::{DEFAULT_ATTEMPTS, DEFAULT_SIZE};
use crate::compaction::{compact_path, compacted, lemma_compacted_endpoints, lemma_compacted_valid};
use crate::error::PlanError;
use crate::footprint::{edge_valid, is_valid_path, is_valid_pose, path_valid, pose_valid};
use crate::geometry::{dist_sq, euclid_dist, floor_sqrt};
pub use crate::geometry::Pose;
use crate::grid_search::{arrived, drives, grid_search, grid_to_goal};
use crate::playground::Playground;
use crate::rrt::{drawable, goal_pose, grown_by, is_route, route_of, rrt_to_goal, start_pose};
use crate::sampling::has_grid;
use crate::trajectory::{build_spline, heading_keys, sample_of, x_keys, y_keys, Curve, MAX_WAYPOINTS};

verus! {

/// Distance that the actor covers in a second.
pub const PIXELS_PER_SEC: u64 = 24;

/// Most candidates that a planner tries, whatever number it is given: a path
/// found within them can be laid out as a trajectory.
pub const ATTEMPT_LIMIT: u32 = 0x7fff_ffff;

/// The actor together with its plan: the waypoints of the path, and the
/// trajectory along them once a path was computed.
pub struct Planner {
    pub pose: Pose,
    pub size: (i32, i32),
    /// The waypoints of the trajectory; empty until a path was computed.
    pub path: Vec<Pose>,
    /// The curves of `x`, of `y` and of the heading along the path.
    pub splines: Option<(Curve, Curve, Curve)>,
}

/// The attempts or expansions that a search is given where `asked` are
/// asked for.
pub open spec fn capped(asked: u32) -> u32 {
    if asked > ATTEMPT_LIMIT {
        ATTEMPT_LIMIT
    } else {
        asked
    }
}

/// The waypoints that planning by tree search comes to where the search
/// draws the given candidates: the route that it finds, without the
/// waypoints that a straight move can skip.
pub open spec fn tree_plan(world: &Playground, size: (i32, i32), draws: Seq<Pose>) -> Result<
    Seq<Pose>,
    PlanError,
> {
    match route_of(grown_by(world, size, start_pose(world), goal_pose(world), draws)) {
        Ok(raw) => Ok(compacted(world, size, raw)),
        Err(e) => Err(e),
    }
}

/// The waypoints that planning by grid search comes to: the way that the
/// search finds, without the waypoints that a straight move can skip.
pub open spec fn grid_plan(world: &Playground, size: (i32, i32), max_expansions: u32) -> Result<
    Seq<Pose>,
    PlanError,
> {
    match grid_search(world, size, start_pose(world), goal_pose(world), capped(max_expansions) as nat) {
        Ok(raw) => Ok(
            if raw.len() >= 2 {
                compacted(world, size, raw)
            } else {
                raw
            },
        ),
        Err(e) => Err(e),
    }
}

/// Distance along the path that the actor has covered after the given time.
pub open spec fn distance_after(elapsed_ms: u64) -> int {
    elapsed_ms * PIXELS_PER_SEC / 1000
}

/// The pose that the curves give at distance `s`, where each of them has a
/// keyframe.
pub open spec fn pose_on(curves: (Curve, Curve, Curve), s: int) -> Option<Pose> {
    match (sample_of(curves.0@, s), sample_of(curves.1@, s), sample_of(curves.2@, s)) {
        (Some(x), Some(y), Some(t)) => Some(Pose { x: x as i32, y: y as i32, t: t as i32 }),
        _ => None,
    }
}

/// The curves are those of the path.
pub open spec fn laid_out(path: Seq<Pose>, curves: (Curve, Curve, Curve)) -> bool {
    &&& curves.0@ == x_keys(path)
    &&& curves.1@ == y_keys(path)
    &&& curves.2@ == heading_keys(path)
}

/// Compacting a route leaves a route.
pub proof fn lemma_compacted_route(world: &Playground, size: (i32, i32), path: Seq<Pose>)
    requires
        is_route(world, size, path),
    ensures
        is_route(world, size, compacted(world, size, path)),
{
    let short = compacted(world, size, path);
    let picks = lemma_compacted_endpoints(world, size, path);
    lemma_compacted_valid(world, size, path);
    assert forall|k: int| 0 <= k < short.len() implies pose_valid(world, size, #[trigger] short[k]) by {
        assert(short[k] == path[picks[k]]);
    }
    assert forall|a: int, b: int| 0 <= a < short.len() && 0 <= b < short.len() && a != b implies short[a]
        != short[b] by {
        if a < b {
            assert(picks[a] < picks[b]);
        }
    }
}

impl Planner {
    /// A planner for an actor of the default size at the start of the world,
    /// with no path yet.
    pub fn new(playground: &Playground) -> (planner: Self)
        ensures
            planner.pose == start_pose(playground),
            planner.size == DEFAULT_SIZE,
            planner.path@.len() == 0,
            planner.splines is None,
    {
        Planner {
            pose: Pose { x: playground.start.0, y: playground.start.1, t: 0 },
            size: DEFAULT_SIZE,
            path: Vec::new(),
            splines: None,
        }
    }

    /// Plans once with [`DEFAULT_ATTEMPTS`] candidates at most; see
    /// [`Planner::compute_path_within`].
    pub fn compute_path(&mut self, playground: &Playground) -> (res: Result<(), PlanError>)
        ensures
            old(self).splines is Some ==> res is Ok && *final(self) == *old(self),
            old(self).splines is None ==> match res {
                Ok(_) => {
                    &&& is_route(playground, old(self).size, final(self).path@)
                    &&& final(self).splines is Some
                    &&& laid_out(final(self).path@, final(self).splines->0)
                    &&& final(self).pose == old(self).pose
                    &&& final(self).size == old(self).size
                },
                Err(e) => *final(self) == *old(self) && (e == PlanError::WorldTooSmall) == !has_grid(
                    playground,
                ) && (e == PlanError::Unreachable) == has_grid(playground),
            },
            old(self).splines is None && (start_pose(playground) == goal_pose(playground) || !pose_valid(
                playground,
                old(self).size,
                goal_pose(playground),
            )) ==> res is Err,
            old(self).splines is None && !pose_valid(playground, old(self).size, start_pose(playground))
                ==> res is Err,
            old(self).splines is None && has_grid(playground) ==> exists|draws: Seq<Pose>|
                {
                    &&& drawable(playground, DEFAULT_ATTEMPTS, draws)
                    &&& res is Err ==> draws.len() == DEFAULT_ATTEMPTS
                    &&& #[trigger] tree_plan(playground, old(self).size, draws) == match res {
                        Ok(_) => Ok::<Seq<Pose>, PlanError>(final(self).path@),
                        Err(e) => Err::<Seq<Pose>, PlanError>(e),
                    }
                },
    {
        self.compute_path_within(playground, DEFAULT_ATTEMPTS)
    }

    /// Plans once: where no trajectory exists yet, searches a path with
    /// `max_attempts` candidates at most (and never more than
    /// [`ATTEMPT_LIMIT`]), compacts it and lays it out as the trajectory.
    /// Where a trajectory exists, or no path is found, nothing changes.
    pub fn compute_path_within(&mut self, playground: &Playground, max_attempts: u32) -> (res: Result<
        (),
        PlanError,
    >)
        ensures
            old(self).splines is Some ==> res is Ok && *final(self) == *old(self),
            old(self).splines is None ==> match res {
                Ok(_) => {
                    &&& is_route(playground, old(self).size, final(self).path@)
                    &&& final(self).path@.len() <= max_attempts + 1
                    &&& final(self).splines is Some
                    &&& laid_out(final(self).path@, final(self).splines->0)
                    &&& final(self).pose == old(self).pose
                    &&& final(self).size == old(self).size
                },
                Err(e) => *final(self) == *old(self) && (e == PlanError::WorldTooSmall) == !has_grid(
                    playground,
                ) && (e == PlanError::Unreachable) == has_grid(playground),
            },
            old(self).splines is None && (max_attempts == 0 || start_pose(playground) == goal_pose(
                playground,
            ) || !pose_valid(playground, old(self).size, goal_pose(playground))) ==> res is Err,
            old(self).splines is None && !pose_valid(playground, old(self).size, start_pose(playground))
                ==> res is Err,
            old(self).splines is None && has_grid(playground) ==> exists|draws: Seq<Pose>|
                {
                    &&& drawable(playground, capped(max_attempts), draws)
                    &&& res is Err ==> draws.len() == capped(max_attempts)
                    &&& #[trigger] tree_plan(playground, old(self).size, draws) == match res {
                        Ok(_) => Ok::<Seq<Pose>, PlanError>(final(self).path@),
                        Err(e) => Err::<Seq<Pose>, PlanError>(e),
                    }
                },
    {
        if self.splines.is_some() {
            return Ok(());
        }
        let budget = if max_attempts > ATTEMPT_LIMIT { ATTEMPT_LIMIT } else { max_attempts };
        let searched = rrt_to_goal(playground, self.size, budget);
        let ghost draws = if has_grid(playground) {
            choose|draws: Seq<Pose>|
                {
                    &&& drawable(playground, budget, draws)
                    &&& searched is Err ==> draws.len() == budget
                    &&& route_of(
                        #[trigger] grown_by(
                            playground,
                            self.size,
                            start_pose(playground),
                            goal_pose(playground),
                            draws,
                        ),
                    ) == match searched {
                        Ok(path) => Ok::<Seq<Pose>, PlanError>(path@),
                        Err(e) => Err::<Seq<Pose>, PlanError>(e),
                    }
                }
        } else {
            Seq::empty()
        };
        match searched {
            Err(e) => Err(e),
            Ok(found) => {
                let path = compact_path(playground, self.size, &found);
                proof {
                    lemma_compacted_route(playground, self.size, found@);
                    assert(tree_plan(playground, self.size, draws) == Ok::<Seq<Pose>, PlanError>(path@));
                }
                self.splines = Some(build_spline(&path));
                self.path = path;
                Ok(())
            },
        }
    }

    /// Plans once by grid search: where no trajectory exists yet, searches a
    /// way to the goal move by move, trying `max_expansions` poses at most
    /// (and never more than [`ATTEMPT_LIMIT`]), compacts it and lays it out
    /// as the trajectory. Where a trajectory exists, or no way is found,
    /// nothing changes.
    pub fn compute_grid_path(&mut self, playground: &Playground, max_expansions: u32) -> (res: Result<
        (),
        PlanError,
    >)
        ensures
            old(self).splines is Some ==> res is Ok && *final(self) == *old(self),
            old(self).splines is None ==> match res {
                Ok(_) => {
                    &&& grid_plan(playground, old(self).size, max_expansions) == Ok::<Seq<Pose>, PlanError>(
                        final(self).path@,
                    )
                    &&& final(self).path@.len() >= 1
                    &&& final(self).path@[0] == start_pose(playground)
                    &&& arrived(final(self).path@.last(), goal_pose(playground))
                    &&& final(self).path@.len() <= max_expansions + 1
                    &&& final(self).splines is Some
                    &&& laid_out(final(self).path@, final(self).splines->0)
                    &&& final(self).pose == old(self).pose
                    &&& final(self).size == old(self).size
                },
                Err(e) => {
                    &&& *final(self) == *old(self)
                    &&& grid_plan(playground, old(self).size, max_expansions) == Err::<Seq<Pose>, PlanError>(e)
                    &&& e == PlanError::PathNotFound || e == PlanError::SearchExhausted
                    &&& e == PlanError::PathNotFound ==> forall|path: Seq<Pose>|
                        #[trigger] drives(playground, old(self).size, start_pose(playground), path)
                            ==> !arrived(path.last(), goal_pose(playground))
                },
            },
            old(self).splines is None && arrived(start_pose(playground), goal_pose(playground)) ==> res is Ok
                && final(self).path@ == seq![start_pose(playground)],
    {
        if self.splines.is_some() {
            return Ok(());
        }
        let budget = if max_expansions > ATTEMPT_LIMIT { ATTEMPT_LIMIT } else { max_expansions };
        let start = Pose { x: playground.start.0, y: playground.start.1, t: 0 };
        let goal = Pose { x: playground.goal.0, y: playground.goal.1, t: 0 };
        match grid_to_goal(playground, self.size, start, goal, budget) {
            Err(e) => Err(e),
            Ok(found) => {
                let path = if found.len() >= 2 {
                    compact_path(playground, self.size, &found)
                } else {
                    found
                };
                self.splines = Some(build_spline(&path));
                self.path = path;
                Ok(())
            },
        }
    }

    /// Moves the pose to where the trajectory stands after the given time,
    /// and returns it. Where there is no trajectory yet the pose stays as it
    /// is and nothing is returned.
    pub fn update_pos(&mut self, elapsed_ms: u64) -> (moved: Option<Pose>)
        ensures
            final(self).size == old(self).size,
            final(self).path == old(self).path,
            final(self).splines == old(self).splines,
            moved == match old(self).splines {
                Some(curves) => pose_on(curves, distance_after(elapsed_ms)),
                None => None,
            },
            final(self).pose == match moved {
                Some(pose) => pose,
                None => old(self).pose,
            },
    {
        let s: u64 = ((elapsed_ms as u128 * PIXELS_PER_SEC as u128) / 1000) as u64;
        let sampled = match &self.splines {
            None => None,
            Some(curves) => {
                match (curves.0.clamped_sample(s), curves.1.clamped_sample(s), curves.2.clamped_sample(s)) {
                    (Some(x), Some(y), Some(t)) => Some(Pose { x, y, t }),
                    _ => None,
                }
            },
        };
        match sampled {
            Some(pose) => {
                self.pose = pose;
            },
            None => {},
        }
        sampled
    }

    /// Lays a path out as the curves of `x`, of `y` and of the heading.
    pub fn build_spline(path: &Vec<Pose>) -> (curves: (Curve, Curve, Curve))
        requires
            path@.len() <= MAX_WAYPOINTS,
        ensures
            curves.0@ == x_keys(path@),
            curves.1@ == y_keys(path@),
            curves.2@ == heading_keys(path@),
    {
        build_spline(path)
    }

    /// Drops the waypoints of a path that a straight move of the actor can
    /// skip.
    pub fn compact_path(&self, playground: &Playground, path: &Vec<Pose>) -> (short: Vec<Pose>)
        requires
            path@.len() >= 2,
        ensures
            short@ == compacted(playground, self.size, path@),
            short@.len() >= 2,
            short@.len() <= path@.len(),
            short@[0] == path@[0],
            short@.last() == path@.last(),
            path@.len() == 2 ==> short@ == path@,
            path_valid(playground, self.size, path@) ==> path_valid(playground, self.size, short@),
    {
        compact_path(playground, self.size, path)
    }

    /// Searches a path for the actor from the start of the world to its goal
    /// with [`DEFAULT_ATTEMPTS`] candidates at most.
    pub fn rrt_to_goal(&self, playground: &Playground) -> (res: Result<Vec<Pose>, PlanError>)
        ensures
            !has_grid(playground) ==> res == Err::<Vec<Pose>, PlanError>(PlanError::WorldTooSmall),
            has_grid(playground) ==> match res {
                Ok(path) => is_route(playground, self.size, path@),
                Err(e) => e == PlanError::Unreachable,
            },
            start_pose(playground) == goal_pose(playground) || !pose_valid(
                playground,
                self.size,
                goal_pose(playground),
            ) ==> res is Err,
            !pose_valid(playground, self.size, start_pose(playground)) ==> res is Err,
            has_grid(playground) ==> exists|draws: Seq<Pose>|
                {
                    &&& drawable(playground, DEFAULT_ATTEMPTS, draws)
                    &&& res is Err ==> draws.len() == DEFAULT_ATTEMPTS
                    &&& route_of(
                        #[trigger] grown_by(
                            playground,
                            self.size,
                            start_pose(playground),
                            goal_pose(playground),
                            draws,
                        ),
                    ) == match res {
                        Ok(path) => Ok::<Seq<Pose>, PlanError>(path@),
                        Err(e) => Err::<Seq<Pose>, PlanError>(e),
                    }
                },
    {
        rrt_to_goal(playground, self.size, DEFAULT_ATTEMPTS)
    }

    /// Straight-line distance between the positions of two poses, rounded
    /// down to whole units.
    pub fn euclid_dist(from: &Pose, to: &Pose) -> (d: u64)
        ensures
            d == floor_sqrt(dist_sq(*from, *to)),
    {
        euclid_dist(from, to)
    }

    /// Whether the actor may travel straight from `f` to `t`.
    pub fn is_valid_path(&self, playground: &Playground, f: &Pose, t: &Pose) -> (ok: bool)
        ensures
            ok == edge_valid(playground, self.size, *f, *t),
    {
        is_valid_path(playground, self.size, f, t)
    }

    /// Whether the actor may stand at the pose.
    pub fn is_valid_pose(&self, playground: &Playground, pose: &Pose) -> (ok: bool)
        ensures
            ok == pose_valid(playground, self.size, *pose),
    {
        is_valid_pose(playground, self.size, pose)
    }
}

} // verus!
