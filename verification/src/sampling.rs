//! Random candidate poses. The generator is `rand`'s; what it returns is
//! taken on trust, and only its range is known.

use vstd::prelude::*;
use rand::rngs::ThreadRng;
use rand::Rng;
use crate::geometry::Pose;
use crate::playground::Playground;

verus! {

/// `rand::rngs::ThreadRng`: a handle to the generator of a thread. Nothing
/// is known of what it holds.
#[verifier::external_type_specification]
#[verifier::external_body]
pub struct ExThreadRng(ThreadRng);

/// `rand::thread_rng`: the generator of the calling thread.
#[verifier::external_body]
fn thread_generator() -> ThreadRng {
    rand::thread_rng()
}

/// `Rng::gen_ratio`: true with probability `numerator / denominator`. The
/// call panics on a zero denominator or a ratio above one.
#[verifier::external_body]
fn draw_ratio(rng: &mut ThreadRng, numerator: u32, denominator: u32) -> bool
    requires
        denominator > 0,
        numerator <= denominator,
{
    rng.gen_ratio(numerator, denominator)
}

/// `Rng::gen_range` on `0..bound`: some integer of that range. The call
/// panics on an empty range.
#[verifier::external_body]
fn draw_below(rng: &mut ThreadRng, bound: i32) -> (r: i32)
    requires
        bound > 0,
    ensures
        0 <= r < bound,
{
    rng.gen_range(0..bound)
}

/// Distance between neighbouring sample positions, and between neighbouring
/// sample headings in degrees.
pub const GRID_STEP: i32 = 10;

/// Number of headings that are sampled.
pub const HEADING_BUCKETS: i32 = 36;

/// One candidate in this many is the goal itself.
pub const GOAL_BIAS_ONE_IN: u32 = 100;

/// The pose lies on the sampling grid of the world: its coordinates and its
/// heading are whole steps, as many as fit the world and a full turn.
pub open spec fn on_grid(world: &Playground, p: Pose) -> bool {
    &&& 0 <= p.x
    &&& p.x % GRID_STEP == 0
    &&& p.x / GRID_STEP < world.size.0 / GRID_STEP
    &&& 0 <= p.y
    &&& p.y % GRID_STEP == 0
    &&& p.y / GRID_STEP < world.size.1 / GRID_STEP
    &&& 0 <= p.t < HEADING_BUCKETS * GRID_STEP
    &&& p.t % GRID_STEP == 0
}

/// The world is wide and high enough to hold a sample position.
pub open spec fn has_grid(world: &Playground) -> bool {
    world.size.0 >= GRID_STEP && world.size.1 >= GRID_STEP
}

/// The pose that the draws stand for: the goal where the goal was drawn,
/// else the grid pose with the drawn column, row and heading bucket.
pub open spec fn pose_of_draws(goal: Pose, take_goal: bool, column: i32, row: i32, bucket: i32) -> Pose {
    if take_goal {
        goal
    } else {
        Pose {
            x: (column * GRID_STEP) as i32,
            y: (row * GRID_STEP) as i32,
            t: (bucket * GRID_STEP) as i32,
        }
    }
}

/// Computes [`pose_of_draws`].
pub fn candidate_of(world: &Playground, goal: Pose, take_goal: bool, column: i32, row: i32, bucket: i32) -> (p: Pose)
    requires
        0 <= column < world.size.0 / GRID_STEP,
        0 <= row < world.size.1 / GRID_STEP,
        0 <= bucket < HEADING_BUCKETS,
    ensures
        p == pose_of_draws(goal, take_goal, column, row, bucket),
        take_goal ==> p == goal,
        !take_goal ==> on_grid(world, p) && p.x == column * GRID_STEP && p.y == row * GRID_STEP
            && p.t == bucket * GRID_STEP,
{
    if take_goal {
        goal
    } else {
        Pose { x: column * GRID_STEP, y: row * GRID_STEP, t: bucket * GRID_STEP }
    }
}

/// A source of candidate poses.
pub struct Sampler {
    rng: ThreadRng,
}

impl Sampler {
    /// A sampler on the generator of the calling thread.
    pub fn new() -> Self {
        Sampler { rng: thread_generator() }
    }

    /// Draws a candidate: the goal, or a pose of the sampling grid.
    pub fn sample_pose(&mut self, world: &Playground, goal: Pose) -> (p: Pose)
        requires
            has_grid(world),
        ensures
            p == goal || on_grid(world, p),
    {
        let take_goal = draw_ratio(&mut self.rng, 1, GOAL_BIAS_ONE_IN);
        if take_goal {
            candidate_of(world, goal, true, 0, 0, 0)
        } else {
            let column = draw_below(&mut self.rng, world.size.0 / GRID_STEP);
            let row = draw_below(&mut self.rng, world.size.1 / GRID_STEP);
            let bucket = draw_below(&mut self.rng, HEADING_BUCKETS);
            candidate_of(world, goal, false, column, row, bucket)
        }
    }
}

} // verus!
