//! The ways in which planning can end without a path.

use vstd::prelude::*;

verus! {

/// Why a search returned no path.
#[derive(Clone, Copy, Debug, PartialEq, Eq, Structural)]
pub enum PlanError {
    /// The world is narrower or lower than one step of the sampling grid.
    WorldTooSmall,
    /// The tree search used up its attempts before it reached the goal.
    Unreachable,
    /// The grid search ran out of poses to expand.
    PathNotFound,
    /// The grid search used up its expansions before it reached the goal.
    SearchExhausted,
}

} // verus!
