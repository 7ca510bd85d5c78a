//! Tree search: a tree of valid poses grows from the start by random
//! candidates, each linked to the nearest node it can reach in a straight
//! move, until the goal is linked.

use vstd::prelude::*;
use crate::error::PlanError;
use crate::footprint::{
    edge_valid, is_valid_path, is_valid_pose, lemma_edge_covers_poses, lemma_edge_symmetric, path_valid,
    pose_valid,
};
use crate::geometry::{dist_sq, squared_distance, Pose};
use crate::playground::Playground;
use crate::sampling::{has_grid, on_grid, Sampler, GRID_STEP};
use crate::tree::{route_in, SearchTree};

verus! {

/// The pose at the start of the world, heading zero.
pub open spec fn start_pose(world: &Playground) -> Pose {
    Pose { x: world.start.0, y: world.start.1, t: 0 }
}

/// The pose at the goal of the world, heading zero.
pub open spec fn goal_pose(world: &Playground) -> Pose {
    Pose { x: world.goal.0, y: world.goal.1, t: 0 }
}

/// Candidates link to nodes nearer than this: the width of the world plus
/// its height.
pub open spec fn reach_limit(world: &Playground) -> int {
    world.size.0 + world.size.1
}

/// The two poses are nearer to each other than [`reach_limit`].
pub open spec fn in_reach(world: &Playground, a: Pose, b: Pose) -> bool {
    reach_limit(world) > 0 && dist_sq(a, b) < reach_limit(world) * reach_limit(world)
}

/// The candidate can be linked to the node at `i`.
pub open spec fn linkable(
    world: &Playground,
    size: (i32, i32),
    nodes: Seq<Pose>,
    candidate: Pose,
    i: int,
) -> bool {
    &&& 0 <= i < nodes.len()
    &&& in_reach(world, candidate, nodes[i])
    &&& edge_valid(world, size, candidate, nodes[i])
}

/// The node at `i` is the nearest that the candidate can be linked to, and
/// the earliest of those that are equally near.
pub open spec fn is_nearest(
    world: &Playground,
    size: (i32, i32),
    nodes: Seq<Pose>,
    candidate: Pose,
    i: int,
) -> bool {
    &&& linkable(world, size, nodes, candidate, i)
    &&& forall|j: int| #[trigger]
        linkable(world, size, nodes, candidate, j) ==> {
            ||| dist_sq(candidate, nodes[i]) < dist_sq(candidate, nodes[j])
            ||| dist_sq(candidate, nodes[i]) == dist_sq(candidate, nodes[j]) && i <= j
        }
}

/// The node that a candidate is linked to.
pub open spec fn nearest(world: &Playground, size: (i32, i32), nodes: Seq<Pose>, candidate: Pose) -> int {
    choose|i: int| is_nearest(world, size, nodes, candidate, i)
}

/// The candidate is taken into a tree of the given nodes: it is new, the
/// footprint may stand at it, and it can be linked.
pub open spec fn takes(world: &Playground, size: (i32, i32), nodes: Seq<Pose>, candidate: Pose) -> bool {
    &&& !nodes.contains(candidate)
    &&& pose_valid(world, size, candidate)
    &&& exists|j: int| linkable(world, size, nodes, candidate, j)
}

/// How far a search has come: the nodes of its tree, the position of each
/// node's parent, and where the goal stands among the nodes once it is
/// linked.
pub struct Growth {
    pub nodes: Seq<Pose>,
    pub parents: Seq<int>,
    pub found: Option<int>,
}

/// The search after one more candidate: nothing changes once the goal is
/// linked, or where the candidate is not taken; else the candidate becomes
/// a node with the nearest node as its parent.
pub open spec fn tried(world: &Playground, size: (i32, i32), goal: Pose, so_far: Growth, candidate: Pose) -> Growth {
    if so_far.found is Some || !takes(world, size, so_far.nodes, candidate) {
        so_far
    } else {
        Growth {
            nodes: so_far.nodes.push(candidate),
            parents: so_far.parents.push(nearest(world, size, so_far.nodes, candidate)),
            found: if candidate == goal {
                Some(so_far.nodes.len() as int)
            } else {
                None
            },
        }
    }
}

/// The search from `start` after the candidates in `draws`, in their order.
pub open spec fn grown_by(
    world: &Playground,
    size: (i32, i32),
    start: Pose,
    goal: Pose,
    draws: Seq<Pose>,
) -> Growth
    decreases draws.len(),
{
    if draws.len() == 0 {
        Growth { nodes: seq![start], parents: seq![0int], found: None }
    } else {
        tried(world, size, goal, grown_by(world, size, start, goal, draws.drop_last()), draws.last())
    }
}

/// The candidates are some that a sampler can draw in the world, and no
/// more of them than `max_attempts`; where the world has no sampling grid
/// there are none.
pub open spec fn drawable(world: &Playground, max_attempts: u32, draws: Seq<Pose>) -> bool {
    &&& draws.len() <= max_attempts
    &&& !has_grid(world) ==> draws.len() == 0
    &&& forall|k: int|
        0 <= k < draws.len() ==> on_grid(world, #[trigger] draws[k]) || draws[k] == goal_pose(world)
}

/// The way that a search has found, or that it has found none.
pub open spec fn route_of(grown: Growth) -> Result<Seq<Pose>, PlanError> {
    match grown.found {
        Some(at) => Ok(route_in(grown.nodes, grown.parents, at)),
        None => Err(PlanError::Unreachable),
    }
}

/// A candidate has one nearest node only.
pub proof fn lemma_nearest_unique(
    world: &Playground,
    size: (i32, i32),
    nodes: Seq<Pose>,
    candidate: Pose,
    i: int,
)
    requires
        is_nearest(world, size, nodes, candidate, i),
    ensures
        nearest(world, size, nodes, candidate) == i,
{
}

/// Every node but the root is a valid pose with a valid edge to its parent.
pub open spec fn tree_sound(world: &Playground, size: (i32, i32), tree: &SearchTree) -> bool {
    &&& tree.wf()
    &&& forall|i: int|
        0 < i < tree.nodes().len() ==> pose_valid(world, size, #[trigger] tree.nodes()[i])
    &&& forall|i: int|
        0 < i < tree.nodes().len() ==> edge_valid(
            world,
            size,
            tree.nodes()[i],
            tree.nodes()[#[trigger] tree.parent_index(i)],
        )
}

/// The path leads from the start to the goal by valid edges, through valid
/// poses that are all different.
pub open spec fn is_route(world: &Playground, size: (i32, i32), path: Seq<Pose>) -> bool {
    &&& path.len() >= 2
    &&& path[0] == start_pose(world)
    &&& path.last() == goal_pose(world)
    &&& path.no_duplicates()
    &&& forall|k: int| 0 <= k < path.len() ==> pose_valid(world, size, #[trigger] path[k])
    &&& path_valid(world, size, path)
}

/// The nearest node that the candidate can be linked to, if there is any.
pub fn nearest_linkable(
    world: &Playground,
    size: (i32, i32),
    tree: &SearchTree,
    candidate: &Pose,
) -> (found: Option<usize>)
    requires
        tree.wf(),
    ensures
        match found {
            Some(i) => is_nearest(world, size, tree.nodes(), *candidate, i as int),
            None => forall|j: int| !linkable(world, size, tree.nodes(), *candidate, j),
        },
{
    let limit: i64 = world.size.0 as i64 + world.size.1 as i64;
    if limit <= 0 {
        return None;
    }
    assert(limit * limit <= 0x1_0000_0000 * 0x1_0000_0000) by (nonlinear_arith)
        requires
            0 < limit <= 0x1_0000_0000,
    ;
    let limit_sq: u128 = (limit as u128) * (limit as u128);
    let mut best: Option<usize> = None;
    let mut best_sq: u128 = limit_sq;
    let n = tree.len();
    let mut i: usize = 0;
    while i < n
        invariant
            tree.wf(),
            n == tree.nodes().len(),
            i <= n,
            limit == reach_limit(world),
            limit > 0,
            limit_sq == limit * limit,
            best_sq <= limit_sq,
            match best {
                Some(b) => {
                    &&& b < i
                    &&& linkable(world, size, tree.nodes(), *candidate, b as int)
                    &&& best_sq == dist_sq(*candidate, tree.nodes()[b as int])
                    &&& forall|j: int|
                        0 <= j < i && #[trigger] linkable(world, size, tree.nodes(), *candidate, j) ==> {
                            ||| best_sq < dist_sq(*candidate, tree.nodes()[j])
                            ||| best_sq == dist_sq(*candidate, tree.nodes()[j]) && b <= j
                        }
                },
                None => {
                    &&& best_sq == limit_sq
                    &&& forall|j: int| 0 <= j < i ==> !linkable(world, size, tree.nodes(), *candidate, j)
                },
            },
        decreases n - i,
    {
        let node = tree.node(i);
        let d = squared_distance(candidate, &node);
        if d < best_sq && is_valid_path(world, size, candidate, &node) {
            best = Some(i);
            best_sq = d;
        }
        i = i + 1;
    }
    best
}

/// Takes a candidate into the tree if it is new, valid, and can be linked;
/// its parent is then the nearest node it can be linked to.
pub fn extend(tree: &mut SearchTree, world: &Playground, size: (i32, i32), candidate: Pose) -> (added: bool)
    requires
        tree_sound(world, size, old(tree)),
    ensures
        tree_sound(world, size, final(tree)),
        final(tree).root() == old(tree).root(),
        added == takes(world, size, old(tree).nodes(), candidate),
        added ==> final(tree).nodes() == old(tree).nodes().push(candidate) && final(tree).parents() == old(
            tree,
        ).parents().push(nearest(world, size, old(tree).nodes(), candidate)) && is_nearest(
            world,
            size,
            old(tree).nodes(),
            candidate,
            nearest(world, size, old(tree).nodes(), candidate),
        ),
        !added ==> *final(tree) == *old(tree),
{
    if tree.contains(&candidate) || !is_valid_pose(world, size, &candidate) {
        return false;
    }
    match nearest_linkable(world, size, tree, &candidate) {
        None => false,
        Some(parent) => {
            tree.insert(candidate, parent);
            proof {
                lemma_nearest_unique(world, size, old(tree).nodes(), candidate, parent as int);
                old(tree).lemma_shape();
                let n = old(tree).nodes().len() as int;
                assert forall|i: int| 0 < i < tree.nodes().len() implies edge_valid(
                    world,
                    size,
                    tree.nodes()[i],
                    tree.nodes()[#[trigger] tree.parent_index(i)],
                ) by {
                    if i < n {
                        assert(tree.parent_index(i) == old(tree).parent_index(i));
                    }
                }
            }
            true
        },
    }
}

/// Grows a tree from the start of the world, one candidate per attempt,
/// until the goal is linked or the attempts are used up. Returns the tree
/// and, if the goal was linked, where it stands in the tree. In a world too
/// small for a sampling grid the tree stays a root.
pub fn grow_tree(world: &Playground, size: (i32, i32), max_attempts: u32) -> (grown: (
    SearchTree,
    Option<usize>,
))
    ensures
        tree_sound(world, size, &grown.0),
        grown.0.root() == start_pose(world),
        grown.0.nodes().len() <= max_attempts + 1,
        forall|i: int|
            0 < i < grown.0.nodes().len() ==> on_grid(world, #[trigger] grown.0.nodes()[i])
                || grown.0.nodes()[i] == goal_pose(world),
        match grown.1 {
            Some(at) => 0 < at < grown.0.nodes().len() && grown.0.nodes()[at as int] == goal_pose(
                world,
            ),
            None => true,
        },
        max_attempts == 0 || !has_grid(world) || start_pose(world) == goal_pose(world) || !pose_valid(
            world,
            size,
            goal_pose(world),
        ) ==> grown.1 is None,
        !has_grid(world) ==> grown.0.nodes() == seq![start_pose(world)],
        exists|draws: Seq<Pose>|
            {
                &&& drawable(world, max_attempts, draws)
                &&& grown.1 is None && has_grid(world) ==> draws.len() == max_attempts
                &&& #[trigger] grown_by(world, size, start_pose(world), goal_pose(world), draws) == (Growth {
                    nodes: grown.0.nodes(),
                    parents: grown.0.parents(),
                    found: match grown.1 {
                        Some(at) => Some(at as int),
                        None => None,
                    },
                })
            },
{
    let start = Pose { x: world.start.0, y: world.start.1, t: 0 };
    let goal = Pose { x: world.goal.0, y: world.goal.1, t: 0 };
    let mut tree = SearchTree::new(start);
    if world.size.0 < GRID_STEP || world.size.1 < GRID_STEP {
        proof {
            tree.lemma_shape();
            let none = Seq::<Pose>::empty();
            assert(grown_by(world, size, start_pose(world), goal_pose(world), none) == (Growth {
                nodes: tree.nodes(),
                parents: tree.parents(),
                found: None,
            }));
        }
        return (tree, None);
    }
    let mut sampler = Sampler::new();
    let mut attempts: u32 = 0;
    let mut found: Option<usize> = None;
    let ghost mut draws: Seq<Pose> = Seq::empty();
    while attempts < max_attempts && found.is_none()
        invariant
            has_grid(world),
            start == start_pose(world),
            goal == goal_pose(world),
            attempts <= max_attempts,
            tree_sound(world, size, &tree),
            tree.root() == start,
            tree.nodes().len() <= attempts + 1,
            forall|i: int|
                0 < i < tree.nodes().len() ==> on_grid(world, #[trigger] tree.nodes()[i])
                    || tree.nodes()[i] == goal,
            match found {
                Some(at) => 0 < at < tree.nodes().len() && tree.nodes()[at as int] == goal,
                None => true,
            },
            found is Some ==> attempts > 0 && start != goal && pose_valid(world, size, goal),
            draws.len() == attempts,
            forall|k: int| 0 <= k < draws.len() ==> on_grid(world, #[trigger] draws[k]) || draws[k] == goal,
            grown_by(world, size, start, goal, draws) == (Growth {
                nodes: tree.nodes(),
                parents: tree.parents(),
                found: match found {
                    Some(at) => Some(at as int),
                    None => None,
                },
            }),
        decreases max_attempts - attempts + (if found is None { 1int } else { 0int }),
    {
        attempts = attempts + 1;
        let candidate = sampler.sample_pose(world, goal);
        proof {
            tree.lemma_shape();
            assert(draws.push(candidate).drop_last() =~= draws);
            draws = draws.push(candidate);
        }
        let n = tree.len();
        if extend(&mut tree, world, size, candidate) {
            if candidate == goal {
                found = Some(n);
            }
        }
    }
    (tree, found)
}

/// The route through a sound tree to one of its nodes is a chain of valid
/// edges through valid poses.
pub proof fn lemma_route_sound(world: &Playground, size: (i32, i32), tree: &SearchTree, at: int)
    requires
        tree_sound(world, size, tree),
        0 <= at < tree.nodes().len(),
    ensures
        path_valid(world, size, tree.route(at)),
        forall|k: int| 0 < k < tree.route(at).len() ==> pose_valid(world, size, #[trigger] tree.route(at)[k]),
{
    tree.lemma_route(at);
    tree.lemma_shape();
    let path = tree.route(at);
    assert forall|k: int| 0 <= k < path.len() - 1 implies edge_valid(
        world,
        size,
        #[trigger] path[k],
        path[k + 1],
    ) by {
        // the tree holds each edge from the child to its parent
        lemma_edge_symmetric(world, size, path[k + 1], path[k]);
    }
}

/// Searches a path from the start of the world to its goal for a footprint
/// of the given size, with at most `max_attempts` candidates.
pub fn rrt_to_goal(world: &Playground, size: (i32, i32), max_attempts: u32) -> (res: Result<
    Vec<Pose>,
    PlanError,
>)
    ensures
        !has_grid(world) ==> res == Err::<Vec<Pose>, PlanError>(PlanError::WorldTooSmall),
        has_grid(world) ==> match res {
            Ok(path) => is_route(world, size, path@) && path@.len() <= max_attempts + 1 && forall|k: int|
                0 < k < path@.len() ==> on_grid(world, #[trigger] path@[k]) || path@[k] == goal_pose(
                    world,
                ),
            Err(e) => e == PlanError::Unreachable,
        },
        max_attempts == 0 || start_pose(world) == goal_pose(world) || !pose_valid(
            world,
            size,
            goal_pose(world),
        ) ==> res is Err,
        !pose_valid(world, size, start_pose(world)) ==> res is Err,
        has_grid(world) ==> exists|draws: Seq<Pose>|
            {
                &&& drawable(world, max_attempts, draws)
                &&& res is Err ==> draws.len() == max_attempts
                &&& route_of(#[trigger] grown_by(world, size, start_pose(world), goal_pose(world), draws))
                    == match res {
                    Ok(path) => Ok::<Seq<Pose>, PlanError>(path@),
                    Err(e) => Err::<Seq<Pose>, PlanError>(e),
                }
            },
{
    if world.size.0 < GRID_STEP || world.size.1 < GRID_STEP {
        return Err(PlanError::WorldTooSmall);
    }
    let (tree, found) = grow_tree(world, size, max_attempts);
    match found {
        None => Err(PlanError::Unreachable),
        Some(at) => {
            let path = tree.path_to(at);
            proof {
                tree.lemma_route(at as int);
                tree.lemma_climb(at as int);
                lemma_route_sound(world, size, &tree, at as int);
                lemma_edge_covers_poses(world, size, path@[0], path@[1]);
            }
            Ok(path)
        },
    }
}

} // verus!
