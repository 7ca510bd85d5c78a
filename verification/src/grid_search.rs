//! Grid search: from each pose the actor may drive a step forward or
//! backward along its heading or turn a step to either side, and the poses
//! are tried best first, by the steps taken so far plus the distance that
//! is left.

use vstd::prelude::*;
use crate::error::PlanError;
use crate::footprint::{is_valid_pose, pose_valid};
use crate::geometry::{
    dist_sq, floor_sqrt, isqrt, lemma_square_monotone, quotient_toward_zero, squared_distance, Pose,
};
use crate::playground::Playground;
use crate::tree::{route_in, SearchTree};
use crate::trig::{cos_signed, cos_sin_at, magnitude, sin_signed, TRIG_SCALE};

verus! {

/// Length of a step forward or backward.
pub const DRIVE_STEP: i64 = 10;

/// Degrees of a turn to either side.
pub const TURN_STEP: i32 = 15;

/// A pose has arrived where its estimate of what is left is below this.
pub const ARRIVAL: u64 = 10;

/// The four ways to leave a pose, in the order in which they are tried.
#[derive(Clone, Copy, Debug, PartialEq, Eq, Structural)]
pub enum Move {
    Forward,
    Backward,
    TurnRight,
    TurnLeft,
}

/// A pose that waits to be tried.
#[derive(Clone, Copy, Debug, PartialEq, Eq)]
pub struct Candidate {
    /// Steps taken to reach the pose plus the estimate of what is left.
    pub priority: u64,
    /// Steps taken to reach the pose.
    pub cost: u64,
    pub pose: Pose,
    /// Where the pose it was reached from stands in the tree.
    pub parent: usize,
}

/// What one step forward at heading `t` adds to `x` and to `y`: the step
/// times the cosine and times the sine, rounded toward zero.
pub open spec fn drive_offset(t: int) -> (int, int) {
    (
        quotient_toward_zero(DRIVE_STEP * cos_signed(t), TRIG_SCALE as int),
        quotient_toward_zero(DRIVE_STEP * sin_signed(t), TRIG_SCALE as int),
    )
}

/// The value is one that a coordinate or a heading can take.
pub open spec fn fits(v: int) -> bool {
    i32::MIN <= v <= i32::MAX
}

/// The pose that a move leads to, where its coordinates and heading can be
/// represented.
#[verifier::opaque]
pub open spec fn moved(p: Pose, m: Move) -> Option<Pose> {
    let o = drive_offset(p.t as int);
    let q: (int, int, int) = match m {
        Move::Forward => (p.x + o.0, p.y + o.1, p.t as int),
        Move::Backward => (p.x - o.0, p.y - o.1, p.t as int),
        Move::TurnRight => (p.x as int, p.y as int, p.t + TURN_STEP),
        Move::TurnLeft => (p.x as int, p.y as int, p.t - TURN_STEP),
    };
    if fits(q.0) && fits(q.1) && fits(q.2) {
        Some(Pose { x: q.0 as i32, y: q.1 as i32, t: q.2 as i32 })
    } else {
        None
    }
}

/// Whole turns between the headings of two poses.
pub open spec fn turns_apart(a: Pose, b: Pose) -> int {
    magnitude(a.t - b.t) / (TURN_STEP as int)
}

/// Estimate of what is left from a pose to the goal: the distance and the
/// turns between them taken as the legs of a right triangle, rounded down.
#[verifier::opaque]
pub open spec fn heuristic(p: Pose, goal: Pose) -> int {
    floor_sqrt(dist_sq(p, goal) + turns_apart(p, goal) * turns_apart(p, goal))
}

/// The pose is as good as at the goal.
pub open spec fn arrived(p: Pose, goal: Pose) -> bool {
    heuristic(p, goal) < ARRIVAL
}

/// One move leads from `a` to `b`, and the footprint may stand at `b`.
#[verifier::opaque]
pub open spec fn drivable(world: &Playground, size: (i32, i32), a: Pose, b: Pose) -> bool {
    &&& pose_valid(world, size, b)
    &&& exists|m: Move| #[trigger] moved(a, m) == Some(b)
}

/// The path leaves `start` and goes on by one move at a time through poses
/// at which the footprint may stand.
pub open spec fn drives(world: &Playground, size: (i32, i32), start: Pose, path: Seq<Pose>) -> bool {
    &&& path.len() >= 1
    &&& path[0] == start
    &&& forall|k: int| 0 <= k < path.len() - 1 ==> drivable(world, size, #[trigger] path[k], path[k + 1])
}

/// The candidate at `i` has the lowest priority, and is the earliest of
/// those that share it.
pub open spec fn is_best(frontier: Seq<Candidate>, i: int) -> bool {
    &&& 0 <= i < frontier.len()
    &&& forall|j: int|
        0 <= j < frontier.len() ==> {
            ||| frontier[i].priority < (#[trigger] frontier[j]).priority
            ||| frontier[i].priority == frontier[j].priority && i <= j
        }
}

/// The pose waits in the frontier.
pub open spec fn queued(frontier: Seq<Candidate>, p: Pose) -> bool {
    exists|k: int| 0 <= k < frontier.len() && (#[trigger] frontier[k]).pose == p
}

/// Every node but the root was reached from its parent by one move to a
/// valid pose, and no node has arrived.
pub open spec fn tree_driven(world: &Playground, size: (i32, i32), tree: &SearchTree, goal: Pose) -> bool {
    &&& tree.wf()
    &&& forall|i: int|
        0 < i < tree.nodes().len() ==> drivable(
            world,
            size,
            tree.nodes()[#[trigger] tree.parent_index(i)],
            tree.nodes()[i],
        )
    &&& forall|i: int| 0 <= i < tree.nodes().len() ==> !arrived(#[trigger] tree.nodes()[i], goal)
}

/// Every candidate was reached by one move to a valid pose from the node
/// that it names as its parent, in no more than `steps` steps.
pub open spec fn frontier_sound(
    world: &Playground,
    size: (i32, i32),
    tree: &SearchTree,
    frontier: Seq<Candidate>,
    steps: int,
) -> bool {
    forall|k: int|
        0 <= k < frontier.len() ==> {
            &&& (#[trigger] frontier[k]).parent < tree.nodes().len()
            &&& drivable(world, size, tree.nodes()[frontier[k].parent as int], frontier[k].pose)
            &&& frontier[k].cost <= steps
        }
}

/// Whatever valid pose one move leads to from the node at `i` is a node or
/// waits in the frontier.
pub open spec fn node_covered(
    world: &Playground,
    size: (i32, i32),
    tree: &SearchTree,
    frontier: Seq<Candidate>,
    i: int,
) -> bool {
    forall|m: Move|
        (#[trigger] moved(tree.nodes()[i], m)) is Some && pose_valid(world, size, moved(tree.nodes()[i], m)->0)
            ==> tree.has(moved(tree.nodes()[i], m)->0) || queued(frontier, moved(tree.nodes()[i], m)->0)
}

/// [`node_covered`] of every node.
pub open spec fn covered(world: &Playground, size: (i32, i32), tree: &SearchTree, frontier: Seq<Candidate>) -> bool {
    forall|i: int| 0 <= i < tree.nodes().len() ==> #[trigger] node_covered(world, size, tree, frontier, i)
}

/// The candidate that a move from `node` puts into the frontier, where the
/// move leads to a pose at which the footprint may stand: `node` stands at
/// `at` in the tree and was reached in `cost` steps.
pub open spec fn successor(
    world: &Playground,
    size: (i32, i32),
    goal: Pose,
    node: Pose,
    at: int,
    cost: int,
    m: Move,
) -> Seq<Candidate> {
    if moved(node, m) is Some && pose_valid(world, size, moved(node, m)->0) {
        seq![
            Candidate {
                priority: (cost + 1 + heuristic(moved(node, m)->0, goal)) as u64,
                cost: (cost + 1) as u64,
                pose: moved(node, m)->0,
                parent: at as usize,
            },
        ]
    } else {
        Seq::empty()
    }
}

/// The candidates that `node` puts into the frontier: one for each move, in
/// the order of the moves.
pub open spec fn successors(
    world: &Playground,
    size: (i32, i32),
    goal: Pose,
    node: Pose,
    at: int,
    cost: int,
) -> Seq<Candidate> {
    successor(world, size, goal, node, at, cost, Move::Forward) + successor(
        world,
        size,
        goal,
        node,
        at,
        cost,
        Move::Backward,
    ) + successor(world, size, goal, node, at, cost, Move::TurnRight) + successor(
        world,
        size,
        goal,
        node,
        at,
        cost,
        Move::TurnLeft,
    )
}

/// What the search returns from a state in which `nodes` are final, each
/// with its parent at the position that `parents` names, `frontier` waits,
/// and `expansions` nodes were expanded: it takes the best candidate out of
/// the frontier; drops it if its pose is final; else makes the pose final
/// and, if it has arrived, returns the way to it; else puts its successors
/// into the frontier and goes on.
pub open spec fn search_from(
    world: &Playground,
    size: (i32, i32),
    goal: Pose,
    nodes: Seq<Pose>,
    parents: Seq<int>,
    frontier: Seq<Candidate>,
    expansions: nat,
    max_expansions: nat,
) -> Result<Seq<Pose>, PlanError>
    decreases max_expansions - expansions, frontier.len(),
{
    let k = choose|k: int| is_best(frontier, k);
    if frontier.len() == 0 || !(0 <= k < frontier.len()) {
        Err(PlanError::PathNotFound)
    } else if expansions >= max_expansions {
        Err(PlanError::SearchExhausted)
    } else {
        let best = frontier[k];
        let rest = frontier.subrange(0, k) + frontier.subrange(k + 1, frontier.len() as int);
        if nodes.contains(best.pose) {
            search_from(world, size, goal, nodes, parents, rest, expansions, max_expansions)
        } else if arrived(best.pose, goal) {
            Ok(route_in(nodes.push(best.pose), parents.push(best.parent as int), nodes.len() as int))
        } else {
            search_from(
                world,
                size,
                goal,
                nodes.push(best.pose),
                parents.push(best.parent as int),
                rest + successors(world, size, goal, best.pose, nodes.len() as int, best.cost as int),
                expansions + 1,
                max_expansions,
            )
        }
    }
}

/// What the grid search returns: the start alone where it has arrived, else
/// what the search returns from the start with its successors waiting.
pub open spec fn grid_search(
    world: &Playground,
    size: (i32, i32),
    start: Pose,
    goal: Pose,
    max_expansions: nat,
) -> Result<Seq<Pose>, PlanError> {
    if arrived(start, goal) {
        Ok(seq![start])
    } else {
        search_from(
            world,
            size,
            goal,
            seq![start],
            seq![0int],
            successors(world, size, goal, start, 0, 0),
            0,
            max_expansions,
        )
    }
}

/// A frontier in which something waits has a best candidate.
pub proof fn lemma_first_is_candidate(frontier: Seq<Candidate>)
    requires
        frontier.len() > 0,
    ensures
        exists|k: int| is_best(frontier, k),
    decreases frontier.len(),
{
    if frontier.len() == 1 {
        assert(is_best(frontier, 0));
    } else {
        let front = frontier.drop_last();
        lemma_first_is_candidate(front);
        let k = choose|k: int| is_best(front, k);
        let last = frontier.len() - 1;
        if frontier[last].priority < front[k].priority {
            assert forall|j: int| 0 <= j < frontier.len() implies {
                ||| frontier[last].priority < (#[trigger] frontier[j]).priority
                ||| frontier[last].priority == frontier[j].priority && last <= j
            } by {
                if j < last {
                    assert(front[j] == frontier[j]);
                }
            }
            assert(is_best(frontier, last));
        } else {
            assert forall|j: int| 0 <= j < frontier.len() implies {
                ||| frontier[k].priority < (#[trigger] frontier[j]).priority
                ||| frontier[k].priority == frontier[j].priority && k <= j
            } by {
                if j < last {
                    assert(front[j] == frontier[j]);
                }
            }
            assert(is_best(frontier, k));
        }
    }
}

/// A frontier has one best candidate only.
pub proof fn lemma_best_unique(frontier: Seq<Candidate>, i: int, j: int)
    requires
        is_best(frontier, i),
        is_best(frontier, j),
    ensures
        i == j,
{
    assert(frontier[j].priority <= frontier[i].priority);
}

/// Each successor of a node was reached from it by one move to a valid
/// pose, and every valid pose that one move leads to is among them.
pub proof fn lemma_successors(
    world: &Playground,
    size: (i32, i32),
    goal: Pose,
    node: Pose,
    at: int,
    cost: int,
)
    requires
        0 <= at <= usize::MAX,
        0 <= cost <= u32::MAX,
    ensures
        successors(world, size, goal, node, at, cost).len() <= 4,
        forall|k: int|
            0 <= k < successors(world, size, goal, node, at, cost).len() ==> {
                &&& (#[trigger] successors(world, size, goal, node, at, cost)[k]).parent == at
                &&& successors(world, size, goal, node, at, cost)[k].cost == cost + 1
                &&& drivable(world, size, node, successors(world, size, goal, node, at, cost)[k].pose)
            },
        forall|m: Move|
            (#[trigger] moved(node, m)) is Some && pose_valid(world, size, moved(node, m)->0) ==> queued(
                successors(world, size, goal, node, at, cost),
                moved(node, m)->0,
            ),
{
    reveal(drivable);
    let a = successor(world, size, goal, node, at, cost, Move::Forward);
    let b = successor(world, size, goal, node, at, cost, Move::Backward);
    let c = successor(world, size, goal, node, at, cost, Move::TurnRight);
    let d = successor(world, size, goal, node, at, cost, Move::TurnLeft);
    let all = successors(world, size, goal, node, at, cost);
    assert forall|m: Move|
        (#[trigger] moved(node, m)) is Some && pose_valid(world, size, moved(node, m)->0) implies queued(
        all,
        moved(node, m)->0,
    ) by {
        match m {
            Move::Forward => {
                assert(all[0] == a[0]);
            },
            Move::Backward => {
                assert(all[a.len() as int] == b[0]);
            },
            Move::TurnRight => {
                assert(all[(a.len() + b.len()) as int] == c[0]);
            },
            Move::TurnLeft => {
                assert(all[(a.len() + b.len() + c.len()) as int] == d[0]);
            },
        }
    }
}

/// Where nothing waits and every node is covered, every pose that can be
/// driven to from the root is a node.
pub proof fn lemma_closed_tree(world: &Playground, size: (i32, i32), tree: &SearchTree, path: Seq<Pose>, k: int)
    requires
        tree.wf(),
        covered(world, size, tree, Seq::<Candidate>::empty()),
        drives(world, size, tree.root(), path),
        0 <= k < path.len(),
    ensures
        tree.has(path[k]),
    decreases k,
{
    reveal(drivable);
    tree.lemma_shape();
    if k > 0 {
        lemma_closed_tree(world, size, tree, path, k - 1);
        let i = choose|i: int| 0 <= i < tree.nodes().len() && tree.nodes()[i] == path[k - 1];
        assert(node_covered(world, size, tree, Seq::<Candidate>::empty(), i));
    }
}

/// Computes [`drive_offset`].
pub fn offset_at(t: i32) -> (o: (i64, i64))
    ensures
        o.0 == drive_offset(t as int).0,
        o.1 == drive_offset(t as int).1,
        -DRIVE_STEP <= o.0 <= DRIVE_STEP,
        -DRIVE_STEP <= o.1 <= DRIVE_STEP,
{
    let cs = cos_sin_at(t);
    (scaled_step(cs.0), scaled_step(cs.1))
}

/// The step times a sine or cosine in fixed point, rounded toward zero.
pub fn scaled_step(factor: i64) -> (v: i64)
    requires
        -TRIG_SCALE <= factor <= TRIG_SCALE,
    ensures
        v == quotient_toward_zero(DRIVE_STEP * factor, TRIG_SCALE as int),
        -DRIVE_STEP <= v <= DRIVE_STEP,
{
    if factor >= 0 {
        (DRIVE_STEP * factor) / TRIG_SCALE
    } else {
        -((DRIVE_STEP * (-factor)) / TRIG_SCALE)
    }
}

/// Computes [`moved`].
pub fn apply_move(p: &Pose, m: Move) -> (next: Option<Pose>)
    ensures
        next == moved(*p, m),
{
    reveal(moved);
    let o = offset_at(p.t);
    let q: (i64, i64, i64) = match m {
        Move::Forward => (p.x as i64 + o.0, p.y as i64 + o.1, p.t as i64),
        Move::Backward => (p.x as i64 - o.0, p.y as i64 - o.1, p.t as i64),
        Move::TurnRight => (p.x as i64, p.y as i64, p.t as i64 + TURN_STEP as i64),
        Move::TurnLeft => (p.x as i64, p.y as i64, p.t as i64 - TURN_STEP as i64),
    };
    if q.0 >= i32::MIN as i64 && q.0 <= i32::MAX as i64 && q.1 >= i32::MIN as i64 && q.1 <= i32::MAX as i64
        && q.2 >= i32::MIN as i64 && q.2 <= i32::MAX as i64 {
        Some(Pose { x: q.0 as i32, y: q.1 as i32, t: q.2 as i32 })
    } else {
        None
    }
}

/// Computes [`heuristic`].
pub fn estimate(p: &Pose, goal: &Pose) -> (h: u64)
    ensures
        h == heuristic(*p, *goal),
        h <= 0x2_0000_0000,
{
    reveal(heuristic);
    let d = squared_distance(p, goal);
    let pt = p.t as i64;
    let gt = goal.t as i64;
    let apart: u64 = if pt >= gt { (pt - gt) as u64 } else { (gt - pt) as u64 };
    let turns: u128 = (apart / (TURN_STEP as u64)) as u128;
    proof {
        lemma_square_monotone(turns as int, 0x1_0000_0000);
    }
    let h = isqrt(d + turns * turns);
    proof {
        if h > 0x2_0000_0000 {
            lemma_square_monotone(0x2_0000_0000, h as int);
        }
    }
    h
}

/// Whether the pose is as good as at the goal.
pub fn has_arrived(p: &Pose, goal: &Pose) -> (there: bool)
    ensures
        there == arrived(*p, *goal),
{
    estimate(p, goal) < ARRIVAL
}

/// Takes the best candidate out of the frontier: the one with the lowest
/// priority, and the earliest of those that share it.
pub fn pop_best(frontier: &mut Vec<Candidate>) -> (best: (usize, Candidate))
    requires
        old(frontier)@.len() > 0,
    ensures
        is_best(old(frontier)@, best.0 as int),
        best.1 == old(frontier)@[best.0 as int],
        final(frontier)@ == old(frontier)@.remove(best.0 as int),
{
    let mut at: usize = 0;
    let mut i: usize = 1;
    while i < frontier.len()
        invariant
            frontier@ == old(frontier)@,
            at < i <= frontier@.len(),
            forall|j: int|
                0 <= j < i ==> {
                    ||| frontier@[at as int].priority < (#[trigger] frontier@[j]).priority
                    ||| frontier@[at as int].priority == frontier@[j].priority && at <= j
                },
        decreases frontier@.len() - i,
    {
        if frontier[i].priority < frontier[at].priority {
            at = i;
        }
        i = i + 1;
    }
    let best = frontier.remove(at);
    (at, best)
}

/// Puts the pose that the move leads to into the frontier, where there is
/// such a pose and the footprint may stand at it.
pub fn consider(
    frontier: &mut Vec<Candidate>,
    world: &Playground,
    size: (i32, i32),
    goal: &Pose,
    node: &Pose,
    at: usize,
    cost: u64,
    m: Move,
)
    requires
        cost <= u32::MAX,
    ensures
        final(frontier)@ == old(frontier)@ + successor(world, size, *goal, *node, at as int, cost as int, m),
{
    match apply_move(node, m) {
        None => {},
        Some(next) => {
            if is_valid_pose(world, size, &next) {
                let h = estimate(&next, goal);
                frontier.push(Candidate { priority: cost + 1 + h, cost: cost + 1, pose: next, parent: at });
            }
        },
    }
}

/// Puts every valid pose that one move leads to from `node` into the
/// frontier.
pub fn expand(
    frontier: &mut Vec<Candidate>,
    world: &Playground,
    size: (i32, i32),
    goal: &Pose,
    node: &Pose,
    at: usize,
    cost: u64,
)
    requires
        cost <= u32::MAX,
    ensures
        final(frontier)@ == old(frontier)@ + successors(world, size, *goal, *node, at as int, cost as int),
{
    consider(frontier, world, size, goal, node, at, cost, Move::Forward);
    consider(frontier, world, size, goal, node, at, cost, Move::Backward);
    consider(frontier, world, size, goal, node, at, cost, Move::TurnRight);
    consider(frontier, world, size, goal, node, at, cost, Move::TurnLeft);
}

/// Searches a way for a footprint of the given size from `start` to a pose
/// that has arrived at `goal`, trying at most `max_expansions` poses beyond
/// the start.
pub fn grid_to_goal(
    world: &Playground,
    size: (i32, i32),
    start: Pose,
    goal: Pose,
    max_expansions: u32,
) -> (res: Result<Vec<Pose>, PlanError>)
    ensures
        match res {
            Ok(path) => {
                &&& grid_search(world, size, start, goal, max_expansions as nat) == Ok::<
                    Seq<Pose>,
                    PlanError,
                >(path@)
                &&& drives(world, size, start, path@)
                &&& arrived(path@.last(), goal)
                &&& forall|k: int| 0 <= k < path@.len() - 1 ==> !arrived(#[trigger] path@[k], goal)
                &&& path@.no_duplicates()
                &&& path@.len() <= max_expansions + 1
            },
            Err(e) => {
                &&& grid_search(world, size, start, goal, max_expansions as nat) == Err::<
                    Seq<Pose>,
                    PlanError,
                >(e)
                &&& e == PlanError::PathNotFound || e == PlanError::SearchExhausted
                &&& e == PlanError::PathNotFound ==> forall|path: Seq<Pose>|
                    #[trigger] drives(world, size, start, path) ==> !arrived(path.last(), goal)
            },
        },
        arrived(start, goal) ==> res is Ok && res->Ok_0@ == seq![start],
        !arrived(start, goal) && max_expansions == 0 ==> res is Err,
{
    let mut tree = SearchTree::new(start);
    if has_arrived(&start, &goal) {
        let path = tree.path_to(0);
        proof {
            tree.lemma_route(0);
            tree.lemma_climb(0);
            assert(path@ =~= seq![start]);
        }
        return Ok(path);
    }
    let mut frontier: Vec<Candidate> = Vec::new();
    expand(&mut frontier, world, size, &goal, &start, 0, 0);
    let mut expansions: u32 = 0;
    proof {
        lemma_successors(world, size, goal, start, 0, 0);
    }
    loop
        invariant
            expansions <= max_expansions,
            !arrived(start, goal),
            tree_driven(world, size, &tree, goal),
            tree.root() == start,
            tree.nodes().len() <= expansions + 1,
            frontier_sound(world, size, &tree, frontier@, expansions + 1),
            covered(world, size, &tree, frontier@),
            search_from(
                world,
                size,
                goal,
                tree.nodes(),
                tree.parents(),
                frontier@,
                expansions as nat,
                max_expansions as nat,
            ) == grid_search(world, size, start, goal, max_expansions as nat),
        decreases max_expansions - expansions, frontier@.len(),
    {
        if frontier.len() == 0 {
            proof {
                assert(frontier@ =~= Seq::<Candidate>::empty());
                assert forall|path: Seq<Pose>| #[trigger] drives(world, size, start, path) implies !arrived(
                    path.last(),
                    goal,
                ) by {
                    lemma_closed_tree(world, size, &tree, path, path.len() - 1);
                }
            }
            return Err(PlanError::PathNotFound);
        }
        let ghost before = frontier@;
        let ghost grown = tree;
        proof {
            tree.lemma_shape();
        }
        if expansions >= max_expansions {
            proof {
                lemma_first_is_candidate(before);
            }
            return Err(PlanError::SearchExhausted);
        }
        let (taken, best) = pop_best(&mut frontier);
        proof {
            lemma_best_unique(before, taken as int, choose|k: int| is_best(before, k));
            assert forall|p: Pose| queued(before, p) implies queued(frontier@, p) || p == best.pose by {
                let k = choose|k: int| 0 <= k < before.len() && (#[trigger] before[k]).pose == p;
                if k < taken {
                    assert(frontier@[k] == before[k]);
                } else if k > taken {
                    assert(frontier@[k - 1] == before[k]);
                }
            }
        }
        if tree.contains(&best.pose) {
            proof {
                assert forall|i: int| 0 <= i < tree.nodes().len() implies #[trigger] node_covered(
                    world,
                    size,
                    &tree,
                    frontier@,
                    i,
                ) by {
                    assert(node_covered(world, size, &tree, before, i));
                }
            }
        } else {
            let at = tree.len();
            tree.insert(best.pose, best.parent);
            let there = has_arrived(&best.pose, &goal);
            proof {
                assert forall|i: int| 0 < i < tree.nodes().len() implies drivable(
                    world,
                    size,
                    tree.nodes()[#[trigger] tree.parent_index(i)],
                    tree.nodes()[i],
                ) by {
                    if i < at {
                        assert(tree.nodes()[grown.parent_index(i)] == grown.nodes()[grown.parent_index(i)]);
                    }
                }
            }
            if there {
                let path = tree.path_to(at);
                proof {
                    tree.lemma_route(at as int);
                    tree.lemma_climb(at as int);
                    tree.lemma_shape();
                    reveal(drivable);
                    assert forall|k: int| 0 <= k < path@.len() - 1 implies drivable(
                        world,
                        size,
                        #[trigger] path@[k],
                        path@[k + 1],
                    ) by {
                        let child = path@[k + 1];
                        let c = choose|c: int| 0 <= c < tree.nodes().len() && tree.nodes()[c] == child;
                        tree.lemma_parent_of_node(c);
                        if c == 0 {
                            tree.lemma_no_self_parent(child);
                        }
                    }
                }
                return Ok(path);
            }
            expansions = expansions + 1;
            let ghost kept = frontier@;
            expand(&mut frontier, world, size, &goal, &best.pose, at, best.cost);
            proof {
                lemma_successors(world, size, goal, best.pose, at as int, best.cost as int);
                let fresh = successors(world, size, goal, best.pose, at as int, best.cost as int);
                assert forall|p: Pose| queued(kept, p) implies queued(frontier@, p) by {
                    let k = choose|k: int| 0 <= k < kept.len() && (#[trigger] kept[k]).pose == p;
                    assert(frontier@[k] == kept[k]);
                }
                assert forall|p: Pose| queued(fresh, p) implies queued(frontier@, p) by {
                    let k = choose|k: int| 0 <= k < fresh.len() && (#[trigger] fresh[k]).pose == p;
                    assert(frontier@[kept.len() + k] == fresh[k]);
                }
                assert forall|i: int| 0 <= i < tree.nodes().len() implies #[trigger] node_covered(
                    world,
                    size,
                    &tree,
                    frontier@,
                    i,
                ) by {
                    if i < at {
                        assert(node_covered(world, size, &grown, before, i));
                        assert forall|m: Move|
                            (#[trigger] moved(tree.nodes()[i], m)) is Some && pose_valid(
                                world,
                                size,
                                moved(tree.nodes()[i], m)->0,
                            ) implies tree.has(moved(tree.nodes()[i], m)->0) || queued(
                            frontier@,
                            moved(tree.nodes()[i], m)->0,
                        ) by {
                            let s = moved(tree.nodes()[i], m)->0;
                            if grown.has(s) {
                                let j = choose|j: int| 0 <= j < grown.nodes().len() && grown.nodes()[j] == s;
                                assert(tree.nodes()[j] == s);
                            } else {
                                if s == best.pose {
                                    assert(tree.nodes()[at as int] == s);
                                }
                            }
                        }
                    }
                }
            }
        }
    }
}

} // verus!
