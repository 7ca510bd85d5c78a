use playground::actor::Actor;
use playground::error::PlanError;
use playground::geometry::{euclid_dist, Pose, Rect};
use playground::grid_search::{
    apply_move, estimate, expand, grid_to_goal, has_arrived, offset_at, pop_best, Candidate, Move, ARRIVAL,
    DRIVE_STEP, TURN_STEP,
};
use playground::planner::Planner;
use playground::playground::Playground;

fn at(x: i32, y: i32, t: i32) -> Pose {
    Pose { x, y, t }
}

#[test]
fn grid_search_in_the_open() {
    let playground = Playground::new((800, 800), (50, 50), (750, 750));
    let actor = Actor::new(&playground);
    let path = actor.grid_to_goal(&playground, 100_000).unwrap();
    assert!(!path.is_empty());
    let straight = euclid_dist(&at(50, 50, 0), &at(750, 750, 0));
    assert_eq!(straight, 989);
    assert!(path.len() as u64 > straight / DRIVE_STEP as u64);
    assert!(path.len() as u64 * DRIVE_STEP as u64 > straight);

    assert_eq!(path[0], at(50, 50, 0));
    let goal = at(750, 750, 0);
    assert!(has_arrived(path.last().unwrap(), &goal));
    for pose in &path[..path.len() - 1] {
        assert!(!has_arrived(pose, &goal));
    }
    let moves = [Move::Forward, Move::Backward, Move::TurnRight, Move::TurnLeft];
    for pair in path.windows(2) {
        assert!(moves.iter().any(|m| apply_move(&pair[0], *m) == Some(pair[1])));
        assert!(actor.is_valid_pose(&playground, &pair[1]));
    }
    for (i, a) in path.iter().enumerate() {
        for b in &path[i + 1..] {
            assert_ne!(a, b);
        }
    }
    // the search has no chance in it: it finds the same way again
    assert_eq!(actor.grid_to_goal(&playground, 100_000), Ok(path));
}

#[test]
fn moves_of_the_grid_search() {
    assert_eq!(DRIVE_STEP, 10);
    assert_eq!(TURN_STEP, 15);
    let p = at(100, 100, 0);
    assert_eq!(apply_move(&p, Move::Forward), Some(at(110, 100, 0)));
    assert_eq!(apply_move(&p, Move::Backward), Some(at(90, 100, 0)));
    assert_eq!(apply_move(&p, Move::TurnRight), Some(at(100, 100, 15)));
    assert_eq!(apply_move(&p, Move::TurnLeft), Some(at(100, 100, -15)));
    let q = at(100, 100, 45);
    assert_eq!(apply_move(&q, Move::Forward), Some(at(107, 107, 45)));
    assert_eq!(apply_move(&q, Move::Backward), Some(at(93, 93, 45)));
    let r = at(0, 0, 195);
    assert_eq!(apply_move(&r, Move::Forward), Some(at(-9, -2, 195)));
    assert_eq!(apply_move(&r, Move::Backward), Some(at(9, 2, 195)));
    assert_eq!(offset_at(285), (2, -9));
    assert_eq!(offset_at(-90), (0, -10));
    assert_eq!(offset_at(360 + 75), (2, 9));
    // no move leads out of the numbers
    assert_eq!(apply_move(&at(i32::MAX - 5, 0, 0), Move::Forward), None);
    assert_eq!(apply_move(&at(i32::MIN + 5, 0, 0), Move::Backward), None);
    assert_eq!(apply_move(&at(0, i32::MAX, 90), Move::Forward), None);
    assert_eq!(apply_move(&at(0, 0, i32::MAX - 14), Move::TurnRight), None);
    assert_eq!(apply_move(&at(0, 0, i32::MIN + 14), Move::TurnLeft), None);
    assert_eq!(
        apply_move(&at(0, 0, i32::MAX - 15), Move::TurnRight),
        Some(at(0, 0, i32::MAX))
    );
}

#[test]
fn estimate_of_what_is_left() {
    let goal = at(0, 0, 0);
    assert_eq!(estimate(&at(3, 4, 0), &goal), 5);
    assert_eq!(estimate(&at(100, 100, 45), &goal), 141);
    // twelve turns and nothing else
    assert_eq!(estimate(&at(0, 0, 180), &goal), 12);
    assert_eq!(estimate(&at(0, 0, -180), &goal), 12);
    // less than a turn does not count
    assert_eq!(estimate(&at(0, 0, 14), &goal), 0);
    assert_eq!(estimate(&at(6, 0, 120), &goal), 10);
    assert_eq!(ARRIVAL, 10);
    assert!(has_arrived(&at(9, 0, 0), &goal));
    assert!(!has_arrived(&at(10, 0, 0), &goal));
    assert!(has_arrived(&at(7, 6, 29), &goal));
    assert!(!has_arrived(&at(6, 0, 120), &goal));
    assert_eq!(
        estimate(&at(i32::MIN, i32::MIN, i32::MIN), &at(i32::MAX, i32::MAX, i32::MAX)),
        6_080_746_143
    );
}

#[test]
fn best_candidate_leaves_the_frontier_first() {
    let c = |priority: u64, x: i32| Candidate { priority, cost: 1, pose: at(x, 0, 0), parent: 0 };
    let mut frontier = vec![c(7, 0), c(3, 1), c(9, 2), c(3, 3), c(5, 4)];
    assert_eq!(pop_best(&mut frontier), (1, c(3, 1)));
    assert_eq!(frontier, vec![c(7, 0), c(9, 2), c(3, 3), c(5, 4)]);
    assert_eq!(pop_best(&mut frontier), (2, c(3, 3)));
    assert_eq!(pop_best(&mut frontier), (2, c(5, 4)));
    assert_eq!(pop_best(&mut frontier), (0, c(7, 0)));
    assert_eq!(pop_best(&mut frontier), (0, c(9, 2)));
    assert!(frontier.is_empty());
}

#[test]
fn valid_successors_join_the_frontier() {
    let mut world = Playground::new((200, 200), (100, 100), (150, 150));
    world.add_obstacles(Rect { anchor: (115, 50), size: (10, 100) }).unwrap();
    let goal = at(150, 150, 0);
    let mut frontier = Vec::new();
    expand(&mut frontier, &world, (15, 30), &goal, &at(100, 100, 0), 3, 6);
    // the step forward runs into the obstacle
    let poses: Vec<Pose> = frontier.iter().map(|c| c.pose).collect();
    assert_eq!(poses, vec![at(90, 100, 0), at(100, 100, 15), at(100, 100, -15)]);
    for c in &frontier {
        assert_eq!(c.parent, 3);
        assert_eq!(c.cost, 7);
        assert_eq!(c.priority, 7 + estimate(&c.pose, &goal));
    }
    assert_eq!(frontier[0].priority, 7 + 78);
}

#[test]
fn arriving_at_once() {
    let world = Playground::new((800, 800), (50, 50), (55, 55));
    let start = at(50, 50, 0);
    assert_eq!(grid_to_goal(&world, (15, 30), start, at(55, 55, 0), 0), Ok(vec![start]));
    assert_eq!(grid_to_goal(&world, (15, 30), start, at(55, 55, 30), 10), Ok(vec![start]));
}

#[test]
fn grid_search_runs_out_of_expansions() {
    let world = Playground::new((800, 800), (50, 50), (750, 750));
    let start = at(50, 50, 0);
    let goal = at(750, 750, 0);
    assert_eq!(grid_to_goal(&world, (15, 30), start, goal, 0), Err(PlanError::SearchExhausted));
    assert_eq!(grid_to_goal(&world, (15, 30), start, goal, 50), Err(PlanError::SearchExhausted));
    let short = grid_to_goal(&world, (15, 30), start, at(80, 50, 0), 3).unwrap();
    assert_eq!(short, vec![start, at(60, 50, 0), at(70, 50, 0), at(80, 50, 0)]);
    assert_eq!(grid_to_goal(&world, (15, 30), start, at(100, 50, 0), 2), Err(PlanError::SearchExhausted));
}

#[test]
fn grid_search_runs_out_of_poses() {
    // nowhere to stand but at the start
    let world = Playground::new((800, 800), (50, 50), (750, 750));
    let start = at(50, 50, 0);
    let goal = at(750, 750, 0);
    assert_eq!(grid_to_goal(&world, (900, 900), start, goal, 1_000), Err(PlanError::PathNotFound));
    assert_eq!(grid_to_goal(&world, (900, 900), start, goal, 0), Err(PlanError::PathNotFound));
    // a slot in which the actor can shuttle but not turn far
    let mut slot = Playground::new((800, 800), (400, 400), (750, 750));
    for wall in [
        Rect { anchor: (300, 300), size: (200, 80) },
        Rect { anchor: (300, 420), size: (200, 80) },
        Rect { anchor: (300, 300), size: (60, 200) },
        Rect { anchor: (440, 300), size: (60, 200) },
    ] {
        slot.add_obstacles(wall).unwrap();
    }
    let actor = Actor { pose: at(400, 400, 0), size: (30, 30) };
    assert!(actor.is_valid_pose(&slot, &at(400, 400, 0)));
    assert_eq!(actor.grid_to_goal(&slot, 100_000), Err(PlanError::PathNotFound));
}

#[test]
fn grid_search_goes_round_a_wall() {
    let mut world = Playground::new((400, 400), (50, 200), (350, 200));
    world.add_obstacles(Rect { anchor: (190, 170), size: (20, 60) }).unwrap();
    let actor = Actor::new(&world);
    let path = actor.grid_to_goal(&world, 20_000).unwrap();
    assert_eq!(path[0], at(50, 200, 0));
    assert!(has_arrived(path.last().unwrap(), &at(350, 200, 0)));
    for pose in &path[1..] {
        assert!(actor.is_valid_pose(&world, pose));
    }
    assert!(path.iter().any(|p| p.y < 170 || p.y > 230));
}

#[test]
fn planner_lays_out_a_grid_path() {
    let playground = Playground::new((800, 800), (50, 50), (750, 750));
    let mut planner = Planner::new(&playground);
    assert_eq!(planner.compute_grid_path(&playground, 50), Err(PlanError::SearchExhausted));
    assert!(planner.splines.is_none());
    assert!(planner.path.is_empty());
    assert_eq!(planner.compute_grid_path(&playground, 100_000), Ok(()));
    let path = planner.path.clone();
    assert!(path.len() >= 2);
    assert_eq!(path[0], at(50, 50, 0));
    assert!(has_arrived(path.last().unwrap(), &at(750, 750, 0)));
    assert_eq!(planner.update_pos(0), Some(path[0]));
    assert_eq!(planner.update_pos(3_600_000), Some(*path.last().unwrap()));
    // planned already: neither search runs again
    assert_eq!(planner.compute_grid_path(&playground, 0), Ok(()));
    assert_eq!(planner.compute_path(&playground), Ok(()));
    assert_eq!(planner.path, path);

    let near = Playground::new((800, 800), (50, 50), (52, 52));
    let mut there = Planner::new(&near);
    assert_eq!(there.compute_grid_path(&near, 0), Ok(()));
    assert_eq!(there.path, vec![at(50, 50, 0)]);
    assert_eq!(there.update_pos(10_000), Some(at(50, 50, 0)));
}
