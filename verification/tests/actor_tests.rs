use playground::actor::{Actor, Pose};
use playground::error::PlanError;
use playground::playground::{Playground, Rect};

#[test]
fn actor_compact_path() {
    let playground = Playground::new((800, 800), (50, 50), (750, 750));
    let actor = Actor::new(&playground);
    let path = actor.rrt_to_goal(&playground).unwrap();
    let path = actor.compact_path(&playground, &path);
    assert_eq!(path.len(), 2);
}

#[test]
fn actor_rrt_to_goal() {
    let playground = Playground::new((800, 800), (50, 50), (750, 750));
    let actor = Actor::new(&playground);
    let path = actor.rrt_to_goal(&playground).unwrap();
    assert_ne!(path.len(), 0);
}

#[test]
fn actor_rrt_to_goal_obstacle() {
    let mut playground = Playground::new((800, 800), (50, 50), (750, 750));
    playground
        .add_obstacles(Rect {
            anchor: (100, 100),
            size: (600, 600),
        })
        .unwrap();
    let actor = Actor::new(&playground);
    let path = actor.rrt_to_goal(&playground).unwrap();
    assert_ne!(path.len(), 0);
}

#[test]
fn actor_euclid_dist() {
    let target = Pose {
        x: 750,
        y: 50,
        t: 0,
    };
    assert!(
        Actor::euclid_dist(
            &target,
            &Pose {
                x: 751,
                y: 51,
                t: 0
            }
        ) < 10
    );
    assert!(
        Actor::euclid_dist(
            &target,
            &Pose {
                x: 751,
                y: 25,
                t: 0
            }
        ) > 10
    );
    assert!(
        Actor::euclid_dist(
            &target,
            &Pose {
                x: 751,
                y: 51,
                t: 180
            }
        ) < 10
    );
}

#[test]
fn actor_is_valid_path() {
    let mut playground = Playground::new((500, 500), (0, 0), (0, 0));
    playground
        .add_obstacles(Rect {
            anchor: (100, 100),
            size: (300, 300),
        })
        .unwrap();

    let actor = Actor {
        pose: Pose { x: 0, y: 0, t: 0 },
        size: (40, 40),
    };
    assert!(actor.is_valid_path(
        &playground,
        &Pose {
            x: 50,
            y: 50,
            t: 90
        },
        &Pose {
            x: 450,
            y: 50,
            t: 90
        }
    ));
    assert!(!actor.is_valid_path(
        &playground,
        &Pose {
            x: 50,
            y: 50,
            t: 90
        },
        &Pose {
            x: 450,
            y: 450,
            t: 90
        }
    ));
}

#[test]
fn actor_is_valid_pose() {
    let mut playground = Playground::new((500, 500), (0, 0), (0, 0));
    playground
        .add_obstacles(Rect {
            anchor: (100, 100),
            size: (300, 300),
        })
        .unwrap();
    // Vertical line
    let actor = Actor {
        pose: Pose { x: 0, y: 0, t: 0 },
        size: (1, 128),
    };

    assert!(actor.is_valid_pose(
        &playground,
        &Pose {
            x: 50,
            y: 250,
            t: 0
        },
    ));
    assert!(!actor.is_valid_pose(
        &playground,
        &Pose {
            x: 50,
            y: 250,
            t: 90
        },
    ));

    assert!(!actor.is_valid_pose(
        &playground,
        &Pose {
            x: 250,
            y: 50,
            t: 0
        },
    ));
    assert!(actor.is_valid_pose(
        &playground,
        &Pose {
            x: 250,
            y: 50,
            t: 90
        },
    ));

    assert!(!actor.is_valid_pose(
        &playground,
        &Pose {
            x: 250,
            y: 250,
            t: 0
        },
    ));
}

#[test]
fn actor_starts_at_the_start_with_the_default_size() {
    let playground = Playground::new((800, 800), (50, 60), (750, 750));
    let actor = Actor::new(&playground);
    assert_eq!(actor.pose, Pose { x: 50, y: 60, t: 0 });
    assert_eq!(actor.size, (15, 30));
}

#[test]
fn actor_route_is_valid_edge_by_edge() {
    let mut playground = Playground::new((800, 800), (50, 50), (750, 750));
    playground
        .add_obstacles(Rect { anchor: (300, 0), size: (100, 600) })
        .unwrap();
    let actor = Actor::new(&playground);
    let path = actor.rrt_to_goal(&playground).unwrap();
    assert!(path.len() >= 2);
    assert_eq!(path[0], Pose { x: 50, y: 50, t: 0 });
    assert_eq!(*path.last().unwrap(), Pose { x: 750, y: 750, t: 0 });
    for pair in path.windows(2) {
        assert!(actor.is_valid_path(&playground, &pair[0], &pair[1]));
    }
    for pose in &path[1..] {
        assert!(actor.is_valid_pose(&playground, pose));
    }
    for (i, a) in path.iter().enumerate() {
        for b in &path[i + 1..] {
            assert_ne!(a, b);
        }
    }
    let short = actor.compact_path(&playground, &path);
    assert_eq!(short[0], path[0]);
    assert_eq!(short.last(), path.last());
    assert!(short.len() <= path.len());
    for pair in short.windows(2) {
        assert!(actor.is_valid_path(&playground, &pair[0], &pair[1]));
    }
}

#[test]
fn actor_search_gives_up_within_its_attempts() {
    // the goal is walled in
    let mut playground = Playground::new((800, 800), (50, 50), (400, 400));
    for wall in [
        Rect { anchor: (300, 300), size: (200, 20) },
        Rect { anchor: (300, 480), size: (200, 20) },
        Rect { anchor: (300, 300), size: (20, 200) },
        Rect { anchor: (480, 300), size: (20, 200) },
    ] {
        playground.add_obstacles(wall).unwrap();
    }
    let actor = Actor::new(&playground);
    assert!(actor.is_valid_pose(&playground, &Pose { x: 400, y: 400, t: 0 }));
    assert_eq!(actor.rrt_to_goal_within(&playground, 300), Err(PlanError::Unreachable));
}

#[test]
fn actor_search_fails_where_it_cannot_succeed() {
    let open = Playground::new((800, 800), (50, 50), (750, 750));
    let actor = Actor::new(&open);
    assert_eq!(actor.rrt_to_goal_within(&open, 0), Err(PlanError::Unreachable));

    let same = Playground::new((800, 800), (50, 50), (50, 50));
    assert_eq!(actor.rrt_to_goal_within(&same, 200), Err(PlanError::Unreachable));

    let mut blocked = Playground::new((800, 800), (50, 50), (750, 750));
    blocked.add_obstacles(Rect { anchor: (700, 700), size: (90, 90) }).unwrap();
    assert_eq!(actor.rrt_to_goal_within(&blocked, 200), Err(PlanError::Unreachable));

    // no edge leaves a start at which the actor cannot stand
    let mut boxed = Playground::new((800, 800), (50, 50), (750, 750));
    boxed.add_obstacles(Rect { anchor: (40, 40), size: (20, 20) }).unwrap();
    assert!(!actor.is_valid_pose(&boxed, &Pose { x: 50, y: 50, t: 0 }));
    assert_eq!(actor.rrt_to_goal_within(&boxed, 2_000), Err(PlanError::Unreachable));

    let tiny = Playground::new((9, 800), (5, 50), (5, 750));
    assert_eq!(actor.rrt_to_goal(&tiny), Err(PlanError::WorldTooSmall));
    let flat = Playground::new((800, 9), (50, 5), (750, 5));
    assert_eq!(actor.rrt_to_goal_within(&flat, 10), Err(PlanError::WorldTooSmall));
}
