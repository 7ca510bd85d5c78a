use playground::index::GeometryError;
use playground::playground::{Playground, Rect};

#[test]
fn add_obstacle() {
    let mut p = Playground::new((500, 500), (31, 31), (468, 31));
    let anchor = (0, 0);
    let size = (123, 456);
    p.add_obstacles(Rect { anchor, size }).unwrap();

    let v = p.get_obstacles();
    assert_eq!(v.len(), 1);
    assert_eq!(v[0].anchor, anchor);
    assert_eq!(v[0].size, size);
}

#[test]
fn add_obstacle_exceeding_bounds() {
    let mut p = Playground::new((500, 500), (31, 31), (468, 31));
    let anchor = (0, 0);
    let size = (1024, 1024);
    p.add_obstacles(Rect { anchor, size }).unwrap();

    let v = p.get_obstacles();
    assert_eq!(v.len(), 1);
    assert_eq!(v[0].anchor, anchor);
    assert_eq!(v[0].size, size);
}

#[test]
fn is_collision() {
    let mut p = Playground::new((500, 500), (31, 31), (468, 31));
    p.add_obstacles(Rect {
        anchor: (100, 100),
        size: (300, 300),
    })
    .unwrap();

    assert!(!p.is_collision(&Rect {
        anchor: (10, 10),
        size: (20, 20)
    }));
    assert!(!p.is_collision(&Rect {
        anchor: (450, 450),
        size: (20, 20)
    }));

    assert!(p.is_collision(&Rect {
        anchor: (50, 50),
        size: (100, 100)
    }));
    assert!(p.is_collision(&Rect {
        anchor: (-10, -10),
        size: (20, 20)
    }));
    assert!(p.is_collision(&Rect {
        anchor: (250, 250),
        size: (100, 100)
    }));
    assert!(p.is_collision(&Rect {
        anchor: (450, 450),
        size: (100, 100)
    }));
}

#[test]
fn obstacle_ids_count_up_from_zero() {
    let mut p = Playground::new((500, 500), (31, 31), (468, 31));
    for expected in 0..5u32 {
        let id = p.add_obstacles(Rect { anchor: (10, 10), size: (5, 5) });
        assert_eq!(id, Ok(expected));
    }
    assert_eq!(p.get_obstacles().len(), 5);
}

#[test]
fn obstacles_are_listed_in_a_stable_order() {
    let mut p = Playground::new((800, 800), (50, 50), (750, 50));
    assert!(p.get_obstacles().is_empty());
    for o in [
        Rect { anchor: (200, 0), size: (100, 650) },
        Rect { anchor: (-5, 750), size: (100, 100) },
        Rect { anchor: (650, 0), size: (50, 100) },
        Rect { anchor: (10, 10), size: (0, 5) },
        Rect { anchor: (3, 3), size: (1, 1) },
        Rect { anchor: (650, 0), size: (50, 100) },
    ] {
        p.add_obstacles(o).unwrap();
    }
    let first = p.get_obstacles();
    assert_eq!(first.len(), 6);
    for _ in 0..5 {
        assert_eq!(p.get_obstacles(), first);
    }
    assert_eq!(p.add_obstacles(Rect { anchor: (1, 1), size: (-1, 1) }), Err(GeometryError::NegativeExtent));
    assert_eq!(p.get_obstacles(), first);
    assert_eq!(first.iter().filter(|o| **o == Rect { anchor: (650, 0), size: (50, 100) }).count(), 2);
}

#[test]
fn negative_extent_is_refused() {
    let mut p = Playground::new((500, 500), (31, 31), (468, 31));
    assert_eq!(
        p.add_obstacles(Rect { anchor: (10, 10), size: (-1, 5) }),
        Err(GeometryError::NegativeExtent)
    );
    assert_eq!(
        p.add_obstacles(Rect { anchor: (10, 10), size: (5, -1) }),
        Err(GeometryError::NegativeExtent)
    );
    assert!(p.get_obstacles().is_empty());
    assert_eq!(p.add_obstacles(Rect { anchor: (10, 10), size: (5, 5) }), Ok(0));
}

#[test]
fn obstacles_outside_the_quadtree_are_kept() {
    let mut p = Playground::new((500, 500), (31, 31), (468, 31));
    let outside = [
        Rect { anchor: (-20, 40), size: (60, 10) },
        Rect { anchor: (70_000, 70_000), size: (10, 10) },
        Rect { anchor: (2_147_483_000, 10), size: (1_000, 1_000) },
        Rect { anchor: (200, 200), size: (0, 0) },
    ];
    for o in outside {
        p.add_obstacles(o).unwrap();
    }
    let mut listed = p.get_obstacles();
    assert_eq!(listed.len(), 4);
    for o in outside {
        let at = listed.iter().position(|l| *l == o).unwrap();
        listed.remove(at);
    }
    assert!(listed.is_empty());

    // the first one reaches into the world from its left border
    assert!(p.is_collision(&Rect { anchor: (30, 30), size: (20, 20) }));
    assert!(!p.is_collision(&Rect { anchor: (50, 60), size: (20, 20) }));
    // the point obstacle
    assert!(p.is_collision(&Rect { anchor: (190, 190), size: (10, 10) }));
    assert!(!p.is_collision(&Rect { anchor: (190, 190), size: (9, 9) }));
}

#[test]
fn touching_an_obstacle_is_a_collision() {
    let mut p = Playground::new((500, 500), (31, 31), (468, 31));
    p.add_obstacles(Rect { anchor: (100, 100), size: (50, 50) }).unwrap();
    // right edge of the query on the left edge of the obstacle
    assert!(p.is_collision(&Rect { anchor: (80, 110), size: (20, 10) }));
    assert!(!p.is_collision(&Rect { anchor: (80, 110), size: (19, 10) }));
    // top edge of the query on the bottom edge of the obstacle
    assert!(p.is_collision(&Rect { anchor: (110, 150), size: (10, 10) }));
    assert!(!p.is_collision(&Rect { anchor: (110, 151), size: (10, 10) }));
    // corners
    assert!(p.is_collision(&Rect { anchor: (150, 150), size: (10, 10) }));
    assert!(!p.is_collision(&Rect { anchor: (151, 151), size: (10, 10) }));
}

#[test]
fn borders_of_the_world_are_out_of_bounds() {
    let p = Playground::new((500, 500), (31, 31), (468, 31));
    assert!(!p.is_collision(&Rect { anchor: (1, 1), size: (498, 498) }));
    assert!(p.is_collision(&Rect { anchor: (0, 1), size: (10, 10) }));
    assert!(p.is_collision(&Rect { anchor: (1, 0), size: (10, 10) }));
    assert!(p.is_collision(&Rect { anchor: (1, 1), size: (499, 10) }));
    assert!(p.is_collision(&Rect { anchor: (1, 1), size: (10, 499) }));
    // a malformed rectangle is never clear
    assert!(p.is_collision(&Rect { anchor: (10, 10), size: (-1, 5) }));
    // a point inside the world is
    assert!(!p.is_collision(&Rect { anchor: (10, 10), size: (0, 0) }));
}

#[test]
fn collision_with_many_obstacles() {
    let mut p = Playground::new((800, 800), (50, 50), (750, 50));
    let obstacles = [
        Rect { anchor: (200, 0), size: (100, 650) },
        Rect { anchor: (200, 750), size: (100, 100) },
        Rect { anchor: (650, 0), size: (50, 100) },
        Rect { anchor: (750, 500), size: (300, 100) },
    ];
    for o in obstacles {
        p.add_obstacles(o).unwrap();
    }
    assert_eq!(p.get_obstacles().len(), 4);
    assert!(p.is_collision(&Rect { anchor: (190, 300), size: (20, 20) }));
    assert!(!p.is_collision(&Rect { anchor: (210, 660), size: (80, 80) }));
    assert!(p.is_collision(&Rect { anchor: (700, 450), size: (60, 60) }));
    assert!(!p.is_collision(&Rect { anchor: (400, 400), size: (100, 100) }));
}
