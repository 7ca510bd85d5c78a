use playground::footprint::{is_valid_path, is_valid_pose};
use playground::geometry::{euclid_dist, isqrt, squared_distance, Pose, Rect, ISQRT_LIMIT};
use playground::playground::Playground;
use playground::trig::{cos_sin_at, extent_at, fold_heading, sin_of_quadrant, TRIG_SCALE};

fn at(x: i32, y: i32, t: i32) -> Pose {
    Pose { x, y, t }
}

#[test]
fn squared_distance_ignores_the_heading() {
    assert_eq!(squared_distance(&at(0, 0, 0), &at(3, 4, 90)), 25);
    assert_eq!(squared_distance(&at(3, 4, 0), &at(0, 0, 0)), 25);
    assert_eq!(squared_distance(&at(-5, 7, 10), &at(-5, 7, 350)), 0);
    assert_eq!(
        squared_distance(&at(i32::MIN, i32::MIN, 0), &at(i32::MAX, i32::MAX, 0)),
        2 * (u32::MAX as u128) * (u32::MAX as u128)
    );
}

#[test]
fn integer_root_rounds_down() {
    assert_eq!(isqrt(0), 0);
    assert_eq!(isqrt(1), 1);
    assert_eq!(isqrt(2), 1);
    assert_eq!(isqrt(3), 1);
    assert_eq!(isqrt(4), 2);
    assert_eq!(isqrt(24), 4);
    assert_eq!(isqrt(25), 5);
    assert_eq!(isqrt(26), 5);
    assert_eq!(isqrt(1_000_000), 1_000);
    assert_eq!(isqrt(999_999), 999);
    assert_eq!(isqrt((u64::MAX as u128) * (u64::MAX as u128) / 4), (u64::MAX / 2) as u64);
    assert_eq!(isqrt(ISQRT_LIMIT), 0x7fff_ffff_ffff_ffff);
}

#[test]
fn distance_is_the_rounded_down_root() {
    assert_eq!(euclid_dist(&at(0, 0, 0), &at(3, 4, 0)), 5);
    assert_eq!(euclid_dist(&at(750, 50, 0), &at(751, 51, 0)), 1);
    assert_eq!(euclid_dist(&at(750, 50, 0), &at(751, 25, 0)), 25);
    assert_eq!(euclid_dist(&at(50, 50, 0), &at(750, 750, 0)), 989);
    assert_eq!(euclid_dist(&at(7, 7, 0), &at(7, 7, 45)), 0);
    assert_eq!(euclid_dist(&at(i32::MIN, i32::MIN, 0), &at(i32::MAX, i32::MAX, 0)), 6_074_000_998);
}

#[test]
fn sine_table_in_fixed_point() {
    assert_eq!(TRIG_SCALE, 1_000_000_000);
    assert_eq!(sin_of_quadrant(0), 0);
    assert_eq!(sin_of_quadrant(1), 17_452_406);
    assert_eq!(sin_of_quadrant(15), 258_819_045);
    assert_eq!(sin_of_quadrant(30), 500_000_000);
    assert_eq!(sin_of_quadrant(45), 707_106_781);
    assert_eq!(sin_of_quadrant(89), 999_847_695);
    assert_eq!(sin_of_quadrant(90), 1_000_000_000);
    for d in 0..90 {
        assert!(sin_of_quadrant(d) < sin_of_quadrant(d + 1));
    }
}

#[test]
fn headings_fold_into_the_first_quadrant() {
    assert_eq!(fold_heading(0), 0);
    assert_eq!(fold_heading(90), 90);
    assert_eq!(fold_heading(91), 89);
    assert_eq!(fold_heading(180), 0);
    assert_eq!(fold_heading(270), 90);
    assert_eq!(fold_heading(-10), 10);
    assert_eq!(fold_heading(-100), 80);
    assert_eq!(fold_heading(725), 5);
    assert_eq!(fold_heading(i32::MIN), 52);
    assert_eq!(fold_heading(i32::MAX), 53);
}

#[test]
fn signed_sine_and_cosine() {
    assert_eq!(cos_sin_at(0), (1_000_000_000, 0));
    assert_eq!(cos_sin_at(15), (965_925_826, 258_819_045));
    assert_eq!(cos_sin_at(90), (0, 1_000_000_000));
    assert_eq!(cos_sin_at(105), (-258_819_045, 965_925_826));
    assert_eq!(cos_sin_at(180), (-1_000_000_000, 0));
    assert_eq!(cos_sin_at(195), (-965_925_826, -258_819_045));
    assert_eq!(cos_sin_at(270), (0, -1_000_000_000));
    assert_eq!(cos_sin_at(285), (258_819_045, -965_925_826));
    assert_eq!(cos_sin_at(-15), (965_925_826, -258_819_045));
    assert_eq!(cos_sin_at(765), (707_106_781, 707_106_781));
}

#[test]
fn extent_of_the_turned_footprint() {
    assert_eq!(extent_at((15, 30), 0), (15, 30));
    assert_eq!(extent_at((15, 30), 90), (30, 15));
    assert_eq!(extent_at((15, 30), 45), (31, 31));
    assert_eq!(extent_at((15, 30), 30), (27, 33));
    assert_eq!(extent_at((15, 30), 135), (31, 31));
    assert_eq!(extent_at((15, 30), 180), (15, 30));
    assert_eq!(extent_at((15, 30), -90), (30, 15));
    assert_eq!(extent_at((15, 30), 10), (19, 32));
    assert_eq!(extent_at((15, 30), 370), (19, 32));
    assert_eq!(extent_at((15, 30), -350), (19, 32));
    assert_eq!(extent_at((40, 40), 90), (40, 40));
    assert_eq!(extent_at((1, 128), 90), (128, 1));
    assert_eq!(extent_at((-15, 30), 60), (33, 27));
    assert_eq!(extent_at((0, 30), 30), (15, 25));
    assert_eq!(extent_at((0, 0), 33), (0, 0));
    assert_eq!(extent_at((i32::MIN, i32::MIN), 45), (3_037_000_499, 3_037_000_499));
}

#[test]
fn extent_agrees_with_floating_point() {
    for t in (-360..=720).step_by(5) {
        let (bw, bh) = extent_at((15, 30), t);
        let r = (t as f64).to_radians();
        let fw = (15.0 * r.cos()).abs() + (30.0 * r.sin()).abs();
        let fh = (15.0 * r.sin()).abs() + (30.0 * r.cos()).abs();
        assert!((fw - bw as f64).abs() < 1.000001, "width at {}", t);
        assert!((fh - bh as f64).abs() < 1.000001, "height at {}", t);
        assert!(bw as f64 <= fw + 0.000001);
        assert!(bh as f64 <= fh + 0.000001);
    }
}

#[test]
fn pose_box_is_centred_on_the_pose() {
    let world = Playground::new((100, 100), (50, 50), (50, 50));
    // 15 wide, 30 high: the box of a pose at (x, y) spans x - 7 .. x + 8, y - 15 .. y + 15
    assert!(is_valid_pose(&world, (15, 30), &at(8, 16, 0)));
    assert!(!is_valid_pose(&world, (15, 30), &at(7, 16, 0)));
    assert!(!is_valid_pose(&world, (15, 30), &at(8, 15, 0)));
    assert!(is_valid_pose(&world, (15, 30), &at(91, 84, 0)));
    assert!(!is_valid_pose(&world, (15, 30), &at(92, 84, 0)));
    assert!(!is_valid_pose(&world, (15, 30), &at(91, 85, 0)));
    // turned by a quarter the box is 30 wide and 15 high
    assert!(is_valid_pose(&world, (15, 30), &at(16, 8, 90)));
    assert!(!is_valid_pose(&world, (15, 30), &at(15, 8, 90)));
    // no footprint is too large to be judged
    assert!(!is_valid_pose(&world, (i32::MAX, i32::MIN), &at(i32::MIN, i32::MAX, 45)));
}

#[test]
fn sweep_box_spans_both_poses() {
    let mut world = Playground::new((500, 500), (0, 0), (0, 0));
    world.add_obstacles(Rect { anchor: (200, 200), size: (100, 100) }).unwrap();
    let size = (20, 20);
    // passes above the obstacle: the sweep reaches down to y = 160 + 10
    assert!(is_valid_path(&world, size, &at(50, 150, 0), &at(450, 160, 0)));
    assert!(is_valid_path(&world, size, &at(450, 160, 0), &at(50, 150, 0)));
    // touches its top edge
    assert!(!is_valid_path(&world, size, &at(50, 150, 0), &at(450, 190, 0)));
    assert!(is_valid_path(&world, size, &at(50, 150, 0), &at(450, 189, 0)));
    // the larger of the two extents counts at both ends
    let mut beside = Playground::new((500, 500), (0, 0), (0, 0));
    beside.add_obstacles(Rect { anchor: (200, 100), size: (100, 100) }).unwrap();
    assert!(is_valid_path(&beside, (10, 40), &at(50, 150, 0), &at(150, 150, 0)));
    assert!(is_valid_path(&beside, (10, 40), &at(50, 150, 0), &at(180, 150, 0)));
    assert!(!is_valid_path(&beside, (10, 40), &at(50, 150, 0), &at(180, 150, 90)));
    assert!(is_valid_path(&beside, (10, 40), &at(50, 150, 0), &at(179, 150, 90)));
    // a valid move has valid ends
    for (a, b) in [
        (at(50, 150, 0), at(450, 160, 0)),
        (at(50, 150, 30), at(450, 189, 60)),
        (at(30, 30, 45), at(60, 470, 10)),
    ] {
        if is_valid_path(&world, size, &a, &b) {
            assert!(is_valid_pose(&world, size, &a));
            assert!(is_valid_pose(&world, size, &b));
        }
        assert_eq!(is_valid_path(&world, size, &a, &b), is_valid_path(&world, size, &b, &a));
    }
    // a move that goes nowhere is judged as the pose
    for t in [0, 30, 45, 90] {
        let p = at(188, 150, t);
        assert_eq!(is_valid_path(&world, size, &p, &p), is_valid_pose(&world, size, &p));
    }
}

#[test]
fn poses_compare_by_x_then_y_then_heading() {
    assert!(at(1, 0, 0) < at(1, 0, 1));
    assert!(at(1, 0, 1) < at(1, 1, 0));
    assert!(at(1, 1, 0) < at(2, 0, 0));
    assert!(at(-1, 5, 5) < at(0, 0, 0));
    assert_eq!(at(3, 4, 5), at(3, 4, 5));
    // headings are not brought into one turn
    assert_ne!(at(3, 4, 0), at(3, 4, 360));
    assert_ne!(at(3, 4, -90), at(3, 4, 270));
    let mut seen = std::collections::HashSet::new();
    assert!(seen.insert(at(3, 4, 0)));
    assert!(seen.insert(at(3, 4, 360)));
    assert!(!seen.insert(at(3, 4, 0)));
}
