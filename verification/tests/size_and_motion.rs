use bubble_trouble::ball::Ball;
use bubble_trouble::collide::boxes_overlap;
use bubble_trouble::config::Config;
use bubble_trouble::sides_of_screen::Boundaries;
use bubble_trouble::size_table::SizeTable;

fn ball(x: i64, y: i64, vx: i64, vy: i64, rank: u8) -> Ball {
    let table = SizeTable::sample();
    Ball {
        x,
        y,
        x_velocity: vx,
        y_velocity: vy,
        side: table.diameter(rank),
        size: rank,
    }
}

#[test]
fn size_table_sample_values() {
    let table = SizeTable::sample();
    assert_eq!(table.diameter(1), 20);
    assert_eq!(table.diameter(2), 40);
    assert_eq!(table.diameter(3), 60);
    assert_eq!(table.diameter(4), 80);
    assert_eq!(table.diameter(5), 100);
    assert_eq!(table.bounce_impulse(1), 6);
    assert_eq!(table.bounce_impulse(2), 8);
    assert_eq!(table.bounce_impulse(3), 10);
    assert_eq!(table.bounce_impulse(4), 12);
    assert_eq!(table.bounce_impulse(5), 14);
}

#[test]
fn boundaries_from_sample_config() {
    let config = Config::sample();
    let bounds = Boundaries::from_config(&config);
    assert_eq!((bounds.floor.x, bounds.floor.y), (0, -500));
    assert_eq!((bounds.ceiling.x, bounds.ceiling.y), (0, 500));
    assert_eq!((bounds.left_wall.x, bounds.left_wall.y), (-600, 0));
    assert_eq!((bounds.right_wall.x, bounds.right_wall.y), (600, 0));
}

#[test]
fn integrate_applies_gravity_before_position() {
    let mut b = ball(0, 0, 1, 0, 2);
    b.integrate(1);
    // semi-implicit order: the lowered velocity moves the ball on this tick
    assert_eq!((b.x, b.y, b.x_velocity, b.y_velocity), (1, -1, 1, -1));
    b.integrate(1);
    assert_eq!((b.x, b.y, b.x_velocity, b.y_velocity), (2, -3, 1, -2));
}

#[test]
fn integrate_leaves_horizontal_velocity_alone() {
    let mut b = ball(10, 100, -7, 3, 4);
    b.integrate(2);
    assert_eq!(b.x_velocity, -7);
    assert_eq!(b.y_velocity, 1);
    assert_eq!(b.x, 3);
    assert_eq!(b.y, 101);
}

#[test]
fn floor_bounce_assigns_rank_impulse_regardless_of_incoming_velocity() {
    let config = Config::sample();
    let bounds = Boundaries::from_config(&config);
    let table = SizeTable::sample();
    // bottom edge exactly on the floor's clearance line: y - 20 == -480
    let mut fast = ball(0, -460, 1, -999, 2);
    let mut slow = ball(0, -460, 1, -1, 2);
    fast.bounce(&bounds, &table, config.margin);
    slow.bounce(&bounds, &table, config.margin);
    assert_eq!(fast.y_velocity, 8);
    assert_eq!(slow.y_velocity, 8);
    // a larger ball at its own contact height gets its own impulse
    let mut big = ball(0, -430, 1, -50, 5);
    big.bounce(&bounds, &table, config.margin);
    assert_eq!(big.y_velocity, 14);
}

#[test]
fn bounce_above_floor_keeps_velocity() {
    let config = Config::sample();
    let bounds = Boundaries::from_config(&config);
    let table = SizeTable::sample();
    let mut b = ball(0, -459, 1, -5, 2);
    b.bounce(&bounds, &table, config.margin);
    assert_eq!(b.y_velocity, -5);
}

#[test]
fn wall_bounce_negates_horizontal_velocity_once() {
    let config = Config::sample();
    let bounds = Boundaries::from_config(&config);
    let table = SizeTable::sample();
    // right wall: x + 20 >= 580
    let mut right = ball(560, 0, 3, 0, 2);
    right.bounce(&bounds, &table, config.margin);
    assert_eq!(right.x_velocity, -3);
    assert_eq!(right.x, 560);
    // left wall: x - 20 <= -580
    let mut left = ball(-560, 0, -3, 0, 2);
    left.bounce(&bounds, &table, config.margin);
    assert_eq!(left.x_velocity, 3);
    // a ball touching the right wall is nowhere near the left wall
    assert!(right.x - right.side / 2 > bounds.left_wall.x + config.margin);
}

#[test]
fn floor_and_wall_rules_both_apply_in_one_pass() {
    let config = Config::sample();
    let bounds = Boundaries::from_config(&config);
    let table = SizeTable::sample();
    // corner contact: floor and right wall in the same resolution pass
    let mut b = ball(560, -460, 2, -9, 2);
    b.bounce(&bounds, &table, config.margin);
    assert_eq!(b.y_velocity, 8);
    assert_eq!(b.x_velocity, -2);
}

#[test]
fn boxes_overlap_strict_interior_test() {
    // overlapping squares
    assert!(boxes_overlap(0, 0, 40, 40, 30, 0, 40, 40));
    // touching edges do not count
    assert!(!boxes_overlap(0, 0, 40, 40, 40, 0, 40, 40));
    // disjoint
    assert!(!boxes_overlap(0, 0, 40, 40, 100, 0, 40, 40));
    // one axis overlaps, the other does not
    assert!(!boxes_overlap(0, 0, 40, 40, 10, 90, 40, 40));
    // containment counts as overlap
    assert!(boxes_overlap(0, 0, 100, 100, 5, -5, 10, 10));
}
