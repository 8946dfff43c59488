use bubble_trouble::ball::Ball;
use bubble_trouble::config::{Config, Intents, ProjectilePolicy};
use bubble_trouble::player::Player;
use bubble_trouble::size_table::SizeTable;
use bubble_trouble::world::{BallEntity, World};

const IDLE: Intents = Intents { move_left: false, move_right: false, fire_edge: false };
const FIRE: Intents = Intents { move_left: false, move_right: false, fire_edge: true };

fn sample_world() -> World {
    World::new_game(Config::sample(), SizeTable::sample())
}

/// A world whose player stands far to the right, out of the falling ball's
/// path, so a scenario can watch the physics undisturbed.
fn world_with_parked_player() -> World {
    let mut w = sample_world();
    w.player = Some(Player { x: 400, y: -460, speed: 5 });
    w
}

fn rank3_ball_column() -> World {
    let mut w = sample_world();
    w.player = Some(Player { x: 100, y: -460, speed: 5 });
    let table = SizeTable::sample();
    w.balls = vec![BallEntity {
        id: 0,
        ball: Ball { x: 100, y: 0, x_velocity: 0, y_velocity: 0, side: table.diameter(3), size: 3 },
    }];
    w.next_ball_id = 1;
    w
}

#[test]
fn new_game_starting_state() {
    let w = sample_world();
    assert_eq!(w.balls.len(), 1);
    let b = &w.balls[0];
    assert_eq!(b.id, 0);
    assert_eq!((b.ball.x, b.ball.y), (0, 0));
    assert_eq!((b.ball.x_velocity, b.ball.y_velocity), (1, 0));
    assert_eq!((b.ball.side, b.ball.size), (40, 2));
    let p = w.player.as_ref().unwrap();
    assert_eq!((p.x, p.y, p.speed), (0, -460, 5));
    assert_eq!(w.arrows.len(), 1);
    assert!(w.arrows[0].destroyed);
    assert_eq!(w.pop_queue.len(), 0);
    assert_eq!(w.next_ball_id, 1);
    assert!(w.within_limits());
}

#[test]
fn free_fall_velocity_grows_linearly_until_floor_impulse() {
    let mut w = world_with_parked_player();
    for t in 1i64..=30 {
        assert!(w.within_limits());
        w.tick(IDLE);
        let b = &w.balls[0].ball;
        // after t ticks under gravity 1: velocity -t, triangular fall
        assert_eq!(b.y_velocity, -t);
        assert_eq!(b.y, -t * (t + 1) / 2);
        assert_eq!(b.x, t);
        // the side never drifts from the rank's diameter
        assert_eq!(b.side, 40);
    }
    // tick 30 left the ball's bottom edge below the floor's clearance line;
    // the next resolution pass snaps the velocity to the rank-2 impulse
    assert_eq!(w.balls[0].ball.y, -465);
    w.bounce_phase();
    assert_eq!(w.balls[0].ball.y_velocity, 8);
    w.integrate_phase();
    assert_eq!(w.balls[0].ball.y_velocity, 7);
    assert_eq!(w.balls[0].ball.y, -458);
    assert_eq!(w.balls[0].ball.x, 31);
}

#[test]
fn projectile_pops_rank_three_ball_into_two_rank_two_balls() {
    let mut w = rank3_ball_column();
    for t in 1..=26 {
        let intents = if t == 1 { FIRE } else { IDLE };
        w.tick(intents);
        if t < 26 {
            assert_eq!(w.balls.len(), 1);
            assert_eq!(w.balls[0].ball.size, 3);
        }
    }
    // the grown arrow reached the ball this tick: the rank-3 ball is gone,
    // two rank-2 children took its place and fell one tick already
    assert_eq!(w.balls.len(), 2);
    let first = &w.balls[0];
    let second = &w.balls[1];
    assert_eq!(first.id, 1);
    assert_eq!(second.id, 2);
    assert_eq!((first.ball.x, first.ball.y), (101, -322));
    assert_eq!((second.ball.x, second.ball.y), (99, -322));
    assert_eq!(first.ball.x_velocity, 1);
    assert_eq!(second.ball.x_velocity, -1);
    assert_eq!(first.ball.y_velocity, 3);
    assert_eq!(second.ball.y_velocity, 3);
    assert_eq!(first.ball.size, 2);
    assert_eq!(second.ball.size, 2);
    // the projectile deactivated immediately: destroyed and parked off-screen
    assert!(w.arrows[0].destroyed);
    assert_eq!(w.arrows[0].x, 2400);
    // the player survived
    assert!(w.player.is_some());
}

#[test]
fn projectile_pops_rank_one_ball_into_nothing() {
    let mut w = rank3_ball_column();
    let table = SizeTable::sample();
    w.balls[0].ball.side = table.diameter(1);
    w.balls[0].ball.size = 1;
    let mut popped_at = 0;
    for t in 1..=200 {
        let intents = if t == 1 { FIRE } else { IDLE };
        w.tick(intents);
        if w.balls.is_empty() {
            popped_at = t;
            break;
        }
    }
    assert_eq!(popped_at, 26);
    assert!(w.balls.is_empty());
    assert_eq!(w.next_ball_id, 1);
    assert!(w.arrows[0].destroyed);
    assert!(w.player.is_some());
}

#[test]
fn single_instance_fire_is_a_no_op_while_arrow_is_active() {
    let mut w = world_with_parked_player();
    w.tick(FIRE);
    let a = w.arrows[0];
    assert!(!a.destroyed);
    assert_eq!((a.x, a.y, a.height), (400, -460, 39));
    // firing again while in flight resets nothing; the arrow only grows
    w.tick(FIRE);
    let a = w.arrows[0];
    assert!(!a.destroyed);
    assert_eq!((a.x, a.y, a.height), (400, -460, 48));
    assert_eq!(w.arrows.len(), 1);
}

#[test]
fn single_instance_arrow_dies_at_ceiling_and_can_be_refired() {
    let mut w = world_with_parked_player();
    w.tick(FIRE);
    let mut dead_at = 0;
    for t in 2..=100 {
        w.tick(IDLE);
        if w.arrows[0].destroyed {
            dead_at = t;
            break;
        }
    }
    // height 30 + 9 per tick reaches the ceiling line 480 on tick 50
    assert_eq!(dead_at, 50);
    assert_eq!(w.arrows[0].height, 480);
    assert_eq!(w.arrows[0].x, 2400);
    // firing after destruction resets and reactivates the one arrow
    w.tick(FIRE);
    let a = w.arrows[0];
    assert!(!a.destroyed);
    assert_eq!((a.x, a.y, a.height), (400, -460, 39));
    assert_eq!(w.arrows.len(), 1);
}

#[test]
fn multi_instance_policy_spawns_independent_arrows() {
    let mut config = Config::sample();
    config.policy = ProjectilePolicy::MultiInstance;
    let mut w = World::new_game(config, SizeTable::sample());
    assert_eq!(w.arrows.len(), 0);
    w.player = Some(Player { x: 400, y: -460, speed: 5 });
    w.tick(FIRE);
    w.tick(Intents { move_left: false, move_right: true, fire_edge: true });
    assert_eq!(w.arrows.len(), 2);
    // each travels on its own; the second was fired after one move right
    assert_eq!((w.arrows[0].x, w.arrows[0].y), (400, -444));
    assert_eq!((w.arrows[1].x, w.arrows[1].y), (405, -452));
    for _ in 0..3 {
        w.tick(IDLE);
    }
    assert_eq!((w.arrows[0].x, w.arrows[0].y), (400, -420));
    assert_eq!((w.arrows[1].x, w.arrows[1].y), (405, -428));
}

#[test]
fn multi_instance_arrow_despawns_above_ceiling() {
    let mut config = Config::sample();
    config.policy = ProjectilePolicy::MultiInstance;
    let mut w = World::new_game(config, SizeTable::sample());
    w.player = Some(Player { x: 400, y: -460, speed: 5 });
    w.balls.clear();
    w.tick(FIRE);
    assert_eq!(w.arrows.len(), 1);
    // from y -452 at 8 per tick, the collider top reaches the ceiling line
    while !w.arrows.is_empty() {
        w.tick(IDLE);
    }
    // top edge: y + 15 >= 480 first holds at y >= 465
    assert!(w.arrows.is_empty());
}

#[test]
fn ball_reaching_player_ends_the_run() {
    let mut w = sample_world();
    // the starting ball drifts right from the origin and lands by the player
    let mut died_at = 0;
    for t in 1..=100 {
        w.tick(IDLE);
        if w.player.is_none() {
            died_at = t;
            break;
        }
    }
    assert!(died_at > 0);
    // the terminal world no longer advances
    let balls_before: Vec<(i64, i64)> = w.balls.iter().map(|b| (b.ball.x, b.ball.y)).collect();
    w.tick(IDLE);
    let balls_after: Vec<(i64, i64)> = w.balls.iter().map(|b| (b.ball.x, b.ball.y)).collect();
    assert_eq!(balls_before, balls_after);
    assert!(w.player.is_none());
}

#[test]
fn player_clamp_holds_for_any_input_sequence() {
    let mut w = sample_world();
    w.balls.clear();
    // drive hard right, then hard left, with some jitter in between
    let script = [(false, true); 150]
        .iter()
        .chain([(true, false); 300].iter())
        .chain([(true, true); 5].iter())
        .chain([(false, true); 10].iter())
        .cloned()
        .collect::<Vec<_>>();
    for (left, right) in script {
        w.tick(Intents { move_left: left, move_right: right, fire_edge: false });
        let p = w.player.as_ref().unwrap();
        // never past rightWall.x - margin - halfWidth, nor the left mirror
        assert!(p.x <= 600 - 20 - 20);
        assert!(p.x >= -600 + 20 + 20);
    }
    // it actually reached and held both limits on the way
    let mut w2 = sample_world();
    w2.balls.clear();
    for _ in 0..200 {
        w2.tick(Intents { move_left: false, move_right: true, fire_edge: false });
    }
    assert_eq!(w2.player.as_ref().unwrap().x, 560);
    for _ in 0..300 {
        w2.tick(Intents { move_left: true, move_right: false, fire_edge: false });
    }
    assert_eq!(w2.player.as_ref().unwrap().x, -560);
}

#[test]
fn within_limits_rejects_runaway_state() {
    let mut w = sample_world();
    assert!(w.within_limits());
    w.balls[0].ball.y_velocity = i64::MAX / 2;
    assert!(!w.within_limits());
}

#[test]
fn fire_respects_configured_horizontal_offset() {
    let mut config = Config::sample();
    config.arrow_offset_x = 15;
    let mut w = World::new_game(config, SizeTable::sample());
    w.player = Some(Player { x: 400, y: -460, speed: 5 });
    w.tick(FIRE);
    let a = w.arrows[0];
    assert!(!a.destroyed);
    assert_eq!(a.x, 415);
}
