use bubble_trouble::ball::Ball;
use bubble_trouble::config::Config;
use bubble_trouble::size_table::SizeTable;
use bubble_trouble::world::{BallEntity, PopBallEvent, World};

fn world_with_balls(balls: Vec<BallEntity>, next_ball_id: u64) -> World {
    let config = Config::sample();
    let table = SizeTable::sample();
    let mut w = World::new_game(config, table);
    w.balls = balls;
    w.next_ball_id = next_ball_id;
    w
}

fn ball_at(x: i64, y: i64, vx: i64, vy: i64, rank: u8) -> Ball {
    let table = SizeTable::sample();
    Ball {
        x,
        y,
        x_velocity: vx,
        y_velocity: vy,
        side: table.diameter(rank),
        size: rank,
    }
}

#[test]
fn popping_rank_two_spawns_two_rank_one_children() {
    let mut w = world_with_balls(
        vec![BallEntity { id: 0, ball: ball_at(100, 200, 7, -3, 2) }],
        1,
    );
    w.pop_queue.push(PopBallEvent(0));
    w.pop_phase();
    assert_eq!(w.balls.len(), 2);
    assert_eq!(w.pop_queue.len(), 0);
    let first = &w.balls[0];
    let second = &w.balls[1];
    assert_eq!(first.id, 1);
    assert_eq!(second.id, 2);
    // both children at the parent's position, one rank smaller
    for child in [first, second] {
        assert_eq!((child.ball.x, child.ball.y), (100, 200));
        assert_eq!(child.ball.size, 1);
        assert_eq!(child.ball.side, 20);
        assert_eq!(child.ball.y_velocity, 4);
    }
    // opposite-signed horizontal velocities: rightward child spawned first
    assert_eq!(first.ball.x_velocity, 1);
    assert_eq!(second.ball.x_velocity, -1);
    assert_eq!(w.next_ball_id, 3);
}

#[test]
fn every_splittable_rank_yields_children_one_rank_smaller() {
    let table = SizeTable::sample();
    for rank in 2u8..=5 {
        let mut w = world_with_balls(
            vec![BallEntity { id: 9, ball: ball_at(0, 0, 1, 0, rank) }],
            10,
        );
        w.pop_queue.push(PopBallEvent(9));
        w.pop_phase();
        assert_eq!(w.balls.len(), 2);
        for child in &w.balls {
            assert_eq!(child.ball.size, rank - 1);
            assert!(child.ball.size >= 1);
            assert_eq!(child.ball.side, table.diameter(rank - 1));
        }
    }
}

#[test]
fn popping_rank_one_spawns_nothing() {
    let mut w = world_with_balls(
        vec![BallEntity { id: 0, ball: ball_at(5, 6, 1, 1, 1) }],
        1,
    );
    w.pop_queue.push(PopBallEvent(0));
    w.pop_phase();
    assert_eq!(w.balls.len(), 0);
    assert_eq!(w.next_ball_id, 1);
}

#[test]
fn stale_pop_event_is_skipped_silently() {
    let mut w = world_with_balls(
        vec![BallEntity { id: 0, ball: ball_at(0, 0, 1, 0, 2) }],
        1,
    );
    // two detectors flagged the same ball in one tick
    w.pop_queue.push(PopBallEvent(0));
    w.pop_queue.push(PopBallEvent(0));
    w.pop_phase();
    // only the first event found the ball; the second found nothing
    assert_eq!(w.balls.len(), 2);
    assert_eq!(w.next_ball_id, 3);
}

#[test]
fn pop_event_for_unknown_identity_changes_nothing() {
    let mut w = world_with_balls(
        vec![BallEntity { id: 3, ball: ball_at(0, 0, 1, 0, 4) }],
        4,
    );
    w.pop_queue.push(PopBallEvent(77));
    w.pop_phase();
    assert_eq!(w.balls.len(), 1);
    assert_eq!(w.balls[0].id, 3);
    assert_eq!(w.balls[0].ball.size, 4);
    assert_eq!(w.next_ball_id, 4);
}

#[test]
fn pop_leaves_other_balls_untouched() {
    let mut w = world_with_balls(
        vec![
            BallEntity { id: 0, ball: ball_at(-50, 10, 1, 0, 3) },
            BallEntity { id: 1, ball: ball_at(200, 20, -1, 5, 2) },
            BallEntity { id: 2, ball: ball_at(300, 30, 1, -5, 1) },
        ],
        3,
    );
    w.pop_queue.push(PopBallEvent(1));
    w.pop_phase();
    assert_eq!(w.balls.len(), 4);
    assert_eq!(w.balls[0].id, 0);
    assert_eq!(w.balls[0].ball.size, 3);
    assert_eq!(w.balls[1].id, 2);
    assert_eq!(w.balls[1].ball.size, 1);
    // the children of ball 1 sit at its position with fresh identities
    assert_eq!(w.balls[2].id, 3);
    assert_eq!(w.balls[3].id, 4);
    assert_eq!((w.balls[2].ball.x, w.balls[2].ball.y), (200, 20));
    assert_eq!(w.next_ball_id, 5);
}

#[test]
fn child_of_builds_the_split_children() {
    let config = Config::sample();
    let table = SizeTable::sample();
    let parent = ball_at(12, 34, 9, -9, 5);
    let to_right = Ball::child_of(&parent, &table, &config, false);
    let to_left = Ball::child_of(&parent, &table, &config, true);
    assert_eq!((to_right.x, to_right.y, to_right.x_velocity, to_right.y_velocity), (12, 34, 1, 4));
    assert_eq!((to_left.x, to_left.y, to_left.x_velocity, to_left.y_velocity), (12, 34, -1, 4));
    assert_eq!(to_right.size, 4);
    assert_eq!(to_right.side, 80);
    assert_eq!(to_left.size, 4);
    assert_eq!(to_left.side, 80);
}
