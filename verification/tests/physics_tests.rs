use multiplayer_game::physics::move_balls;
use multiplayer_game::{Ball, BallColor, BallState, BoardSize, Vec2i, Velocity};

fn board() -> BoardSize {
    BoardSize { width: 24400, height: 11200, ball_diameter: 600 }
}

fn ball(color: BallColor, px: i64, py: i64, vx: i64, vy: i64) -> BallState {
    BallState {
        ball: Ball { color },
        pos: Vec2i { x: px, y: py },
        vel: Velocity { vel: Vec2i { x: vx, y: vy } },
    }
}

#[test]
fn rest_state_is_idempotent() {
    let mut balls = vec![ball(BallColor::White, 1234, -567, 0, 0)];
    let bs = board();
    move_balls(&mut balls, &bs);
    move_balls(&mut balls, &bs);
    assert_eq!(balls[0].vel.vel, Vec2i { x: 0, y: 0 });
    assert_eq!(balls[0].pos, Vec2i { x: 1234, y: -567 });
}

#[test]
fn slow_ball_snaps_to_zero() {
    // both components below 0.1 world units per tick (10 counts)
    let mut balls = vec![ball(BallColor::Filled, 100, 200, 9, -9)];
    let bs = board();
    move_balls(&mut balls, &bs);
    assert_eq!(balls[0].vel.vel, Vec2i { x: 0, y: 0 });
    assert_eq!(balls[0].pos, Vec2i { x: 100, y: 200 });
}

#[test]
fn threshold_is_strict() {
    // a component of exactly 10 counts is not below the threshold
    let mut balls = vec![ball(BallColor::Filled, 0, 0, 10, 0)];
    let bs = board();
    move_balls(&mut balls, &bs);
    assert_eq!(balls[0].pos, Vec2i { x: 10, y: 0 });
    assert_eq!(balls[0].vel.vel, Vec2i { x: 9, y: 0 });
    // the damped velocity is now below the threshold and snaps
    move_balls(&mut balls, &bs);
    assert_eq!(balls[0].vel.vel, Vec2i { x: 0, y: 0 });
    assert_eq!(balls[0].pos, Vec2i { x: 10, y: 0 });
}

#[test]
fn integrates_then_damps() {
    let mut balls = vec![ball(BallColor::Striped, 0, 0, 200, -300)];
    let bs = board();
    move_balls(&mut balls, &bs);
    assert_eq!(balls[0].pos, Vec2i { x: 200, y: -300 });
    assert_eq!(balls[0].vel.vel, Vec2i { x: 194, y: -291 });
}

#[test]
fn wall_bounce_negates_component() {
    // crossing the right half-extent (12200) flips the x velocity
    let mut balls = vec![ball(BallColor::Black, 12100, 0, 200, 0)];
    let bs = board();
    move_balls(&mut balls, &bs);
    assert_eq!(balls[0].pos, Vec2i { x: 12300, y: 0 });
    assert_eq!(balls[0].vel.vel, Vec2i { x: -194, y: 0 });
}

#[test]
fn balls_move_independently() {
    // a snapping ball does not keep later balls from moving
    let mut balls = vec![
        ball(BallColor::White, 0, 0, 5, 5),
        ball(BallColor::Filled, 0, 0, 100, 0),
    ];
    let bs = board();
    move_balls(&mut balls, &bs);
    assert_eq!(balls[0].vel.vel, Vec2i { x: 0, y: 0 });
    assert_eq!(balls[1].pos, Vec2i { x: 100, y: 0 });
    assert_eq!(balls[1].vel.vel, Vec2i { x: 97, y: 0 });
}
