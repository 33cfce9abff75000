use multiplayer_game::collision::ball_collisions;
use multiplayer_game::{Ball, BallColor, BallState, BoardSize, Vec2i, Velocity};

fn board() -> BoardSize {
    BoardSize { width: 24400, height: 11200, ball_diameter: 600 }
}

fn ball(color: BallColor, px: i64, py: i64, vx: i64, vy: i64) -> BallState {
    BallState {
        ball: Ball { color },
        pos: Vec2i { x: px, y: py },
        vel: Velocity { vel: Vec2i { x: vx, y: vy } },
    }
}

#[test]
fn pair_at_exact_diameter_updates_both() {
    // centers exactly one diameter apart, approaching head on
    let mut balls = vec![
        ball(BallColor::White, 0, 0, 50, 0),
        ball(BallColor::Filled, 600, 0, -50, 0),
    ];
    let bs = board();
    ball_collisions(&bs, &mut balls);
    // transfer along x: dot = 50 * 600, t = (600 * dot) / 600^2 = 50
    // ball 0 takes the negated perpendicular: (0, -50)
    assert_eq!(balls[0].vel.vel, Vec2i { x: 0, y: -50 });
    // ball 1 adds the transfer to its own velocity: (-50 + 50, 0)
    assert_eq!(balls[1].vel.vel, Vec2i { x: 0, y: 0 });
}

#[test]
fn pair_farther_than_diameter_is_untouched() {
    let mut balls = vec![
        ball(BallColor::White, 0, 0, 50, 0),
        ball(BallColor::Filled, 601, 0, -50, 0),
    ];
    let bs = board();
    ball_collisions(&bs, &mut balls);
    assert_eq!(balls[0].vel.vel, Vec2i { x: 50, y: 0 });
    assert_eq!(balls[1].vel.vel, Vec2i { x: -50, y: 0 });
}

#[test]
fn phase_one_reads_pre_tick_velocities() {
    // ball 1 gains velocity from ball 0 this tick, but its pre-tick
    // velocity is zero, so it passes nothing on to ball 2
    let mut balls = vec![
        ball(BallColor::White, 0, 0, 100, 0),
        ball(BallColor::Filled, 500, 0, 0, 0),
        ball(BallColor::Filled, 1000, 0, 0, 0),
    ];
    let bs = board();
    ball_collisions(&bs, &mut balls);
    assert_eq!(balls[0].vel.vel, Vec2i { x: 0, y: -100 });
    assert_eq!(balls[1].vel.vel, Vec2i { x: 100, y: 0 });
    assert_eq!(balls[2].vel.vel, Vec2i { x: 0, y: 0 });
}

#[test]
fn disjoint_pairs_resolve_together() {
    // two colliding pairs far from each other, one pass resolves both
    let mut balls = vec![
        ball(BallColor::White, 0, 0, 60, 0),
        ball(BallColor::Filled, 500, 0, 0, 0),
        ball(BallColor::Filled, 10000, 0, 0, 80),
        ball(BallColor::Filled, 10000, 500, 0, 0),
    ];
    let bs = board();
    ball_collisions(&bs, &mut balls);
    // pair (0, 1): transfer (60, 0); pair (2, 3): transfer (0, 80)
    assert_eq!(balls[0].vel.vel, Vec2i { x: 0, y: -60 });
    assert_eq!(balls[1].vel.vel, Vec2i { x: 60, y: 0 });
    assert_eq!(balls[2].vel.vel, Vec2i { x: 80, y: 0 });
    assert_eq!(balls[3].vel.vel, Vec2i { x: 0, y: 80 });
}

#[test]
fn coinciding_centers_are_skipped() {
    // no collision direction exists for two balls at the same point
    let mut balls = vec![
        ball(BallColor::White, 0, 0, 40, 0),
        ball(BallColor::Filled, 0, 0, 0, 0),
    ];
    let bs = board();
    ball_collisions(&bs, &mut balls);
    assert_eq!(balls[0].vel.vel, Vec2i { x: 40, y: 0 });
    assert_eq!(balls[1].vel.vel, Vec2i { x: 0, y: 0 });
}

#[test]
fn oblique_collision_follows_formula() {
    // offset centers: d = (300, 400), |d|^2 = 250000
    // dot = 100 * 300 + 0 * 400 = 30000
    // t = (d * dot) / |d|^2 = (36, 48)
    let mut balls = vec![
        ball(BallColor::White, 0, 0, 100, 0),
        ball(BallColor::Filled, 300, 400, 0, 0),
    ];
    let bs = board();
    ball_collisions(&bs, &mut balls);
    // ball 0: (ty, -tx) = (48, -36); ball 1: (0 + 36, 0 + 48)
    assert_eq!(balls[0].vel.vel, Vec2i { x: 48, y: -36 });
    assert_eq!(balls[1].vel.vel, Vec2i { x: 36, y: 48 });
}
