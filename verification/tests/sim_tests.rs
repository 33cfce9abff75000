use multiplayer_game::sim::{run_ticks, tick, world_in_limits, SimError, Snapshot};
use multiplayer_game::spawning::setup_table;
use multiplayer_game::{
    Ball, BallColor, BallState, BoardSize, CueInput, Playing, Vec2i, Velocity, COORD_LIMIT,
};

fn board() -> BoardSize {
    BoardSize { width: 24400, height: 11200, ball_diameter: 600 }
}

fn ball(color: BallColor, px: i64, py: i64, vx: i64, vy: i64) -> BallState {
    BallState {
        ball: Ball { color },
        pos: Vec2i { x: px, y: py },
        vel: Velocity { vel: Vec2i { x: vx, y: vy } },
    }
}

fn null_input() -> CueInput {
    CueInput { dir_x: 0, dir_y: 0, power: 0 }
}

#[test]
fn shot_tick_leaves_ready_and_flips_player() {
    let mut snap = Snapshot { balls: setup_table(), playing: Playing { ready: true, playing: 0 } };
    let inputs = vec![CueInput { dir_x: 127, dir_y: 0, power: 5 }, null_input()];
    tick(&mut snap, &inputs, &board());
    assert!(!snap.playing.ready);
    assert_eq!(snap.playing.playing, 1);
    // the cue ball took the shot and integrated one tick
    assert_eq!(snap.balls[0].pos, Vec2i { x: 500, y: 0 });
}

#[test]
fn null_ticks_settle_back_to_ready() {
    // a lone slow ball: one tick to snap to rest, then the settle check
    let balls = vec![ball(BallColor::White, 0, 0, 9, 0)];
    let mut snap = Snapshot { balls, playing: Playing { ready: false, playing: 1 } };
    let inputs = vec![null_input(), null_input()];
    tick(&mut snap, &inputs, &board());
    assert!(snap.playing.ready);
    assert_eq!(snap.playing.playing, 1);
    assert_eq!(snap.balls[0].vel.vel, Vec2i { x: 0, y: 0 });
}

#[test]
fn ready_holds_while_no_shot_comes() {
    let mut snap = Snapshot { balls: setup_table(), playing: Playing { ready: true, playing: 0 } };
    let inputs = vec![null_input(), null_input()];
    tick(&mut snap, &inputs, &board());
    assert!(snap.playing.ready);
    assert_eq!(snap.playing.playing, 0);
}

#[test]
fn cue_ball_strikes_target_along_x() {
    // cue ball at the origin moving +x toward a target ten units away
    let balls = vec![
        ball(BallColor::White, 0, 0, 200, 0),
        ball(BallColor::Filled, 1000, 0, 0, 0),
    ];
    let mut snap = Snapshot { balls, playing: Playing { ready: false, playing: 0 } };
    let inputs = vec![null_input(), null_input()];
    let bs = board();
    // tick 1: cue at 200; tick 2: at 394, still farther than a diameter
    tick(&mut snap, &inputs, &bs);
    tick(&mut snap, &inputs, &bs);
    assert_eq!(snap.balls[1].vel.vel, Vec2i { x: 0, y: 0 });
    // tick 3: cue reaches 582, within one diameter of the target
    tick(&mut snap, &inputs, &bs);
    // head on, the full projected speed transfers: t = d * (v.d) / |d|^2
    // with d = (418, 0) and v = (182, 0), so t = (182, 0)
    assert_eq!(snap.balls[1].vel.vel, Vec2i { x: 182, y: 0 });
    assert!(snap.balls[1].vel.vel.x > 0);
    // the cue ball ends on the negated perpendicular: (0, -182)
    assert_eq!(snap.balls[0].vel.vel, Vec2i { x: 0, y: -182 });
}

#[test]
fn replaying_a_schedule_twice_is_identical() {
    let start = Snapshot { balls: setup_table(), playing: Playing { ready: true, playing: 0 } };
    let mut schedule: Vec<Vec<CueInput>> = Vec::new();
    schedule.push(vec![CueInput { dir_x: 76, dir_y: 101, power: 5 }, null_input()]);
    for t in 1..100 {
        let rec = if t == 40 {
            CueInput { dir_x: -90, dir_y: 30, power: 5 }
        } else {
            null_input()
        };
        schedule.push(vec![null_input(), rec]);
    }
    let bs = board();
    let first = run_ticks(start.clone(), &schedule, &bs).unwrap();
    let second = run_ticks(start, &schedule, &bs).unwrap();
    assert_eq!(first.playing, second.playing);
    assert_eq!(first.balls.len(), second.balls.len());
    for (a, b) in first.balls.iter().zip(second.balls.iter()) {
        assert_eq!(a, b);
    }
    // the shots moved the world: the replay is not trivially the start
    assert_ne!(first.balls[0].pos, Vec2i { x: 0, y: 0 });
}

#[test]
fn replay_rejects_states_out_of_range() {
    let balls = vec![ball(BallColor::White, COORD_LIMIT + 1, 0, 0, 0)];
    let snap = Snapshot { balls, playing: Playing { ready: true, playing: 0 } };
    let schedule = vec![vec![null_input(), null_input()]];
    assert!(matches!(run_ticks(snap, &schedule, &board()), Err(SimError::OutOfRange)));
}

#[test]
fn limit_check_matches_bound() {
    assert!(world_in_limits(&vec![ball(BallColor::White, COORD_LIMIT, -COORD_LIMIT, 0, 0)]));
    assert!(!world_in_limits(&vec![ball(BallColor::White, 0, 0, COORD_LIMIT + 1, 0)]));
}
