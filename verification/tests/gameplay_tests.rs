use multiplayer_game::fixed::{div_trunc_i64, isqrt_u128};
use multiplayer_game::gameplay::{input, pool_cue, set_ready, shoot_ball, update_text};
use multiplayer_game::spawning::{connect, setup_table, wait_for_players};
use multiplayer_game::{
    Ball, BallColor, BallState, CueInput, InputDirection, Playing, Vec2i, Velocity,
};

fn ball(color: BallColor, px: i64, py: i64, vx: i64, vy: i64) -> BallState {
    BallState {
        ball: Ball { color },
        pos: Vec2i { x: px, y: py },
        vel: Velocity { vel: Vec2i { x: vx, y: vy } },
    }
}

#[test]
fn truncating_division_rounds_toward_zero() {
    assert_eq!(div_trunc_i64(7, 2), 3);
    assert_eq!(div_trunc_i64(-7, 2), -3);
    assert_eq!(div_trunc_i64(97, 100), 0);
    assert_eq!(div_trunc_i64(-97, 100), 0);
}

#[test]
fn integer_square_root_is_exact() {
    assert_eq!(isqrt_u128(0), 0);
    assert_eq!(isqrt_u128(1), 1);
    assert_eq!(isqrt_u128(8), 2);
    assert_eq!(isqrt_u128(9), 3);
    assert_eq!(isqrt_u128(250000), 500);
    assert_eq!(isqrt_u128(1_000_000_000_000_000_000_000_000), 1_000_000_000_000);
}

#[test]
fn encoding_direction_scales_to_wire_range() {
    // direction (0.6, 0.8) in fixed point is (60, 80)
    let dir = InputDirection { dir: Some(Vec2i { x: 60, y: 80 }) };
    let mut playing = Playing { ready: true, playing: 0 };
    let rec = input(true, &dir, &mut playing);
    assert_eq!(rec.dir_x, 76); // trunc(0.6 * 127) = 76
    assert_eq!(rec.dir_y, 101); // trunc(0.8 * 127) = 101
    assert_eq!(rec.power, 5);
    assert!(!playing.ready);
    assert_eq!(playing.playing, 0);
}

#[test]
fn null_record_without_trigger_or_direction() {
    let dir = InputDirection { dir: Some(Vec2i { x: 60, y: 80 }) };
    let none = InputDirection { dir: None };
    let mut playing = Playing { ready: true, playing: 1 };

    let rec = input(false, &dir, &mut playing);
    assert_eq!((rec.dir_x, rec.dir_y, rec.power), (0, 0, 0));
    assert!(playing.ready);

    let rec = input(true, &none, &mut playing);
    assert_eq!((rec.dir_x, rec.dir_y, rec.power), (0, 0, 0));
    assert!(playing.ready);
}

#[test]
fn record_roundtrips_through_wire_bytes() {
    let rec = CueInput { dir_x: 76, dir_y: 101, power: 5 };
    let bytes = rec.to_bytes();
    assert_eq!(bytes, [76, 101, 5]);
    assert_eq!(CueInput::from_bytes(&bytes), rec);

    let neg = CueInput { dir_x: -76, dir_y: -128, power: 0 };
    let bytes = neg.to_bytes();
    assert_eq!(bytes, [180, 128, 0]);
    assert_eq!(CueInput::from_bytes(&bytes), neg);

    // bytes round-trip in the other direction too
    let wire: [u8; 3] = [255, 4, 200];
    assert_eq!(CueInput::from_bytes(&wire).to_bytes(), wire);
}

#[test]
fn aim_points_from_cue_ball_to_pointer() {
    let mut dir = InputDirection { dir: None };
    // offset (300, 400) has length 500: the unit vector is (0.6, 0.8)
    pool_cue(Vec2i { x: 100, y: 100 }, Some(Vec2i { x: 400, y: 500 }), &mut dir);
    assert_eq!(dir.dir, Some(Vec2i { x: 60, y: 80 }));
}

#[test]
fn aim_cleared_when_pointer_unavailable_or_degenerate() {
    let mut dir = InputDirection { dir: Some(Vec2i { x: 60, y: 80 }) };
    pool_cue(Vec2i { x: 0, y: 0 }, None, &mut dir);
    assert_eq!(dir.dir, None);

    let mut dir = InputDirection { dir: Some(Vec2i { x: 60, y: 80 }) };
    pool_cue(Vec2i { x: 7, y: -3 }, Some(Vec2i { x: 7, y: -3 }), &mut dir);
    assert_eq!(dir.dir, None);
}

#[test]
fn shot_sets_cue_ball_velocity_and_flips_turn() {
    let mut balls = setup_table();
    let mut playing = Playing { ready: true, playing: 0 };
    let inputs = vec![
        CueInput { dir_x: 127, dir_y: 0, power: 5 },
        CueInput { dir_x: 0, dir_y: 0, power: 0 },
    ];
    shoot_ball(&inputs, &mut balls, &mut playing);
    // 127 / 127 * 5 in fixed point is 500 counts per tick
    assert_eq!(balls[0].vel.vel, Vec2i { x: 500, y: 0 });
    assert_eq!(playing.playing, 1);
    assert!(!playing.ready);
}

#[test]
fn null_record_leaves_world_and_turn_alone() {
    let mut balls = setup_table();
    let mut playing = Playing { ready: true, playing: 1 };
    let inputs = vec![
        CueInput { dir_x: 10, dir_y: 10, power: 5 },
        CueInput { dir_x: 0, dir_y: 0, power: 0 },
    ];
    // the active player's slot (1) holds the null record
    shoot_ball(&inputs, &mut balls, &mut playing);
    assert_eq!(balls[0].vel.vel, Vec2i { x: 0, y: 0 });
    assert_eq!(playing.playing, 1);
    assert!(playing.ready);
}

#[test]
fn settle_check_enters_ready_only_at_rest() {
    let moving = vec![ball(BallColor::White, 0, 0, 0, 1)];
    let mut playing = Playing { ready: false, playing: 0 };
    set_ready(&mut playing, &moving);
    assert!(!playing.ready);

    let still = vec![ball(BallColor::White, 0, 0, 0, 0)];
    set_ready(&mut playing, &still);
    assert!(playing.ready);

    // once READY the settle check never leaves it
    set_ready(&mut playing, &moving);
    assert!(playing.ready);
}

#[test]
fn status_text_names_player_or_motion() {
    assert_eq!(update_text(&Playing { ready: true, playing: 0 }), "Player to move is 0");
    assert_eq!(update_text(&Playing { ready: true, playing: 1 }), "Player to move is 1");
    assert_eq!(update_text(&Playing { ready: false, playing: 0 }), "Moving balls");
}

#[test]
fn table_starts_with_one_white_ball_at_rest() {
    let balls = setup_table();
    assert_eq!(balls.len(), 9);
    let whites: Vec<_> = balls.iter().filter(|b| b.ball.color == BallColor::White).collect();
    assert_eq!(whites.len(), 1);
    assert_eq!(balls[0].ball.color, BallColor::White);
    assert_eq!(balls[0].pos, Vec2i { x: 0, y: 0 });
    for b in &balls {
        assert_eq!(b.vel.vel, Vec2i { x: 0, y: 0 });
    }
    assert_eq!(balls[1].pos, Vec2i { x: -2000, y: 0 });
    assert_eq!(balls[8].pos, Vec2i { x: 1000, y: 1000 });
}

#[test]
fn relay_room_address_is_fixed() {
    assert_eq!(connect(), "ws://127.0.0.1:3536/pool?next=2");
}

#[test]
fn match_starts_only_with_both_players() {
    assert!(!wait_for_players(0));
    assert!(!wait_for_players(1));
    assert!(wait_for_players(2));
}

#[test]
fn velocity_zero_is_rest() {
    assert_eq!(Velocity::zero().vel, Vec2i { x: 0, y: 0 });
    assert_eq!(Vec2i::zero(), Vec2i { x: 0, y: 0 });
}
