//! Input capture, the input-record wire codec, shot application and turn
//! arbitration.

use vstd::prelude::*;
use crate::fixed::{
    abs_i, div_trunc, div_trunc_i64, isqrt_u128, lemma_div_trunc_bound, lemma_isqrt_bounds,
    spec_isqrt,
};
use crate::collision::vel_zero;
use crate::{
    BallColor, BallState, CueInput, InputDirection, Playing, Vec2i, Velocity, COORD_LIMIT,
    DIR_MAX, SCALE, SHOT_POWER, in_coord_range, wf_playing,
};

verus! {

/// The aim direction, when present, is a fixed-point unit vector: both
/// components lie within one world unit.
pub open spec fn wf_dir(d: InputDirection) -> bool {
    match d.dir {
        Some(v) => abs_i(v.x as int) <= SCALE && abs_i(v.y as int) <= SCALE,
        None => true,
    }
}

/// One aim-direction component scaled to the `i8` wire range.
pub open spec fn encode_dir(c: int) -> int {
    div_trunc(c * DIR_MAX, SCALE as int)
}

/// The record produced by input capture: the null record unless the
/// trigger was pressed while an aim direction was available, else the
/// direction scaled to +/-127 with the fixed shot power.
pub open spec fn spec_input_record(pressed: bool, dir: Option<Vec2i>) -> CueInput {
    match dir {
        Some(d) if pressed => CueInput {
            dir_x: encode_dir(d.x as int) as i8,
            dir_y: encode_dir(d.y as int) as i8,
            power: SHOT_POWER,
        },
        _ => CueInput { dir_x: 0, dir_y: 0, power: 0 },
    }
}

/// Capture the local player's intent for this tick. Producing a
/// non-null record optimistically flips the turn state out of READY;
/// otherwise the turn state is untouched.
pub fn input(pressed: bool, res_direction: &InputDirection, ready: &mut Playing) -> (r: CueInput)
    requires
        wf_dir(*res_direction),
    ensures
        r == spec_input_record(pressed, res_direction.dir),
        final(ready).playing == old(ready).playing,
        final(ready).ready == (old(ready).ready && !(pressed && res_direction.dir is Some)),
{
    if pressed {
        if let Some(direction) = res_direction.dir {
            proof {
                assert(abs_i(direction.x as int * DIR_MAX) <= SCALE * DIR_MAX) by (nonlinear_arith)
                    requires
                        abs_i(direction.x as int) <= SCALE,
                ;
                assert(abs_i(direction.y as int * DIR_MAX) <= SCALE * DIR_MAX) by (nonlinear_arith)
                    requires
                        abs_i(direction.y as int) <= SCALE,
                ;
                lemma_div_trunc_bound(direction.x as int * DIR_MAX, SCALE as int, DIR_MAX as int);
                lemma_div_trunc_bound(direction.y as int * DIR_MAX, SCALE as int, DIR_MAX as int);
            }
            ready.ready = false;
            let ex = div_trunc_i64(direction.x * DIR_MAX, SCALE);
            let ey = div_trunc_i64(direction.y * DIR_MAX, SCALE);
            return CueInput { dir_x: ex as i8, dir_y: ey as i8, power: SHOT_POWER };
        }
    }
    CueInput { dir_x: 0, dir_y: 0, power: 0 }
}

/// Velocity handed to the cue ball by a shot record: the wire direction
/// scaled back to fixed-point counts and multiplied by the power.
pub open spec fn spec_shot_vel(inp: CueInput) -> Vec2i {
    Vec2i {
        x: div_trunc(inp.dir_x * inp.power * SCALE, DIR_MAX as int) as i64,
        y: div_trunc(inp.dir_y * inp.power * SCALE, DIR_MAX as int) as i64,
    }
}

/// The fixed-point unit vector pointing the way of `d`: each component
/// scaled by `SCALE` and divided by the vector's length.
pub open spec fn spec_norm(d: Vec2i) -> Vec2i {
    let len = spec_isqrt(d.x * d.x + d.y * d.y);
    Vec2i {
        x: div_trunc(d.x * SCALE, len) as i64,
        y: div_trunc(d.y * SCALE, len) as i64,
    }
}

/// The aim direction for a pointer position: the unit vector from the
/// cue ball toward the pointer, absent when the pointer is unavailable
/// or sits exactly on the cue ball (a zero-length aim is degenerate
/// input and is cleared, never an error).
pub open spec fn spec_aim(cue_pos: Vec2i, pointer: Option<Vec2i>) -> Option<Vec2i> {
    match pointer {
        Some(p) => if p == cue_pos {
            None
        } else {
            Some(spec_norm(Vec2i { x: (p.x - cue_pos.x) as i64, y: (p.y - cue_pos.y) as i64 }))
        },
        None => None,
    }
}

/// Recompute the aim direction from the cue ball's position and the
/// pointer's projected world position, storing it for input capture.
/// Purely presentational apart from that feed: the cue sprite drawn
/// along the direction is the shell's work.
pub fn pool_cue(cue_pos: Vec2i, pointer: Option<Vec2i>, res_direction: &mut InputDirection)
    requires
        in_coord_range(cue_pos),
        pointer matches Some(p) ==> in_coord_range(p),
    ensures
        final(res_direction).dir == spec_aim(cue_pos, pointer),
        wf_dir(*final(res_direction)),
{
    match pointer {
        None => {
            res_direction.dir = None;
        },
        Some(p) => {
            if p.x == cue_pos.x && p.y == cue_pos.y {
                res_direction.dir = None;
            } else {
                let dx = p.x - cue_pos.x;
                let dy = p.y - cue_pos.y;
                proof {
                    assert(0 <= (dx as int) * (dx as int) <= 4 * COORD_LIMIT * COORD_LIMIT)
                        by (nonlinear_arith)
                        requires
                            abs_i(dx as int) <= 2 * COORD_LIMIT,
                    ;
                    assert(0 <= (dy as int) * (dy as int) <= 4 * COORD_LIMIT * COORD_LIMIT)
                        by (nonlinear_arith)
                        requires
                            abs_i(dy as int) <= 2 * COORD_LIMIT,
                    ;
                    assert((dx as int) * (dx as int) + (dy as int) * (dy as int) >= 1)
                        by (nonlinear_arith)
                        requires
                            dx != 0 || dy != 0,
                    ;
                }
                let n2: i128 = (dx as i128) * (dx as i128) + (dy as i128) * (dy as i128);
                let len_wide = isqrt_u128(n2 as u128);
                proof {
                    assert(n2 >= 1);
                    assert((n2 as u128) as int == n2 as int);
                    lemma_isqrt_bounds(n2 as int);
                    assert(len_wide as int <= 4 * COORD_LIMIT) by (nonlinear_arith)
                        requires
                            (len_wide as int) * (len_wide as int) <= 8 * COORD_LIMIT
                                * COORD_LIMIT,
                            len_wide as int >= 0,
                            COORD_LIMIT == 1_000_000_000_000,
                    ;
                    assert(len_wide as int >= 1) by (nonlinear_arith)
                        requires
                            (n2 as int) >= 1,
                            (n2 as int) < (len_wide as int + 1) * (len_wide as int + 1),
                            len_wide as int >= 0,
                    ;
                    assert(abs_i(dx as int) <= len_wide as int) by (nonlinear_arith)
                        requires
                            (dx as int) * (dx as int) <= n2 as int,
                            (n2 as int) < (len_wide as int + 1) * (len_wide as int + 1),
                            len_wide as int >= 0,
                    ;
                    assert(abs_i(dy as int) <= len_wide as int) by (nonlinear_arith)
                        requires
                            (dy as int) * (dy as int) <= n2 as int,
                            (n2 as int) < (len_wide as int + 1) * (len_wide as int + 1),
                            len_wide as int >= 0,
                    ;
                    assert(abs_i(dx * SCALE) <= SCALE * (len_wide as int)) by (nonlinear_arith)
                        requires
                            abs_i(dx as int) <= len_wide as int,
                            SCALE == 100,
                    ;
                    assert(abs_i(dy * SCALE) <= SCALE * (len_wide as int)) by (nonlinear_arith)
                        requires
                            abs_i(dy as int) <= len_wide as int,
                            SCALE == 100,
                    ;
                    lemma_div_trunc_bound(dx * SCALE, len_wide as int, SCALE as int);
                    lemma_div_trunc_bound(dy * SCALE, len_wide as int, SCALE as int);
                }
                let len = len_wide as i64;
                let ex = div_trunc_i64(dx * SCALE, len);
                let ey = div_trunc_i64(dy * SCALE, len);
                res_direction.dir = Some(Vec2i { x: ex, y: ey });
            }
        },
    }
}

/// A shot velocity is small: the wire direction and power are a byte
/// each, so each component stays within a few hundred world units.
pub proof fn lemma_shot_vel_bound(inp: CueInput)
    ensures
        abs_i(spec_shot_vel(inp).x as int) <= 3264000,
        abs_i(spec_shot_vel(inp).y as int) <= 3264000,
{
    assert(abs_i(inp.dir_x * inp.power * SCALE) <= 3264000) by (nonlinear_arith)
        requires
            -128 <= inp.dir_x <= 127,
            0 <= inp.power <= 255,
    ;
    assert(abs_i(inp.dir_y * inp.power * SCALE) <= 3264000) by (nonlinear_arith)
        requires
            -128 <= inp.dir_y <= 127,
            0 <= inp.power <= 255,
    ;
    crate::fixed::lemma_div_trunc_mag(inp.dir_x * inp.power * SCALE, DIR_MAX as int);
    crate::fixed::lemma_div_trunc_mag(inp.dir_y * inp.power * SCALE, DIR_MAX as int);
}

/// Effect of applying a shot record to one ball: only the white cue
/// ball of a non-null record takes the shot velocity.
pub open spec fn spec_shot_ball(b: BallState, inp: CueInput) -> BallState {
    if b.ball.color == BallColor::White && inp.power != 0 {
        BallState { ball: b.ball, pos: b.pos, vel: Velocity { vel: spec_shot_vel(inp) } }
    } else {
        b
    }
}

/// Effect of applying a shot record on the turn state: a non-null
/// record hands the turn to the other player and marks the table
/// MOVING; a null record changes nothing.
pub open spec fn spec_shoot_turn(p: Playing, inp: CueInput) -> Playing {
    if inp.power != 0 {
        Playing { ready: false, playing: if p.playing == 1 { 0 } else { 1 } }
    } else {
        p
    }
}

/// Apply the active player's record for this tick: a non-null record
/// sets the cue ball's velocity from its direction and power, flips the
/// active player and leaves READY. Requires the table invariant that
/// exactly one ball is white.
pub fn shoot_ball(inputs: &Vec<CueInput>, balls: &mut Vec<BallState>, playing: &mut Playing)
    requires
        (old(playing).playing as int) < inputs@.len(),
        crate::one_white(old(balls)@),
    ensures
        final(balls)@.len() == old(balls)@.len(),
        forall|i: int|
            0 <= i < final(balls)@.len() ==> final(balls)@[i] == spec_shot_ball(
                #[trigger] old(balls)@[i],
                inputs@[old(playing).playing as int],
            ),
        *final(playing) == spec_shoot_turn(*old(playing), inputs@[old(playing).playing as int]),
{
    let inp = inputs[playing.playing];
    if inp.power == 0 {
        return;
    }
    proof {
        assert(abs_i(inp.dir_x * inp.power as int) <= 128 * 255) by (nonlinear_arith)
            requires
                -128 <= inp.dir_x <= 127,
                0 <= inp.power <= 255,
        ;
        assert(abs_i(inp.dir_y * inp.power as int) <= 128 * 255) by (nonlinear_arith)
            requires
                -128 <= inp.dir_y <= 127,
                0 <= inp.power <= 255,
        ;
        assert(abs_i(inp.dir_x * inp.power * SCALE) <= 128 * 255 * SCALE) by (nonlinear_arith)
            requires
                abs_i(inp.dir_x * inp.power as int) <= 128 * 255,
        ;
        assert(abs_i(inp.dir_y * inp.power * SCALE) <= 128 * 255 * SCALE) by (nonlinear_arith)
            requires
                abs_i(inp.dir_y * inp.power as int) <= 128 * 255,
        ;
    }
    let sx = div_trunc_i64((inp.dir_x as i64) * (inp.power as i64) * SCALE, DIR_MAX);
    let sy = div_trunc_i64((inp.dir_y as i64) * (inp.power as i64) * SCALE, DIR_MAX);
    let n: usize = balls.len();
    let mut i: usize = 0;
    while i < n
        invariant
            n == balls@.len(),
            n == old(balls)@.len(),
            i <= n,
            sx == div_trunc(inp.dir_x * inp.power * SCALE, DIR_MAX as int),
            sy == div_trunc(inp.dir_y * inp.power * SCALE, DIR_MAX as int),
            inp.power != 0,
            forall|k: int| i <= k < n ==> #[trigger] balls@[k] == old(balls)@[k],
            forall|k: int| 0 <= k < i ==> #[trigger] balls@[k] == spec_shot_ball(old(balls)@[k], inp),
        decreases n - i,
    {
        let b = balls[i];
        if matches!(b.ball.color, BallColor::White) {
            balls.set(
                i,
                BallState { ball: b.ball, pos: b.pos, vel: Velocity { vel: Vec2i { x: sx, y: sy } } },
            );
        }
        i = i + 1;
    }
    playing.ready = false;
    if playing.playing == 1 {
        playing.playing = 0;
    } else {
        playing.playing = 1;
    }
}

/// Every ball of the world is at rest.
pub open spec fn all_stopped(balls: Seq<BallState>) -> bool {
    forall|i: int| 0 <= i < balls.len() ==> vel_zero(#[trigger] balls[i])
}

/// The settle check of turn arbitration: the table becomes READY
/// exactly when every ball has come to rest, and never leaves READY
/// here.
pub fn set_ready(ready: &mut Playing, balls: &Vec<BallState>)
    ensures
        final(ready).playing == old(ready).playing,
        final(ready).ready == (old(ready).ready || all_stopped(balls@)),
{
    if ready.ready {
        return;
    }
    let n: usize = balls.len();
    let mut i: usize = 0;
    while i < n
        invariant
            n == balls@.len(),
            i <= n,
            forall|k: int| 0 <= k < i ==> vel_zero(#[trigger] balls@[k]),
        decreases n - i,
    {
        let b = &balls[i];
        if b.vel.vel.x != 0 || b.vel.vel.y != 0 {
            return;
        }
        i = i + 1;
    }
    ready.ready = true;
}

/// Status line shown beside the table: whose turn it is while READY,
/// else that the balls are still moving.
pub fn update_text(playing: &Playing) -> (r: &'static str)
    requires
        wf_playing(*playing),
    ensures
        playing.ready && playing.playing == 0 ==> r@ == "Player to move is 0"@,
        playing.ready && playing.playing == 1 ==> r@ == "Player to move is 1"@,
        !playing.ready ==> r@ == "Moving balls"@,
{
    if playing.ready {
        if playing.playing == 0 {
            "Player to move is 0"
        } else {
            "Player to move is 1"
        }
    } else {
        "Moving balls"
    }
}

/// An `i8` reinterpreted as its wire byte (two's complement).
pub open spec fn i8_to_byte(x: int) -> int {
    if x >= 0 {
        x
    } else {
        x + 256
    }
}

/// A wire byte reinterpreted as an `i8` (two's complement).
pub open spec fn byte_to_i8(b: int) -> int {
    if b < 128 {
        b
    } else {
        b - 256
    }
}

/// The three-byte wire form of an input record: direction bytes, then
/// power, no padding.
pub open spec fn spec_encode(c: CueInput) -> Seq<u8> {
    seq![i8_to_byte(c.dir_x as int) as u8, i8_to_byte(c.dir_y as int) as u8, c.power]
}

/// The record read back from a three-byte wire form.
pub open spec fn spec_decode(b: Seq<u8>) -> CueInput {
    CueInput {
        dir_x: byte_to_i8(b[0] as int) as i8,
        dir_y: byte_to_i8(b[1] as int) as i8,
        power: b[2],
    }
}

impl CueInput {
    /// Serialize the record to its exact three-byte wire form.
    pub fn to_bytes(&self) -> (r: [u8; 3])
        ensures
            r@ == spec_encode(*self),
    {
        let b0: u8 = if self.dir_x >= 0 {
            self.dir_x as u8
        } else {
            ((self.dir_x as i16) + 256) as u8
        };
        let b1: u8 = if self.dir_y >= 0 {
            self.dir_y as u8
        } else {
            ((self.dir_y as i16) + 256) as u8
        };
        let r = [b0, b1, self.power];
        proof {
            assert(r@ =~= spec_encode(*self));
        }
        r
    }

    /// Deserialize a record from its three-byte wire form.
    pub fn from_bytes(bytes: &[u8; 3]) -> (r: CueInput)
        ensures
            r == spec_decode(bytes@),
    {
        let d0: i8 = if bytes[0] < 128 {
            bytes[0] as i8
        } else {
            ((bytes[0] as i16) - 256) as i8
        };
        let d1: i8 = if bytes[1] < 128 {
            bytes[1] as i8
        } else {
            ((bytes[1] as i16) - 256) as i8
        };
        CueInput { dir_x: d0, dir_y: d1, power: bytes[2] }
    }
}

/// Decoding inverts encoding: every record round-trips through its
/// three-byte wire form unchanged.
pub proof fn lemma_record_roundtrip(c: CueInput)
    ensures
        spec_decode(spec_encode(c)) == c,
{
}

/// Encoding inverts decoding: every three-byte wire form round-trips
/// through the record it denotes unchanged, byte for byte.
pub proof fn lemma_bytes_roundtrip(b: Seq<u8>)
    requires
        b.len() == 3,
    ensures
        spec_encode(spec_decode(b)) =~= b,
{
}

} // verus!
