//! Physics step: per-ball integration, friction damping, rest snapping
//! and wall bounces, each ball independent of every other.

use vstd::prelude::*;
use crate::fixed::{abs_i, div_trunc, div_trunc_i64, lemma_div_trunc_bound, lemma_div_trunc_mag};
use crate::{
    BallState, BoardSize, Vec2i, Velocity, COORD_LIMIT, DAMP_DEN, DAMP_NUM, STOP_EPSILON, wf_ball,
    wf_board, wf_world,
};

verus! {

/// One physics step of a single ball: balls at rest stay put; a ball
/// slower than `STOP_EPSILON` in both components snaps to rest without
/// moving; any other ball integrates its position, is damped by
/// `DAMP_NUM / DAMP_DEN`, and has a velocity component negated when the
/// post-integration position leaves the board half-extent.
pub open spec fn spec_move_ball(b: BallState, bs: BoardSize) -> BallState {
    let vx = b.vel.vel.x as int;
    let vy = b.vel.vel.y as int;
    if vx == 0 && vy == 0 {
        b
    } else if abs_i(vx) < STOP_EPSILON && abs_i(vy) < STOP_EPSILON {
        BallState { ball: b.ball, pos: b.pos, vel: Velocity { vel: Vec2i { x: 0, y: 0 } } }
    } else {
        let px = b.pos.x + vx;
        let py = b.pos.y + vy;
        let dvx = div_trunc(vx * DAMP_NUM, DAMP_DEN as int);
        let dvy = div_trunc(vy * DAMP_NUM, DAMP_DEN as int);
        let rvx = if abs_i(px) > bs.width / 2 {
            -dvx
        } else {
            dvx
        };
        let rvy = if abs_i(py) > bs.height / 2 {
            -dvy
        } else {
            dvy
        };
        BallState {
            ball: b.ball,
            pos: Vec2i { x: px as i64, y: py as i64 },
            vel: Velocity { vel: Vec2i { x: rvx as i64, y: rvy as i64 } },
        }
    }
}

/// The physics step never grows a velocity component, and moves the
/// position by at most the old velocity.
pub proof fn lemma_move_ball_bounds(b: BallState, bs: BoardSize)
    requires
        wf_ball(b),
        wf_board(bs),
    ensures
        abs_i(spec_move_ball(b, bs).vel.vel.x as int) <= abs_i(b.vel.vel.x as int),
        abs_i(spec_move_ball(b, bs).vel.vel.y as int) <= abs_i(b.vel.vel.y as int),
        abs_i(spec_move_ball(b, bs).pos.x as int) <= abs_i(b.pos.x as int) + abs_i(
            b.vel.vel.x as int,
        ),
        abs_i(spec_move_ball(b, bs).pos.y as int) <= abs_i(b.pos.y as int) + abs_i(
            b.vel.vel.y as int,
        ),
        spec_move_ball(b, bs).ball == b.ball,
{
    let vx = b.vel.vel.x as int;
    let vy = b.vel.vel.y as int;
    if !(vx == 0 && vy == 0) && !(abs_i(vx) < STOP_EPSILON && abs_i(vy) < STOP_EPSILON) {
        assert(abs_i(vx * DAMP_NUM) == abs_i(vx) * DAMP_NUM) by (nonlinear_arith);
        assert(abs_i(vx) * DAMP_NUM <= abs_i(vx) * DAMP_DEN) by (nonlinear_arith);
        lemma_div_trunc_bound(vx * DAMP_NUM, DAMP_DEN as int, abs_i(vx));
        assert(abs_i(vy * DAMP_NUM) == abs_i(vy) * DAMP_NUM) by (nonlinear_arith);
        assert(abs_i(vy) * DAMP_NUM <= abs_i(vy) * DAMP_DEN) by (nonlinear_arith);
        lemma_div_trunc_bound(vy * DAMP_NUM, DAMP_DEN as int, abs_i(vy));
    }
}

/// Rest is a fixed point of the physics step: a ball with zero velocity
/// is returned unchanged, so applying the step any number of times keeps
/// it at rest.
pub proof fn lemma_rest_idempotent(b: BallState, bs: BoardSize)
    requires
        b.vel.vel.x == 0,
        b.vel.vel.y == 0,
    ensures
        spec_move_ball(b, bs) == b,
        spec_move_ball(spec_move_ball(b, bs), bs) == b,
{
}

/// A ball slower than the stopping threshold in both components snaps
/// to exactly zero velocity in one step, without moving.
pub proof fn lemma_slow_ball_snaps(b: BallState, bs: BoardSize)
    requires
        abs_i(b.vel.vel.x as int) < STOP_EPSILON,
        abs_i(b.vel.vel.y as int) < STOP_EPSILON,
    ensures
        spec_move_ball(b, bs).vel.vel == (Vec2i { x: 0, y: 0 }),
        spec_move_ball(b, bs).pos == b.pos,
        spec_move_ball(b, bs).ball == b.ball,
{
}

/// One physics step of a single ball; see [`spec_move_ball`].
pub fn move_ball(b: &BallState, bs: &BoardSize) -> (r: BallState)
    requires
        wf_ball(*b),
        wf_board(*bs),
    ensures
        r == spec_move_ball(*b, *bs),
{
    let vx = b.vel.vel.x;
    let vy = b.vel.vel.y;
    if vx == 0 && vy == 0 {
        *b
    } else if -STOP_EPSILON < vx && vx < STOP_EPSILON && -STOP_EPSILON < vy && vy
        < STOP_EPSILON {
        BallState { ball: b.ball, pos: b.pos, vel: Velocity { vel: Vec2i { x: 0, y: 0 } } }
    } else {
        let px = b.pos.x + vx;
        let py = b.pos.y + vy;
        proof {
            lemma_div_trunc_mag(vx * DAMP_NUM, DAMP_DEN as int);
            lemma_div_trunc_mag(vy * DAMP_NUM, DAMP_DEN as int);
        }
        let dvx = div_trunc_i64(vx * DAMP_NUM, DAMP_DEN);
        let dvy = div_trunc_i64(vy * DAMP_NUM, DAMP_DEN);
        let w2 = div_trunc_i64(bs.width, 2);
        let h2 = div_trunc_i64(bs.height, 2);
        let rvx = if px > w2 || px < -w2 {
            -dvx
        } else {
            dvx
        };
        let rvy = if py > h2 || py < -h2 {
            -dvy
        } else {
            dvy
        };
        BallState {
            ball: b.ball,
            pos: Vec2i { x: px, y: py },
            vel: Velocity { vel: Vec2i { x: rvx, y: rvy } },
        }
    }
}

/// Advance every ball by one physics step. Each ball's outcome depends
/// only on its own state, so iteration order cannot affect the result.
pub fn move_balls(balls: &mut Vec<BallState>, board_size: &BoardSize)
    requires
        wf_world(old(balls)@),
        wf_board(*board_size),
    ensures
        final(balls)@.len() == old(balls)@.len(),
        forall|i: int|
            0 <= i < final(balls)@.len() ==> final(balls)@[i] == spec_move_ball(
                #[trigger] old(balls)@[i],
                *board_size,
            ),
{
    let n: usize = balls.len();
    let mut i: usize = 0;
    while i < n
        invariant
            n == balls@.len(),
            n == old(balls)@.len(),
            i <= n,
            wf_board(*board_size),
            forall|k: int| i <= k < n ==> #[trigger] balls@[k] == old(balls)@[k],
            forall|k: int| i <= k < n ==> wf_ball(#[trigger] balls@[k]),
            forall|k: int|
                0 <= k < i ==> balls@[k] == spec_move_ball(#[trigger] old(balls)@[k], *board_size),
        decreases n - i,
    {
        let b = balls[i];
        let nb = move_ball(&b, board_size);
        balls.set(i, nb);
        i = i + 1;
    }
}

} // verus!
