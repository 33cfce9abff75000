//! The simulation driver: the deterministic per-tick entry point the
//! rollback scheduler calls, and a replay runner over a whole input
//! schedule. A tick composes shot application, the physics step, the
//! collision resolver and the settle check, in that fixed order; the
//! order is part of the determinism contract.

use vstd::prelude::*;
use crate::collision::{
    ball_collisions, collision_in_range, lemma_apply_updates_ball, spec_collisions,
};
use crate::fixed::abs_i;
use crate::gameplay::{
    all_stopped, lemma_shot_vel_bound, set_ready, shoot_ball, spec_shoot_turn, spec_shot_ball,
};
use crate::physics::{lemma_move_ball_bounds, move_balls, spec_move_ball};
use crate::{
    BallState, BoardSize, CueInput, Playing, COORD_LIMIT, one_white, wf_ball, wf_board,
    wf_playing, wf_world, white_at,
};

verus! {

/// The complete rollback state: the ball array and the turn state.
/// Saving and restoring a snapshot is all an external scheduler needs
/// to replay ticks.
#[derive(Clone, Debug)]
pub struct Snapshot {
    pub balls: Vec<BallState>,
    pub playing: Playing,
}

/// Replay failure: a state left the coordinate bound that one tick of
/// 64-bit arithmetic is guaranteed overflow-free within.
#[derive(Clone, Copy, PartialEq, Eq, Structural, Debug)]
pub enum SimError {
    OutOfRange,
}

/// The record the driver applies this tick: the active player's slot of
/// the aggregated input array.
pub open spec fn active_input(p: Playing, inputs: Seq<CueInput>) -> CueInput {
    inputs[p.playing as int]
}

/// The ball array after one tick: shot application, then the physics
/// step, then collision resolution.
pub open spec fn spec_tick_balls(
    balls: Seq<BallState>,
    p: Playing,
    inputs: Seq<CueInput>,
    bs: BoardSize,
) -> Seq<BallState> {
    let inp = active_input(p, inputs);
    let shot = balls.map_values(|b: BallState| spec_shot_ball(b, inp));
    let moved = shot.map_values(|b: BallState| spec_move_ball(b, bs));
    spec_collisions(moved, bs.ball_diameter as int)
}

/// The turn state after one tick: a non-null record leaves READY and
/// flips the active player, and the settle check enters READY exactly
/// when every ball has come to rest.
pub open spec fn spec_tick_turn(
    balls: Seq<BallState>,
    p: Playing,
    inputs: Seq<CueInput>,
    bs: BoardSize,
) -> Playing {
    let p1 = spec_shoot_turn(p, active_input(p, inputs));
    Playing {
        ready: p1.ready || all_stopped(spec_tick_balls(balls, p, inputs, bs)),
        playing: p1.playing,
    }
}

/// Worlds whose colors agree pointwise have the cue-ball invariant
/// together.
pub proof fn lemma_one_white_same_colors(a: Seq<BallState>, b: Seq<BallState>)
    requires
        a.len() == b.len(),
        forall|i: int| 0 <= i < a.len() ==> #[trigger] a[i].ball == b[i].ball,
        one_white(a),
    ensures
        one_white(b),
{
    let w = choose|i: int| #[trigger] white_at(a, i) && forall|j: int|
        #[trigger] white_at(a, j) ==> j == i;
    assert(white_at(b, w));
    assert forall|j: int| #[trigger] white_at(b, j) implies j == w by {
        assert(white_at(a, j));
    }
}

/// Advance the world by exactly one tick, in the fixed order: apply the
/// active player's record, advance every ball, resolve collisions, run
/// the settle check. The result is a pure function of the snapshot and
/// the input array, which is what lets a rollback scheduler re-run any
/// span of ticks from a saved snapshot.
pub fn tick(snap: &mut Snapshot, inputs: &Vec<CueInput>, board_size: &BoardSize)
    requires
        wf_board(*board_size),
        inputs@.len() == 2,
        wf_playing(old(snap).playing),
        one_white(old(snap).balls@),
        wf_world(old(snap).balls@),
    ensures
        final(snap).balls@ == spec_tick_balls(
            old(snap).balls@,
            old(snap).playing,
            inputs@,
            *board_size,
        ),
        final(snap).playing == spec_tick_turn(
            old(snap).balls@,
            old(snap).playing,
            inputs@,
            *board_size,
        ),
        final(snap).balls@.len() == old(snap).balls@.len(),
        one_white(final(snap).balls@),
        wf_playing(final(snap).playing),
{
    let ghost balls0 = snap.balls@;
    let ghost p0 = snap.playing;
    let ghost inp = active_input(p0, inputs@);
    shoot_ball(inputs, &mut snap.balls, &mut snap.playing);
    let ghost shot = balls0.map_values(|b: BallState| spec_shot_ball(b, inp));
    proof {
        assert(snap.balls@ =~= shot);
        lemma_shot_vel_bound(inp);
        assert forall|i: int| 0 <= i < shot.len() implies wf_ball(#[trigger] shot[i]) by {
            assert(wf_ball(balls0[i]));
        }
    }
    let ghost moved = shot.map_values(|b: BallState| spec_move_ball(b, *board_size));
    move_balls(&mut snap.balls, board_size);
    proof {
        assert(snap.balls@ =~= moved);
        assert forall|i: int| 0 <= i < moved.len() implies {
            &&& abs_i((#[trigger] moved[i]).pos.x as int) <= 2 * COORD_LIMIT
            &&& abs_i(moved[i].pos.y as int) <= 2 * COORD_LIMIT
            &&& abs_i(moved[i].vel.vel.x as int) <= COORD_LIMIT
            &&& abs_i(moved[i].vel.vel.y as int) <= COORD_LIMIT
        } by {
            lemma_move_ball_bounds(shot[i], *board_size);
        }
        assert(collision_in_range(moved));
    }
    ball_collisions(board_size, &mut snap.balls);
    set_ready(&mut snap.playing, &snap.balls);
    proof {
        lemma_apply_updates_ball(
            moved,
            crate::collision::collision_updates(moved, board_size.ball_diameter as int),
        );
        assert forall|i: int| 0 <= i < balls0.len() implies #[trigger] balls0[i].ball
            == snap.balls@[i].ball by {
            lemma_move_ball_bounds(shot[i], *board_size);
        }
        lemma_one_white_same_colors(balls0, snap.balls@);
    }
}

/// Turn arbitration across one tick. READY is left exactly on a tick
/// that applies a non-null record (unless the table settles again
/// within the same tick), and from MOVING the table becomes READY
/// exactly when every ball has come to rest by the end of the tick.
pub proof fn lemma_turn_arbitration(
    balls: Seq<BallState>,
    p: Playing,
    inputs: Seq<CueInput>,
    bs: BoardSize,
)
    ensures
        p.ready && !spec_tick_turn(balls, p, inputs, bs).ready ==> active_input(p, inputs).power
            != 0,
        active_input(p, inputs).power != 0 && !all_stopped(spec_tick_balls(balls, p, inputs, bs))
            ==> !spec_tick_turn(balls, p, inputs, bs).ready,
        active_input(p, inputs).power == 0 && p.ready ==> spec_tick_turn(
            balls,
            p,
            inputs,
            bs,
        ).ready,
        !p.ready ==> (spec_tick_turn(balls, p, inputs, bs).ready <==> all_stopped(
            spec_tick_balls(balls, p, inputs, bs),
        )),
        active_input(p, inputs).power != 0 ==> spec_tick_turn(balls, p, inputs, bs).playing == (
        if p.playing == 1 {
            0int
        } else {
            1int
        }),
        active_input(p, inputs).power == 0 ==> spec_tick_turn(balls, p, inputs, bs).playing
            == p.playing,
{
}

/// View of a schedule of per-tick input arrays.
pub open spec fn schedule_view(s: Seq<Vec<CueInput>>) -> Seq<Seq<CueInput>> {
    s.map_values(|v: Vec<CueInput>| v@)
}

/// Replaying a schedule: before every tick, and once after the last,
/// the state must lie within the coordinate bound; the first violation
/// ends the replay with an error. Otherwise the ticks are folded in
/// order.
pub open spec fn spec_run(
    balls: Seq<BallState>,
    p: Playing,
    schedule: Seq<Seq<CueInput>>,
    bs: BoardSize,
) -> Result<(Seq<BallState>, Playing), SimError>
    decreases schedule.len(),
{
    if !wf_world(balls) {
        Err(SimError::OutOfRange)
    } else if schedule.len() == 0 {
        Ok((balls, p))
    } else {
        spec_run(
            spec_tick_balls(balls, p, schedule[0], bs),
            spec_tick_turn(balls, p, schedule[0], bs),
            schedule.drop_first(),
            bs,
        )
    }
}

/// The replay is a pure function of the starting snapshot and the input
/// schedule: runs from equal snapshots over equal schedules end in
/// equal states, which is the determinism the rollback contract asks
/// for.
pub proof fn lemma_replay_deterministic(
    balls_a: Seq<BallState>,
    p_a: Playing,
    schedule_a: Seq<Seq<CueInput>>,
    balls_b: Seq<BallState>,
    p_b: Playing,
    schedule_b: Seq<Seq<CueInput>>,
    bs: BoardSize,
)
    requires
        balls_a == balls_b,
        p_a == p_b,
        schedule_a == schedule_b,
    ensures
        spec_run(balls_a, p_a, schedule_a, bs) == spec_run(balls_b, p_b, schedule_b, bs),
{
}

/// Every ball's coordinates lie within the tick-boundary bound.
pub fn world_in_limits(balls: &Vec<BallState>) -> (r: bool)
    ensures
        r == wf_world(balls@),
{
    let n: usize = balls.len();
    let mut i: usize = 0;
    while i < n
        invariant
            n == balls@.len(),
            i <= n,
            forall|k: int| 0 <= k < i ==> wf_ball(#[trigger] balls@[k]),
        decreases n - i,
    {
        let b = &balls[i];
        if b.pos.x > COORD_LIMIT || b.pos.x < -COORD_LIMIT || b.pos.y > COORD_LIMIT || b.pos.y
            < -COORD_LIMIT || b.vel.vel.x > COORD_LIMIT || b.vel.vel.x < -COORD_LIMIT
            || b.vel.vel.y > COORD_LIMIT || b.vel.vel.y < -COORD_LIMIT {
            return false;
        }
        i = i + 1;
    }
    true
}

/// Replay a whole schedule of ticks from a snapshot, exactly as
/// [`spec_run`] folds them; each tick's inputs are the records of the
/// two player slots for that tick.
pub fn run_ticks(snapshot: Snapshot, schedule: &Vec<Vec<CueInput>>, board_size: &BoardSize) -> (r:
    Result<Snapshot, SimError>)
    requires
        wf_board(*board_size),
        wf_playing(snapshot.playing),
        one_white(snapshot.balls@),
        forall|t: int| 0 <= t < schedule@.len() ==> (#[trigger] schedule@[t])@.len() == 2,
    ensures
        r is Ok ==> spec_run(
            snapshot.balls@,
            snapshot.playing,
            schedule_view(schedule@),
            *board_size,
        ) == Ok::<(Seq<BallState>, Playing), SimError>((r->Ok_0.balls@, r->Ok_0.playing)),
        r is Err ==> spec_run(
            snapshot.balls@,
            snapshot.playing,
            schedule_view(schedule@),
            *board_size,
        ) == Err::<(Seq<BallState>, Playing), SimError>(r->Err_0),
{
    let ghost sched = schedule_view(schedule@);
    let mut snap = snapshot;
    proof {
        assert(sched.skip(0) =~= sched);
    }
    let m: usize = schedule.len();
    let mut t: usize = 0;
    while t < m
        invariant
            m == schedule@.len(),
            t <= m,
            sched == schedule_view(schedule@),
            forall|k: int| 0 <= k < m ==> (#[trigger] schedule@[k])@.len() == 2,
            wf_board(*board_size),
            wf_playing(snap.playing),
            one_white(snap.balls@),
            spec_run(snapshot.balls@, snapshot.playing, sched, *board_size) == spec_run(
                snap.balls@,
                snap.playing,
                sched.skip(t as int),
                *board_size,
            ),
        decreases m - t,
    {
        if !world_in_limits(&snap.balls) {
            return Err(SimError::OutOfRange);
        }
        let ghost pre_balls = snap.balls@;
        let ghost pre_p = snap.playing;
        tick(&mut snap, &schedule[t], board_size);
        proof {
            assert(sched.skip(t as int)[0] == schedule@[t as int]@);
            assert(sched.skip(t as int).drop_first() =~= sched.skip(t + 1 as int));
        }
        t = t + 1;
    }
    proof {
        assert(sched.skip(m as int) =~= Seq::<Seq<CueInput>>::empty());
    }
    if !world_in_limits(&snap.balls) {
        return Err(SimError::OutOfRange);
    }
    Ok(snap)
}

} // verus!
