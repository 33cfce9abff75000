//! Two-phase collision resolution. Phase one walks every unordered pair
//! of balls once, in index order, and buffers a velocity update for each
//! colliding pair, computed solely from pre-tick state. Phase two writes
//! the buffered updates back. No write of this tick can influence the
//! velocities another pair is computed from.

use vstd::prelude::*;
use crate::fixed::{
    abs_i, div_trunc, div_trunc_i128, lemma_div_trunc_bound, lemma_div_trunc_exact,
    lemma_div_trunc_mag,
};
use crate::{
    BallState, BoardSize, Vec2i, Velocity, COORD_LIMIT, GEOM_LIMIT, wf_board,
};

verus! {

/// The ball is at rest.
pub open spec fn vel_zero(b: BallState) -> bool {
    b.vel.vel.x == 0 && b.vel.vel.y == 0
}

/// Squared center distance of two balls.
pub open spec fn dist_sq(a: BallState, b: BallState) -> int {
    let dx = b.pos.x - a.pos.x;
    let dy = b.pos.y - a.pos.y;
    dx * dx + dy * dy
}

/// Collision response of the ordered pair `(a, b)`: the new velocities
/// of `a` and of `b`, or `None` when the pair does not collide.
///
/// A pair collides when `a` is moving and the center distance is at most
/// the ball diameter (and positive, else no direction exists). Writing
/// `d` for the center offset and `dot` for `a`'s velocity projected on
/// it, the force transferred to `b` along the collision direction is
/// `dot / |d|`, so `b` gains `d * dot / |d|^2`; `a`'s new velocity is
/// the transferred force along the negated perpendicular of the
/// collision direction. The response is a documented simplification of
/// the game and does not conserve momentum; it is kept exactly as
/// stated rather than corrected.
pub open spec fn pair_update(a: BallState, b: BallState, diam: int) -> Option<(Vec2i, Vec2i)> {
    let dx = b.pos.x - a.pos.x;
    let dy = b.pos.y - a.pos.y;
    let d2 = dist_sq(a, b);
    if !vel_zero(a) && d2 <= diam * diam && d2 != 0 {
        let dot = a.vel.vel.x * dx + a.vel.vel.y * dy;
        let tx = div_trunc(dx * dot, d2);
        let ty = div_trunc(dy * dot, d2);
        Some(
            (
                Vec2i { x: ty as i64, y: (-tx) as i64 },
                Vec2i { x: (b.vel.vel.x + tx) as i64, y: (b.vel.vel.y + ty) as i64 },
            ),
        )
    } else {
        None
    }
}

/// The buffered updates of the single pair `(i, j)`.
pub open spec fn upd_pair(balls: Seq<BallState>, i: int, j: int, diam: int) -> Seq<(int, Vec2i)> {
    match pair_update(balls[i], balls[j], diam) {
        Some(p) => seq![(i, p.0), (j, p.1)],
        None => seq![],
    }
}

/// Buffered updates of the pairs `(i, i+1) .. (i, j-1)`, in order.
pub open spec fn inner_upto(balls: Seq<BallState>, i: int, j: int, diam: int) -> Seq<
    (int, Vec2i),
>
    decreases j - i,
{
    if j <= i + 1 {
        seq![]
    } else {
        inner_upto(balls, i, j - 1, diam) + upd_pair(balls, i, j - 1, diam)
    }
}

/// Buffered updates of every pair whose first index is below `i`.
pub open spec fn outer_upto(balls: Seq<BallState>, i: int, diam: int) -> Seq<(int, Vec2i)>
    decreases i,
{
    if i <= 0 {
        seq![]
    } else {
        outer_upto(balls, i - 1, diam) + inner_upto(balls, i - 1, balls.len() as int, diam)
    }
}

/// Phase one: the buffered updates of every unordered pair, each pair
/// visited exactly once, all computed from the same pre-tick state.
pub open spec fn collision_updates(balls: Seq<BallState>, diam: int) -> Seq<(int, Vec2i)> {
    outer_upto(balls, balls.len() as int, diam)
}

/// Write one buffered update: set the velocity of the ball it is keyed
/// by, leaving the world unchanged for a stale key.
pub open spec fn apply_one(balls: Seq<BallState>, u: (int, Vec2i)) -> Seq<BallState> {
    if 0 <= u.0 < balls.len() {
        balls.update(
            u.0,
            BallState { ball: balls[u.0].ball, pos: balls[u.0].pos, vel: Velocity { vel: u.1 } },
        )
    } else {
        balls
    }
}

/// Phase two: write every buffered update, in buffer order.
pub open spec fn apply_updates(balls: Seq<BallState>, ups: Seq<(int, Vec2i)>) -> Seq<BallState>
    decreases ups.len(),
{
    if ups.len() == 0 {
        balls
    } else {
        apply_updates(apply_one(balls, ups[0]), ups.drop_first())
    }
}

/// The whole collision resolver: detect and buffer, then apply.
pub open spec fn spec_collisions(balls: Seq<BallState>, diam: int) -> Seq<BallState> {
    apply_updates(balls, collision_updates(balls, diam))
}

/// Applying updates never changes the number of balls.
pub proof fn lemma_apply_updates_len(balls: Seq<BallState>, ups: Seq<(int, Vec2i)>)
    ensures
        apply_updates(balls, ups).len() == balls.len(),
    decreases ups.len(),
{
    if ups.len() > 0 {
        lemma_apply_updates_len(apply_one(balls, ups[0]), ups.drop_first());
    }
}

/// Applying updates changes only velocities: every ball keeps its
/// identity and position.
pub proof fn lemma_apply_updates_ball(balls: Seq<BallState>, ups: Seq<(int, Vec2i)>)
    ensures
        apply_updates(balls, ups).len() == balls.len(),
        forall|i: int|
            0 <= i < balls.len() ==> #[trigger] apply_updates(balls, ups)[i].ball == balls[i].ball
                && apply_updates(balls, ups)[i].pos == balls[i].pos,
    decreases ups.len(),
{
    if ups.len() > 0 {
        lemma_apply_updates_ball(apply_one(balls, ups[0]), ups.drop_first());
    }
}

/// Appending one update to the buffer applies it last.
pub proof fn lemma_apply_updates_push(
    balls: Seq<BallState>,
    ups: Seq<(int, Vec2i)>,
    u: (int, Vec2i),
)
    ensures
        apply_updates(balls, ups.push(u)) == apply_one(apply_updates(balls, ups), u),
    decreases ups.len(),
{
    if ups.len() == 0 {
        assert(ups.push(u)[0] == u);
        assert(ups.push(u).drop_first() =~= Seq::<(int, Vec2i)>::empty());
        assert(apply_updates(apply_one(balls, u), Seq::<(int, Vec2i)>::empty()) == apply_one(
            balls,
            u,
        ));
        assert(apply_updates(balls, ups.push(u)) == apply_one(balls, u));
        assert(apply_updates(balls, ups) == balls);
    } else {
        assert(ups.push(u)[0] == ups[0]);
        assert(ups.push(u).drop_first() =~= ups.drop_first().push(u));
        assert(apply_updates(balls, ups.push(u)) == apply_updates(
            apply_one(balls, ups[0]),
            ups.drop_first().push(u),
        ));
        lemma_apply_updates_push(apply_one(balls, ups[0]), ups.drop_first(), u);
        assert(apply_updates(balls, ups) == apply_updates(
            apply_one(balls, ups[0]),
            ups.drop_first(),
        ));
    }
}

/// `|a * b| <= ca * cb` when `|a| <= ca` and `|b| <= cb`.
pub proof fn lemma_mul_abs_le(a: int, b: int, ca: int, cb: int)
    requires
        abs_i(a) <= ca,
        abs_i(b) <= cb,
    ensures
        abs_i(a * b) <= ca * cb,
{
    assert(abs_i(a * b) <= ca * cb) by (nonlinear_arith)
        requires
            abs_i(a) <= ca,
            abs_i(b) <= cb,
    ;
}

/// The transferred velocity component `dxv * dot / d2` is no larger in
/// magnitude than the projection `dot` itself, because `dxv^2 <= d2`.
pub proof fn lemma_transfer_bound(dxv: int, dot: int, d2: int)
    requires
        d2 >= 1,
        dxv * dxv <= d2,
    ensures
        abs_i(div_trunc(dxv * dot, d2)) <= abs_i(dot),
{
    if dxv == 0 {
        assert(dxv * dot == 0);
        lemma_div_trunc_mag(0, d2);
    } else {
        assert(abs_i(dxv) <= dxv * dxv) by (nonlinear_arith)
            requires
                dxv != 0,
        ;
        assert(abs_i(dxv * dot) == abs_i(dxv) * abs_i(dot)) by (nonlinear_arith);
        assert(abs_i(dxv) * abs_i(dot) <= abs_i(dot) * d2) by (nonlinear_arith)
            requires
                abs_i(dxv) <= d2,
                abs_i(dot) >= 0,
        ;
        lemma_div_trunc_bound(dxv * dot, d2, abs_i(dot));
    }
}

/// On a two-ball table, a moving pair whose centers are exactly one
/// ball diameter apart is resolved: phase one buffers a velocity update
/// for each of the two balls.
pub proof fn lemma_collision_at_diameter(balls: Seq<BallState>, diam: int)
    requires
        balls.len() == 2,
        diam > 0,
        !vel_zero(balls[0]),
        dist_sq(balls[0], balls[1]) == diam * diam,
    ensures
        pair_update(balls[0], balls[1], diam) is Some,
        collision_updates(balls, diam).len() == 2,
        collision_updates(balls, diam)[0].0 == 0,
        collision_updates(balls, diam)[1].0 == 1,
{
    assert(diam * diam > 0) by (nonlinear_arith)
        requires
            diam > 0,
    ;
    assert(pair_update(balls[0], balls[1], diam) is Some);
    assert(inner_upto(balls, 0, 1, diam) =~= Seq::<(int, Vec2i)>::empty());
    assert(inner_upto(balls, 0, 2, diam) =~= upd_pair(balls, 0, 1, diam));
    assert(inner_upto(balls, 1, 2, diam) =~= Seq::<(int, Vec2i)>::empty());
    assert(outer_upto(balls, 0, diam) =~= Seq::<(int, Vec2i)>::empty());
    assert(outer_upto(balls, 1, diam) =~= upd_pair(balls, 0, 1, diam));
    assert(outer_upto(balls, 2, diam) =~= upd_pair(balls, 0, 1, diam));
}

/// On a two-ball table, balls farther apart than one ball diameter
/// produce no update, and the resolver leaves the world unchanged.
pub proof fn lemma_no_collision_when_apart(balls: Seq<BallState>, diam: int)
    requires
        balls.len() == 2,
        dist_sq(balls[0], balls[1]) > diam * diam,
    ensures
        pair_update(balls[0], balls[1], diam) is None,
        collision_updates(balls, diam) =~= Seq::<(int, Vec2i)>::empty(),
        spec_collisions(balls, diam) == balls,
{
    assert(pair_update(balls[0], balls[1], diam) is None);
    assert(inner_upto(balls, 0, 1, diam) =~= Seq::<(int, Vec2i)>::empty());
    assert(inner_upto(balls, 0, 2, diam) =~= Seq::<(int, Vec2i)>::empty());
    assert(inner_upto(balls, 1, 2, diam) =~= Seq::<(int, Vec2i)>::empty());
    assert(outer_upto(balls, 0, diam) =~= Seq::<(int, Vec2i)>::empty());
    assert(outer_upto(balls, 1, diam) =~= Seq::<(int, Vec2i)>::empty());
    assert(outer_upto(balls, 2, diam) =~= Seq::<(int, Vec2i)>::empty());
}

/// Every update buffered for pairs `(i, i+1) .. (i, j-1)` is keyed by
/// a valid ball index.
pub proof fn lemma_inner_keys_valid(balls: Seq<BallState>, i: int, j: int, diam: int)
    requires
        0 <= i < balls.len(),
        j <= balls.len(),
    ensures
        forall|k: int|
            0 <= k < inner_upto(balls, i, j, diam).len() ==> 0 <= (#[trigger] inner_upto(
                balls,
                i,
                j,
                diam,
            )[k]).0 < balls.len(),
    decreases j - i,
{
    if j > i + 1 {
        lemma_inner_keys_valid(balls, i, j - 1, diam);
        let s = inner_upto(balls, i, j, diam);
        let l = inner_upto(balls, i, j - 1, diam);
        let u = upd_pair(balls, i, j - 1, diam);
        assert forall|k: int| 0 <= k < s.len() implies 0 <= (#[trigger] s[k]).0 < balls.len() by {
            if k < l.len() {
                assert(s[k] == l[k]);
            } else {
                assert(s[k] == u[k - l.len()]);
            }
        }
    }
}

/// Every update the resolver buffers is keyed by a valid ball index,
/// so the pointwise reading of phase two covers the whole buffer.
pub proof fn lemma_outer_keys_valid(balls: Seq<BallState>, i: int, diam: int)
    requires
        i <= balls.len(),
    ensures
        forall|k: int|
            0 <= k < outer_upto(balls, i, diam).len() ==> 0 <= (#[trigger] outer_upto(
                balls,
                i,
                diam,
            )[k]).0 < balls.len(),
    decreases i,
{
    if i > 0 {
        lemma_outer_keys_valid(balls, i - 1, diam);
        let s = outer_upto(balls, i, diam);
        let l = outer_upto(balls, i - 1, diam);
        lemma_inner_keys_valid(balls, i - 1, balls.len() as int, diam);
        let u = inner_upto(balls, i - 1, balls.len() as int, diam);
        assert forall|k: int| 0 <= k < s.len() implies 0 <= (#[trigger] s[k]).0 < balls.len() by {
            if k < l.len() {
                assert(s[k] == l[k]);
            } else {
                assert(s[k] == u[k - l.len()]);
            }
        }
    }
}

/// A head-on collision along the x axis transfers the striker's full
/// speed: the struck ball gains exactly `(a.vel.x, 0)` on top of its
/// own velocity, and the striker ends on the negated perpendicular,
/// `(0, -a.vel.x)` — the stated response formula, not physical
/// elasticity.
pub proof fn lemma_head_on_transfer(a: BallState, b: BallState, diam: int)
    requires
        a.vel.vel.x != 0,
        b.pos.y == a.pos.y,
        b.pos.x != a.pos.x,
        a.vel.vel.y == 0,
        (b.pos.x - a.pos.x) * (b.pos.x - a.pos.x) <= diam * diam,
        -1000000000 <= a.vel.vel.x <= 1000000000,
        -1000000000 <= b.vel.vel.x <= 1000000000,
    ensures
        pair_update(a, b, diam) == Some(
            (
                Vec2i { x: 0, y: (-a.vel.vel.x) as i64 },
                Vec2i { x: (b.vel.vel.x + a.vel.vel.x) as i64, y: b.vel.vel.y },
            ),
        ),
{
    let dx = b.pos.x - a.pos.x;
    let d2 = dist_sq(a, b);
    assert(d2 == dx * dx);
    assert(d2 > 0) by (nonlinear_arith)
        requires
            dx != 0,
            d2 == dx * dx,
    ;
    let dot = a.vel.vel.x * dx;
    assert(dx * dot == (a.vel.vel.x as int) * (dx * dx)) by (nonlinear_arith)
        requires
            dot == a.vel.vel.x * dx,
    ;
    lemma_div_trunc_exact(a.vel.vel.x as int, d2);
    lemma_div_trunc_mag(0, d2);
}

/// Some buffered update is keyed by ball `i`.
pub open spec fn has_key(ups: Seq<(int, Vec2i)>, i: int) -> bool {
    exists|k: int| 0 <= k < ups.len() && (#[trigger] ups[k]).0 == i
}

/// No two buffered updates are keyed by the same ball.
pub open spec fn keys_unique(ups: Seq<(int, Vec2i)>) -> bool {
    forall|k1: int, k2: int|
        0 <= k1 < k2 < ups.len() ==> (#[trigger] ups[k1]).0 != (#[trigger] ups[k2]).0
}

/// With at most one update per ball, applying the buffer acts
/// pointwise: an updated ball carries exactly its buffered velocity,
/// every other ball is untouched.
pub proof fn lemma_apply_updates_pointwise(balls: Seq<BallState>, ups: Seq<(int, Vec2i)>)
    requires
        keys_unique(ups),
    ensures
        apply_updates(balls, ups).len() == balls.len(),
        forall|k: int|
            0 <= k < ups.len() && 0 <= (#[trigger] ups[k]).0 < balls.len() ==> apply_updates(
                balls,
                ups,
            )[ups[k].0] == (BallState {
                ball: balls[ups[k].0].ball,
                pos: balls[ups[k].0].pos,
                vel: Velocity { vel: ups[k].1 },
            }),
        forall|i: int|
            0 <= i < balls.len() && !has_key(ups, i) ==> apply_updates(balls, ups)[i] == balls[i],
    decreases ups.len(),
{
    lemma_apply_updates_len(balls, ups);
    if ups.len() > 0 {
        let u0 = ups[0];
        let balls1 = apply_one(balls, u0);
        let rest = ups.drop_first();
        assert(forall|k: int| 1 <= k < ups.len() ==> #[trigger] ups[k] == rest[k - 1]);
        lemma_apply_updates_pointwise(balls1, rest);
        assert forall|i: int| has_key(rest, i) implies has_key(ups, i) && i != u0.0 by {
            let k = choose|k: int| 0 <= k < rest.len() && (#[trigger] rest[k]).0 == i;
            assert(ups[k + 1].0 == i);
        }
        if 0 <= u0.0 < balls.len() {
            assert(!has_key(rest, u0.0));
            assert(apply_updates(balls, ups)[u0.0] == balls1[u0.0]);
        }
        assert forall|k: int|
            0 <= k < ups.len() && 0 <= (#[trigger] ups[k]).0 < balls.len() implies apply_updates(
            balls,
            ups,
        )[ups[k].0] == (BallState {
            ball: balls[ups[k].0].ball,
            pos: balls[ups[k].0].pos,
            vel: Velocity { vel: ups[k].1 },
        }) by {
            if k == 0 {
            } else {
                assert(rest[k - 1] == ups[k]);
                assert(ups[k].0 != u0.0);
                assert(balls1[ups[k].0] == balls[ups[k].0]);
            }
        }
        assert forall|i: int|
            0 <= i < balls.len() && !has_key(ups, i) implies apply_updates(balls, ups)[i]
            == balls[i] by {
            assert(ups[0].0 != i);
            assert(!has_key(rest, i)) by {
                if has_key(rest, i) {
                    assert(has_key(ups, i));
                }
            }
            assert(balls1[i] == balls[i]);
        }
    }
}

/// The core two-phase law: when no ball is touched by two colliding
/// pairs, the buffered updates may be applied in any order — any two
/// buffers holding the same updates produce the same world. Together
/// with phase one reading only pre-tick state, the outcome of the
/// resolver is independent of the order in which pairs are discovered.
pub proof fn lemma_apply_updates_order_independent(
    balls: Seq<BallState>,
    u1: Seq<(int, Vec2i)>,
    u2: Seq<(int, Vec2i)>,
)
    requires
        keys_unique(u1),
        keys_unique(u2),
        forall|p: (int, Vec2i)| u1.contains(p) <==> u2.contains(p),
    ensures
        apply_updates(balls, u1) == apply_updates(balls, u2),
{
    lemma_apply_updates_pointwise(balls, u1);
    lemma_apply_updates_pointwise(balls, u2);
    assert forall|i: int| 0 <= i < balls.len() implies apply_updates(balls, u1)[i]
        == apply_updates(balls, u2)[i] by {
        if has_key(u1, i) {
            let k1 = choose|k: int| 0 <= k < u1.len() && (#[trigger] u1[k]).0 == i;
            assert(u1.contains(u1[k1]));
            assert(u2.contains(u1[k1]));
            let k2 = choose|k: int| 0 <= k < u2.len() && u2[k] == u1[k1];
            assert(u2[k2].0 == i);
        } else {
            assert(!has_key(u2, i)) by {
                if has_key(u2, i) {
                    let k2 = choose|k: int| 0 <= k < u2.len() && (#[trigger] u2[k]).0 == i;
                    assert(u2.contains(u2[k2]));
                    assert(u1.contains(u2[k2]));
                    let k1 = choose|k: int| 0 <= k < u1.len() && u1[k] == u2[k2];
                    assert(has_key(u1, i));
                }
            }
        }
    }
    assert(apply_updates(balls, u1) =~= apply_updates(balls, u2));
}

/// The order-independence law stated on the resolver itself: when no
/// ball is touched by two colliding pairs, any buffer holding the same
/// updates as phase one's — discovered in whatever order — yields
/// exactly the resolver's outcome.
pub proof fn lemma_collisions_order_independent(
    balls: Seq<BallState>,
    diam: int,
    other: Seq<(int, Vec2i)>,
)
    requires
        keys_unique(collision_updates(balls, diam)),
        keys_unique(other),
        forall|p: (int, Vec2i)| collision_updates(balls, diam).contains(p) <==> other.contains(p),
    ensures
        apply_updates(balls, other) == spec_collisions(balls, diam),
{
    lemma_apply_updates_order_independent(balls, collision_updates(balls, diam), other);
}

/// Positions after one physics step, and velocities at a tick boundary:
/// what the collision resolver accepts.
pub open spec fn collision_in_range(balls: Seq<BallState>) -> bool {
    forall|i: int|
        0 <= i < balls.len() ==> {
            &&& abs_i((#[trigger] balls[i]).pos.x as int) <= 2 * COORD_LIMIT
            &&& abs_i(balls[i].pos.y as int) <= 2 * COORD_LIMIT
            &&& abs_i(balls[i].vel.vel.x as int) <= COORD_LIMIT
            &&& abs_i(balls[i].vel.vel.y as int) <= COORD_LIMIT
        }
}

/// Collision response of one ordered pair; see [`pair_update`].
fn compute_pair(a: &BallState, b: &BallState, diam: i64) -> (r: Option<(Vec2i, Vec2i)>)
    requires
        0 < diam <= GEOM_LIMIT,
        abs_i(a.pos.x as int) <= 2 * COORD_LIMIT,
        abs_i(a.pos.y as int) <= 2 * COORD_LIMIT,
        abs_i(b.pos.x as int) <= 2 * COORD_LIMIT,
        abs_i(b.pos.y as int) <= 2 * COORD_LIMIT,
        abs_i(a.vel.vel.x as int) <= COORD_LIMIT,
        abs_i(a.vel.vel.y as int) <= COORD_LIMIT,
        abs_i(b.vel.vel.x as int) <= COORD_LIMIT,
        abs_i(b.vel.vel.y as int) <= COORD_LIMIT,
    ensures
        r == pair_update(*a, *b, diam as int),
{
    if a.vel.vel.x == 0 && a.vel.vel.y == 0 {
        return None;
    }
    let dx = b.pos.x - a.pos.x;
    let dy = b.pos.y - a.pos.y;
    if dx > diam || dx < -diam || dy > diam || dy < -diam {
        proof {
            assert(dx * dx + dy * dy > diam * diam) by (nonlinear_arith)
                requires
                    diam > 0,
                    abs_i(dx as int) > diam || abs_i(dy as int) > diam,
            ;
        }
        return None;
    }
    proof {
        assert(0 <= dx * dx <= diam * diam) by (nonlinear_arith)
            requires
                -diam <= dx <= diam,
        ;
        assert(0 <= dy * dy <= diam * diam) by (nonlinear_arith)
            requires
                -diam <= dy <= diam,
        ;
        assert(diam * diam <= GEOM_LIMIT * GEOM_LIMIT) by (nonlinear_arith)
            requires
                0 < diam <= GEOM_LIMIT,
        ;
    }
    let d2 = dx * dx + dy * dy;
    if d2 > diam * diam {
        return None;
    }
    if d2 == 0 {
        return None;
    }
    proof {
        lemma_mul_abs_le(a.vel.vel.x as int, dx as int, COORD_LIMIT as int, GEOM_LIMIT as int);
        lemma_mul_abs_le(a.vel.vel.y as int, dy as int, COORD_LIMIT as int, GEOM_LIMIT as int);
    }
    let dot: i128 = (a.vel.vel.x as i128) * (dx as i128) + (a.vel.vel.y as i128) * (dy as i128);
    proof {
        lemma_mul_abs_le(dx as int, dot as int, GEOM_LIMIT as int, 2 * COORD_LIMIT * GEOM_LIMIT);
        lemma_mul_abs_le(dy as int, dot as int, GEOM_LIMIT as int, 2 * COORD_LIMIT * GEOM_LIMIT);
        assert(dx * dx <= d2) by (nonlinear_arith)
            requires
                d2 == dx * dx + dy * dy,
                dy * dy >= 0,
        ;
        assert(dy * dy <= d2) by (nonlinear_arith)
            requires
                d2 == dx * dx + dy * dy,
                dx * dx >= 0,
        ;
        lemma_transfer_bound(dx as int, dot as int, d2 as int);
        lemma_transfer_bound(dy as int, dot as int, d2 as int);
    }
    let tx128 = div_trunc_i128((dx as i128) * dot, d2 as i128);
    let ty128 = div_trunc_i128((dy as i128) * dot, d2 as i128);
    let tx = tx128 as i64;
    let ty = ty128 as i64;
    Some(
        (
            Vec2i { x: ty, y: -tx },
            Vec2i { x: b.vel.vel.x + tx, y: b.vel.vel.y + ty },
        ),
    )
}

/// View of the exec update buffer as the buffered-update sequence.
pub open spec fn ups_view(s: Seq<(usize, Vec2i)>) -> Seq<(int, Vec2i)> {
    s.map_values(|u: (usize, Vec2i)| (u.0 as int, u.1))
}

/// Resolve every collision of this tick in two phases; the result is
/// exactly [`spec_collisions`] of the pre-tick world.
pub fn ball_collisions(board_size: &BoardSize, balls: &mut Vec<BallState>)
    requires
        wf_board(*board_size),
        collision_in_range(old(balls)@),
    ensures
        final(balls)@ == spec_collisions(old(balls)@, board_size.ball_diameter as int),
        final(balls)@.len() == old(balls)@.len(),
{
    let diam = board_size.ball_diameter;
    let ghost gdiam = diam as int;
    let n: usize = balls.len();
    let mut ups: Vec<(usize, Vec2i)> = Vec::new();

    // phase 1: buffer the new velocities of every colliding pair
    let mut i: usize = 0;
    while i < n
        invariant
            n == balls@.len(),
            balls@ == old(balls)@,
            i <= n,
            collision_in_range(balls@),
            wf_board(*board_size),
            diam == board_size.ball_diameter,
            gdiam == diam as int,
            ups_view(ups@) == outer_upto(balls@, i as int, gdiam),
        decreases n - i,
    {
        let mut j: usize = i + 1;
        while j < n
            invariant
                n == balls@.len(),
                balls@ == old(balls)@,
                i < n,
                i + 1 <= j <= n,
                collision_in_range(balls@),
                wf_board(*board_size),
                diam == board_size.ball_diameter,
                gdiam == diam as int,
                ups_view(ups@) == outer_upto(balls@, i as int, gdiam) + inner_upto(
                    balls@,
                    i as int,
                    j as int,
                    gdiam,
                ),
            decreases n - j,
        {
            let a = balls[i];
            let b = balls[j];
            let ghost pre_ups = ups_view(ups@);
            match compute_pair(&a, &b, diam) {
                Some(p) => {
                    ups.push((i, p.0));
                    ups.push((j, p.1));
                    proof {
                        assert(ups_view(ups@) =~= pre_ups + seq![
                            (i as int, p.0),
                            (j as int, p.1),
                        ]);
                        assert(upd_pair(balls@, i as int, j as int, gdiam) =~= seq![
                            (i as int, p.0),
                            (j as int, p.1),
                        ]);
                        assert(ups_view(ups@) =~= outer_upto(balls@, i as int, gdiam)
                            + inner_upto(balls@, i as int, j + 1 as int, gdiam));
                    }
                },
                None => {
                    proof {
                        assert(upd_pair(balls@, i as int, j as int, gdiam) =~= Seq::<
                            (int, Vec2i),
                        >::empty());
                        assert(ups_view(ups@) =~= outer_upto(balls@, i as int, gdiam)
                            + inner_upto(balls@, i as int, j + 1 as int, gdiam));
                    }
                },
            }
            j = j + 1;
        }
        proof {
            assert(ups_view(ups@) =~= outer_upto(balls@, i + 1 as int, gdiam));
        }
        i = i + 1;
    }
    proof {
        assert(ups_view(ups@) == collision_updates(balls@, gdiam));
    }

    // phase 2: apply the buffered velocities
    let m: usize = ups.len();
    let mut k: usize = 0;
    while k < m
        invariant
            m == ups@.len(),
            k <= m,
            balls@ == apply_updates(old(balls)@, ups_view(ups@).take(k as int)),
            ups_view(ups@) == collision_updates(old(balls)@, gdiam),
        decreases m - k,
    {
        let (idx, v) = ups[k];
        proof {
            lemma_apply_updates_push(old(balls)@, ups_view(ups@).take(k as int), ups_view(ups@)[k as int]);
            assert(ups_view(ups@).take(k + 1 as int) =~= ups_view(ups@).take(k as int).push(
                ups_view(ups@)[k as int],
            ));
            lemma_apply_updates_len(old(balls)@, ups_view(ups@).take(k as int));
        }
        if idx < balls.len() {
            let b = balls[idx];
            balls.set(idx, BallState { ball: b.ball, pos: b.pos, vel: Velocity { vel: v } });
        }
        k = k + 1;
    }
    proof {
        assert(ups_view(ups@).take(m as int) =~= ups_view(ups@));
        lemma_apply_updates_len(old(balls)@, ups_view(ups@));
    }
}

} // verus!
