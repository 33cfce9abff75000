//! Deterministic core of a peer-to-peer pool game built for rollback
//! netcode: input capture, turn arbitration, ball physics, two-phase
//! collision resolution and the per-tick simulation driver.
//!
//! Every quantity of the simulation is a fixed-point integer in
//! centi-units (one world unit is `SCALE` counts), so that a tick is a
//! pure function of its inputs and replaying it is bit-for-bit exact on
//! every peer.

use vstd::prelude::*;

pub mod collision;
pub mod fixed;
pub mod gameplay;
pub mod physics;
pub mod sim;
pub mod spawning;

verus! {

/// Number of fixed-point counts per world unit.
pub const SCALE: i64 = 100;

/// Velocities with both components strictly below this magnitude
/// (0.1 world units per tick) snap to rest.
pub const STOP_EPSILON: i64 = 10;

/// Numerator of the per-tick isotropic friction factor (0.97).
pub const DAMP_NUM: i64 = 97;

/// Denominator of the per-tick isotropic friction factor.
pub const DAMP_DEN: i64 = 100;

/// Shot power written into every non-null input record.
pub const SHOT_POWER: u8 = 5;

/// Largest encoded direction component: directions are scaled to +/-127
/// so that they fit an `i8` on the wire.
pub const DIR_MAX: i64 = 127;

/// Bound on positions and velocities accepted at a tick boundary; states
/// beyond it cannot be advanced without risking 64-bit overflow.
pub const COORD_LIMIT: i64 = 1_000_000_000_000;

/// Bound on the board geometry (width, height, ball diameter).
pub const GEOM_LIMIT: i64 = 1_000_000;

/// A two-dimensional fixed-point vector in centi-units.
#[derive(Clone, Copy, PartialEq, Eq, Structural, Debug)]
pub struct Vec2i {
    pub x: i64,
    pub y: i64,
}

impl Vec2i {
    /// The zero vector.
    pub fn zero() -> (r: Vec2i)
        ensures
            r == (Vec2i { x: 0, y: 0 }),
    {
        Vec2i { x: 0, y: 0 }
    }
}

/// Category of a ball; exactly one ball of a table is `White` (the cue
/// ball).
#[derive(Clone, Copy, PartialEq, Eq, Structural, Debug)]
pub enum BallColor {
    White,
    Black,
    Filled,
    Striped,
}

/// Identity of a ball: its category.
#[derive(Clone, Copy, PartialEq, Eq, Structural, Debug)]
pub struct Ball {
    pub color: BallColor,
}

/// Per-tick velocity of a ball.
#[derive(Clone, Copy, PartialEq, Eq, Structural, Debug)]
pub struct Velocity {
    pub vel: Vec2i,
}

impl Velocity {
    /// A velocity at rest.
    pub fn zero() -> (r: Velocity)
        ensures
            r == (Velocity { vel: Vec2i { x: 0, y: 0 } }),
    {
        Velocity { vel: Vec2i { x: 0, y: 0 } }
    }
}

/// One ball of the simulated world: identity, position and velocity.
#[derive(Clone, Copy, PartialEq, Eq, Structural, Debug)]
pub struct BallState {
    pub ball: Ball,
    pub pos: Vec2i,
    pub vel: Velocity,
}

/// Turn state: whether the table is settled and which player moves next.
#[derive(Clone, Copy, PartialEq, Eq, Structural, Debug)]
pub struct Playing {
    pub ready: bool,
    pub playing: usize,
}

/// Static board geometry in centi-units, fixed at match start.
#[derive(Clone, Copy, PartialEq, Eq, Structural, Debug)]
pub struct BoardSize {
    pub width: i64,
    pub height: i64,
    pub ball_diameter: i64,
}

/// The fixed-size input record exchanged between peers each tick:
/// a direction scaled to +/-127 and a power, 0 meaning no shot.
#[derive(Clone, Copy, PartialEq, Eq, Structural, Debug)]
pub struct CueInput {
    pub dir_x: i8,
    pub dir_y: i8,
    pub power: u8,
}

/// The aim direction currently under the pointer, if any; a unit vector
/// in fixed-point counts, recomputed every rendered frame.
#[derive(Clone, Copy, PartialEq, Eq, Structural, Debug)]
pub struct InputDirection {
    pub dir: Option<Vec2i>,
}

/// The vector lies within the tick-boundary coordinate bound.
pub open spec fn in_coord_range(v: Vec2i) -> bool {
    &&& -COORD_LIMIT <= v.x <= COORD_LIMIT
    &&& -COORD_LIMIT <= v.y <= COORD_LIMIT
}

/// A ball whose position and velocity both lie within the
/// tick-boundary bound.
pub open spec fn wf_ball(b: BallState) -> bool {
    in_coord_range(b.pos) && in_coord_range(b.vel.vel)
}

/// Every ball of the world lies within the tick-boundary bound.
pub open spec fn wf_world(balls: Seq<BallState>) -> bool {
    forall|i: int| 0 <= i < balls.len() ==> wf_ball(#[trigger] balls[i])
}

/// The board geometry is positive and bounded.
pub open spec fn wf_board(bs: BoardSize) -> bool {
    &&& 0 < bs.width <= GEOM_LIMIT
    &&& 0 < bs.height <= GEOM_LIMIT
    &&& 0 < bs.ball_diameter <= GEOM_LIMIT
}

/// The turn state names one of the two player slots.
pub open spec fn wf_playing(p: Playing) -> bool {
    p.playing < 2
}

/// The ball at index `i` is the white cue ball.
pub open spec fn white_at(balls: Seq<BallState>, i: int) -> bool {
    0 <= i < balls.len() && balls[i].ball.color == BallColor::White
}

/// Exactly one ball of the world is the white cue ball.
pub open spec fn one_white(balls: Seq<BallState>) -> bool {
    exists|i: int|
        #[trigger] white_at(balls, i) && forall|j: int| #[trigger] white_at(balls, j) ==> j == i
}

} // verus!
