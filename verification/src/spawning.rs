//! Table setup: the initial ball layout of a match, and the address of
//! the relay room peers meet in. Sprites, camera and the user interface
//! around the table are presentation and live outside the verified
//! core.

use vstd::prelude::*;
use crate::{Ball, BallColor, BallState, Vec2i, Velocity, one_white, wf_world, white_at};

verus! {

/// A ball at rest of the given color and position.
pub open spec fn spec_resting_ball(color: BallColor, x: int, y: int) -> BallState {
    BallState {
        ball: Ball { color },
        pos: Vec2i { x: x as i64, y: y as i64 },
        vel: Velocity { vel: Vec2i { x: 0, y: 0 } },
    }
}

/// The initial layout: the white cue ball at the origin and eight
/// filled balls in a cross around it, all at rest.
pub open spec fn spec_initial_balls() -> Seq<BallState> {
    seq![
        spec_resting_ball(BallColor::White, 0, 0),
        spec_resting_ball(BallColor::Filled, -2000, 0),
        spec_resting_ball(BallColor::Filled, -1000, 0),
        spec_resting_ball(BallColor::Filled, 1000, 0),
        spec_resting_ball(BallColor::Filled, 0, 2000),
        spec_resting_ball(BallColor::Filled, 0, 1000),
        spec_resting_ball(BallColor::Filled, 0, -1000),
        spec_resting_ball(BallColor::Filled, 0, -2000),
        spec_resting_ball(BallColor::Filled, 1000, 1000),
    ]
}

/// Build the initial ball set of a match: exactly one white cue ball,
/// every ball at rest and within the coordinate bound, as a match setup
/// collaborator must deliver before the first tick.
pub fn setup_table() -> (r: Vec<BallState>)
    ensures
        r@ == spec_initial_balls(),
        one_white(r@),
        wf_world(r@),
{
    let mut balls: Vec<BallState> = Vec::new();
    balls.push(
        BallState {
            ball: Ball { color: BallColor::White },
            pos: Vec2i { x: 0, y: 0 },
            vel: Velocity { vel: Vec2i { x: 0, y: 0 } },
        },
    );
    let positions: [(i64, i64); 8] = [
        (-2000, 0),
        (-1000, 0),
        (1000, 0),
        (0, 2000),
        (0, 1000),
        (0, -1000),
        (0, -2000),
        (1000, 1000),
    ];
    let mut i: usize = 0;
    while i < 8
        invariant
            i <= 8,
            balls@.len() == i + 1,
            positions@ =~= seq![
                (-2000i64, 0i64),
                (-1000i64, 0i64),
                (1000i64, 0i64),
                (0i64, 2000i64),
                (0i64, 1000i64),
                (0i64, -1000i64),
                (0i64, -2000i64),
                (1000i64, 1000i64),
            ],
            balls@ =~= spec_initial_balls().take(i + 1),
        decreases 8 - i,
    {
        let (x, y) = positions[i];
        balls.push(
            BallState {
                ball: Ball { color: BallColor::Filled },
                pos: Vec2i { x, y },
                vel: Velocity { vel: Vec2i { x: 0, y: 0 } },
            },
        );
        i = i + 1;
    }
    proof {
        assert(balls@ =~= spec_initial_balls());
        assert(white_at(balls@, 0));
        assert forall|j: int| #[trigger] white_at(balls@, j) implies j == 0 by {
        }
    }
    balls
}

/// Address of the relay room used for matchmaking; opening the socket
/// and joining the room are the shell's work.
pub fn connect() -> (r: &'static str)
    ensures
        r@ == "ws://127.0.0.1:3536/pool?next=2"@,
{
    "ws://127.0.0.1:3536/pool?next=2"
}

/// Number of players a match is played by.
pub const NUM_PLAYERS: usize = 2;

/// Whether enough peers have joined the room for the match to start.
/// Polling the socket for peers and building the peer-to-peer session
/// are transport I/O owned by the shell; the core only decides when to
/// stop waiting.
pub fn wait_for_players(player_count: usize) -> (r: bool)
    ensures
        r == (player_count >= NUM_PLAYERS),
{
    player_count >= NUM_PLAYERS
}

} // verus!
