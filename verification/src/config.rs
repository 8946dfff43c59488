//! Tunable constants of the game, the per-tick input intents, and the global
//! coordinate limit under which all arithmetic of the core is proved safe.
//!
//! All lengths, positions and velocities are integers. One tick is the unit of
//! time: velocities are displacement per tick, the gravity field is the amount
//! by which a ball's vertical velocity drops per tick.

use vstd::prelude::*;

verus! {

/// Bound on every coordinate, velocity and length the core works with.
/// Keeping all state within `[-LIMIT, LIMIT]` leaves ample room in `i64`
/// for the few additions and doublings a tick performs.
pub const LIMIT: i64 = 0x10_0000_0000;

/// Whether a mathematical value lies within the global coordinate limit.
pub open spec fn fits(v: int) -> bool {
    -(LIMIT as int) <= v && v <= LIMIT as int
}

/// Cap on how many entities of one kind (balls, arrows, queued pop events)
/// the registry holds at once: enough identity space is then left for every
/// split a tick can queue.
pub const ENTITY_CAP: u64 = 0x10_0000;

/// Whether a value lies within four times the global limit: the headroom a
/// value produced in the middle of a tick (a moved position, a grown height)
/// is allowed before the next tick's entry check restores the base limit.
pub open spec fn headroom(v: int) -> bool {
    -4 * (LIMIT as int) <= v && v <= 4 * (LIMIT as int)
}

/// How many projectiles may be in flight at once.
///
/// Under `SingleInstance` exactly one projectile entity exists for the whole
/// run; it is parked off-screen and flagged destroyed while inactive, and
/// firing reuses it. Under `MultiInstance` each shot spawns an independent
/// projectile, removed for good when it leaves play.
#[derive(Clone, Copy, PartialEq, Eq, Structural, Debug)]
pub enum ProjectilePolicy {
    SingleInstance,
    MultiInstance,
}

/// The input intents the core consumes each tick: level-triggered movement
/// and an edge-triggered fire.
#[derive(Clone, Copy, PartialEq, Eq, Structural, Debug)]
pub struct Intents {
    pub move_left: bool,
    pub move_right: bool,
    pub fire_edge: bool,
}

/// The tunable constants of a run. All magnitudes are non-negative; only the
/// starting ball's horizontal velocity may carry a sign.
#[derive(Clone, Copy, PartialEq, Eq, Structural, Debug)]
pub struct Config {
    /// Per-tick drop of a ball's vertical velocity (downward acceleration).
    pub gravity: i64,
    /// Upward vertical velocity given to freshly split child balls.
    pub lift_velocity: i64,
    /// Magnitude of the horizontal velocity of freshly split child balls.
    pub split_speed: i64,
    /// Horizontal velocity of the ball spawned at game start.
    pub start_velocity: i64,
    /// Rank of the ball spawned at game start.
    pub start_rank: u8,
    /// Horizontal displacement of the player per tick of held movement.
    pub player_speed: i64,
    /// Half the player's collider width.
    pub player_half_width: i64,
    /// Half the player's collider height.
    pub player_half_height: i64,
    /// Width of a projectile's collider.
    pub arrow_width: i64,
    /// Horizontal offset of a projectile's spawn position from the player's.
    pub arrow_offset_x: i64,
    /// Height of a projectile's collider when fired.
    pub arrow_start_height: i64,
    /// Per-tick height increment of a growing projectile (single-instance).
    pub arrow_growth: i64,
    /// Per-tick upward displacement of a travelling projectile (multi-instance).
    pub arrow_speed: i64,
    /// Thickness of the floor, ceiling and wall slabs.
    pub wall_thickness: i64,
    /// Clearance kept from a boundary's center line: the boundary's half
    /// thickness, plus any slack.
    pub margin: i64,
    /// Width of the play area.
    pub window_width: i64,
    /// Height of the play area.
    pub window_height: i64,
    /// The projectile lifecycle policy of this run.
    pub policy: ProjectilePolicy,
}

impl Config {
    /// Every magnitude within the global limit and non-negative, and the
    /// starting rank inside the size table's domain.
    pub open spec fn wf(self) -> bool {
        &&& 0 <= self.gravity <= LIMIT
        &&& 0 <= self.lift_velocity <= LIMIT
        &&& 0 <= self.split_speed <= LIMIT
        &&& fits(self.start_velocity as int)
        &&& 1 <= self.start_rank <= 5
        &&& 0 <= self.player_speed <= LIMIT
        &&& 0 <= self.player_half_width <= LIMIT
        &&& 0 <= self.player_half_height <= LIMIT
        &&& 0 <= self.arrow_width <= LIMIT
        &&& fits(self.arrow_offset_x as int)
        &&& 0 <= self.arrow_start_height <= LIMIT
        &&& 0 <= self.arrow_growth <= LIMIT
        &&& 0 <= self.arrow_speed <= LIMIT
        &&& 0 <= self.wall_thickness <= LIMIT
        &&& 0 <= self.margin <= LIMIT
        &&& 0 <= self.window_width <= LIMIT
        &&& 0 <= self.window_height <= LIMIT
    }

    /// The sample configuration: a 1200 x 1000 play area with 40-unit-thick
    /// boundaries, the starting ball of rank 2 drifting right, and the
    /// single-instance projectile policy.
    pub fn sample() -> (c: Config)
        ensures
            c.wf(),
            c.gravity == 1,
            c.lift_velocity == 4,
            c.split_speed == 1,
            c.start_velocity == 1,
            c.start_rank == 2,
            c.player_speed == 5,
            c.player_half_width == 20,
            c.player_half_height == 20,
            c.arrow_width == 10,
            c.arrow_offset_x == 0,
            c.arrow_start_height == 30,
            c.arrow_growth == 9,
            c.arrow_speed == 8,
            c.wall_thickness == 40,
            c.margin == 20,
            c.window_width == 1200,
            c.window_height == 1000,
            c.policy == ProjectilePolicy::SingleInstance,
    {
        Config {
            gravity: 1,
            lift_velocity: 4,
            split_speed: 1,
            start_velocity: 1,
            start_rank: 2,
            player_speed: 5,
            player_half_width: 20,
            player_half_height: 20,
            arrow_width: 10,
            arrow_offset_x: 0,
            arrow_start_height: 30,
            arrow_growth: 9,
            arrow_speed: 8,
            wall_thickness: 40,
            margin: 20,
            window_width: 1200,
            window_height: 1000,
            policy: ProjectilePolicy::SingleInstance,
        }
    }
}

} // verus!
