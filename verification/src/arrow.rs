//! Projectiles ("arrows"): fired upward from the player on an edge-triggered
//! intent, they either grow in place until they reach the ceiling
//! (single-instance policy) or travel upward at constant speed until they
//! leave play (multi-instance policy), and are deactivated on any collision.
//!
//! Under the single-instance policy the one arrow entity is never removed:
//! while inactive it is parked off-screen with its destroyed flag set, and
//! firing resets it. Under the multi-instance policy arrows are spawned and
//! despawned freely; the destroyed flag marks one for removal at the end of
//! the phase that deactivated it.

use vstd::prelude::*;
use crate::config::{fits, headroom, Config, LIMIT};
use crate::sides_of_screen::Boundaries;

verus! {

/// A projectile's state: the center of its box collider, the collider's
/// height, and whether it has been deactivated.
#[derive(Clone, Copy, PartialEq, Eq, Structural, Debug)]
pub struct Arrow {
    pub x: i64,
    pub y: i64,
    pub height: i64,
    pub destroyed: bool,
}

/// The mathematical value of an arrow, over unbounded integers.
pub ghost struct ArrowModel {
    pub x: int,
    pub y: int,
    pub height: int,
    pub destroyed: bool,
}

impl View for Arrow {
    type V = ArrowModel;

    open spec fn view(&self) -> ArrowModel {
        ArrowModel {
            x: self.x as int,
            y: self.y as int,
            height: self.height as int,
            destroyed: self.destroyed,
        }
    }
}

impl ArrowModel {
    /// Position and height within the global coordinate limit.
    pub open spec fn fits(self) -> bool {
        &&& fits(self.x)
        &&& fits(self.y)
        &&& 0 <= self.height <= LIMIT
    }
}

/// A freshly fired arrow: at the player's horizontal position shifted by
/// the configured offset, one wall thickness above the floor line, at its
/// starting height, active.
pub open spec fn spec_fired(player_x: int, bounds: Boundaries, config: Config) -> ArrowModel {
    ArrowModel {
        x: player_x + config.arrow_offset_x,
        y: bounds.floor.y + config.wall_thickness,
        height: config.arrow_start_height as int,
        destroyed: false,
    }
}

/// Firing under the single-instance policy: a destroyed arrow is reset to a
/// fresh one at the player's position; firing while the arrow is still in
/// flight is a no-op.
pub open spec fn spec_fire_single(
    a: ArrowModel,
    player_x: int,
    bounds: Boundaries,
    config: Config,
) -> ArrowModel {
    if a.destroyed {
        spec_fired(player_x, bounds, config)
    } else {
        a
    }
}

/// One tick of growth (single-instance policy): an active arrow's collider
/// gains the configured height increment; a destroyed arrow stays parked.
pub open spec fn spec_grow(a: ArrowModel, config: Config) -> ArrowModel {
    if !a.destroyed {
        ArrowModel { height: a.height + config.arrow_growth, ..a }
    } else {
        a
    }
}

/// One tick of travel (multi-instance policy): the arrow moves upward by the
/// configured speed.
pub open spec fn spec_travel(a: ArrowModel, config: Config) -> ArrowModel {
    ArrowModel { y: a.y + config.arrow_speed, ..a }
}

/// A grown arrow's collider has reached the ceiling's clearance line
/// (single-instance policy).
pub open spec fn hits_ceiling_grown(a: ArrowModel, bounds: Boundaries, config: Config) -> bool {
    a.height >= bounds.ceiling.y - config.margin
}

/// Ceiling resolution under the single-instance policy: an active arrow that
/// has grown to the ceiling is deactivated and parked off-screen, two play
/// area widths to the right.
pub open spec fn spec_ceiling_single(a: ArrowModel, bounds: Boundaries, config: Config) -> ArrowModel {
    if !a.destroyed && hits_ceiling_grown(a, bounds, config) {
        ArrowModel { x: 2 * config.window_width, destroyed: true, ..a }
    } else {
        a
    }
}

/// A travelling arrow has left play (multi-instance policy): its center is
/// above the top despawn threshold, or its collider's top edge has reached
/// the ceiling's clearance line.
pub open spec fn leaves_play(a: ArrowModel, bounds: Boundaries, config: Config) -> bool {
    ||| a.y > config.window_height
    ||| a.y + a.height / 2 >= bounds.ceiling.y - config.margin
}

impl Arrow {
    /// The arrow spawned at game start under the single-instance policy:
    /// parked off-screen at the play area's top-right corner, destroyed, so
    /// that exactly one arrow entity exists from the first tick on.
    pub fn starting(config: &Config) -> (a: Arrow)
        requires
            config.wf(),
        ensures
            a@.fits(),
            a@.x == config.window_width,
            a@.y == config.window_height,
            a@.height == config.arrow_start_height,
            a@.destroyed,
    {
        Arrow {
            x: config.window_width,
            y: config.window_height,
            height: config.arrow_start_height,
            destroyed: true,
        }
    }

    /// A freshly fired arrow at the player's position.
    pub fn fired(player_x: i64, bounds: &Boundaries, config: &Config) -> (a: Arrow)
        requires
            -3 * (LIMIT as int) <= player_x <= 3 * (LIMIT as int),
            bounds.wf(),
            config.wf(),
        ensures
            a@ == spec_fired(player_x as int, *bounds, *config),
    {
        Arrow {
            x: player_x + config.arrow_offset_x,
            y: bounds.floor.y + config.wall_thickness,
            height: config.arrow_start_height,
            destroyed: false,
        }
    }

    /// Fire under the single-instance policy: reset this arrow if it is
    /// destroyed, otherwise leave it untouched.
    pub fn fire_single(&mut self, player_x: i64, bounds: &Boundaries, config: &Config)
        requires
            -3 * (LIMIT as int) <= player_x <= 3 * (LIMIT as int),
            bounds.wf(),
            config.wf(),
        ensures
            final(self)@ == spec_fire_single(old(self)@, player_x as int, *bounds, *config),
    {
        if self.destroyed {
            self.x = player_x + config.arrow_offset_x;
            self.y = bounds.floor.y + config.wall_thickness;
            self.height = config.arrow_start_height;
            self.destroyed = false;
        }
    }

    /// One tick of growth (single-instance policy).
    pub fn grow(&mut self, config: &Config)
        requires
            0 <= old(self)@.height <= 2 * (LIMIT as int),
            config.wf(),
        ensures
            final(self)@ == spec_grow(old(self)@, *config),
    {
        if !self.destroyed {
            self.height = self.height + config.arrow_growth;
        }
    }

    /// One tick of travel (multi-instance policy).
    pub fn travel(&mut self, config: &Config)
        requires
            headroom(old(self)@.y),
            config.wf(),
        ensures
            final(self)@ == spec_travel(old(self)@, *config),
    {
        self.y = self.y + config.arrow_speed;
    }

    /// Resolve this arrow against the ceiling (single-instance policy).
    pub fn resolve_ceiling(&mut self, bounds: &Boundaries, config: &Config)
        requires
            bounds.wf(),
            config.wf(),
        ensures
            final(self)@ == spec_ceiling_single(old(self)@, *bounds, *config),
    {
        if !self.destroyed && self.height >= bounds.ceiling.y - config.margin {
            self.destroyed = true;
            self.x = 2 * config.window_width;
        }
    }

    /// Whether this travelling arrow has left play (multi-instance policy).
    pub fn is_off_screen(&self, bounds: &Boundaries, config: &Config) -> (r: bool)
        requires
            headroom(self@.y),
            0 <= self@.height <= 4 * (LIMIT as int),
            bounds.wf(),
            config.wf(),
        ensures
            r == leaves_play(self@, *bounds, *config),
    {
        self.y > config.window_height || self.y + self.height / 2 >= bounds.ceiling.y - config.margin
    }
}

} // verus!
