//! The player: horizontal movement from the per-tick intents, and the wall
//! clamp — a positional constraint, not a bounce, so the player's speed never
//! changes on wall contact.

use vstd::prelude::*;
use crate::config::{fits, headroom, Config, LIMIT};
use crate::sides_of_screen::Boundaries;

verus! {

/// The player's state: position of the collider's center and the per-tick
/// movement speed. The collider's extents come from the configuration.
#[derive(Clone, Copy, PartialEq, Eq, Structural, Debug)]
pub struct Player {
    pub x: i64,
    pub y: i64,
    pub speed: i64,
}

/// The mathematical value of a player, over unbounded integers.
pub ghost struct PlayerModel {
    pub x: int,
    pub y: int,
    pub speed: int,
}

impl View for Player {
    type V = PlayerModel;

    open spec fn view(&self) -> PlayerModel {
        PlayerModel {
            x: self.x as int,
            y: self.y as int,
            speed: self.speed as int,
        }
    }
}

impl PlayerModel {
    /// Position and speed within the global coordinate limit.
    pub open spec fn fits(self) -> bool {
        &&& fits(self.x)
        &&& fits(self.y)
        &&& 0 <= self.speed <= LIMIT
    }
}

/// The displacement a pair of level-triggered intents resolves to: one speed
/// to the right, one speed to the left, and nothing when both or neither are
/// held — left and right cancel out.
pub open spec fn spec_move_delta(move_left: bool, move_right: bool, speed: int) -> int {
    if move_right && !move_left {
        speed
    } else if move_left && !move_right {
        -speed
    } else {
        0
    }
}

/// One tick of player movement: the position advances by the intents'
/// displacement at the player's speed; nothing else changes.
pub open spec fn spec_move_player(p: PlayerModel, move_left: bool, move_right: bool) -> PlayerModel {
    PlayerModel {
        x: p.x + spec_move_delta(move_left, move_right, p.speed),
        y: p.y,
        speed: p.speed,
    }
}

/// The largest center position at which the player's right edge still clears
/// the right wall's margin line.
pub open spec fn right_limit(bounds: Boundaries, config: Config) -> int {
    bounds.right_wall.x - config.margin - config.player_half_width
}

/// The smallest center position at which the player's left edge still clears
/// the left wall's margin line.
pub open spec fn left_limit(bounds: Boundaries, config: Config) -> int {
    bounds.left_wall.x + config.margin + config.player_half_width
}

/// The wall clamp: a player past the right wall's inner face is set just
/// inside it, then symmetrically for the left wall. Applied after movement
/// every tick; the left rule runs second, so on a play area too narrow for
/// the player the left wall would win.
pub open spec fn spec_clamp_player(p: PlayerModel, bounds: Boundaries, config: Config) -> PlayerModel {
    let after_right = if p.x + config.player_half_width >= bounds.right_wall.x - config.margin {
        PlayerModel { x: right_limit(bounds, config), ..p }
    } else {
        p
    };
    if after_right.x - config.player_half_width <= bounds.left_wall.x + config.margin {
        PlayerModel { x: left_limit(bounds, config), ..after_right }
    } else {
        after_right
    }
}

impl Player {
    /// The player spawned at game start: centered horizontally, one wall
    /// thickness above the floor line, at the configured speed.
    pub fn starting(bounds: &Boundaries, config: &Config) -> (p: Player)
        requires
            bounds.wf(),
            config.wf(),
            fits(bounds.floor.y + config.wall_thickness),
        ensures
            p@.fits(),
            p@.x == 0,
            p@.y == bounds.floor.y + config.wall_thickness,
            p@.speed == config.player_speed,
    {
        Player {
            x: 0,
            y: bounds.floor.y + config.wall_thickness,
            speed: config.player_speed,
        }
    }

    /// Advance the player by one tick of movement intents.
    pub fn step(&mut self, move_left: bool, move_right: bool)
        requires
            old(self)@.fits(),
        ensures
            final(self)@ == spec_move_player(old(self)@, move_left, move_right),
    {
        let delta: i64 = if move_right && !move_left {
            self.speed
        } else if move_left && !move_right {
            -self.speed
        } else {
            0
        };
        self.x = self.x + delta;
    }

    /// Clamp the player inside the walls.
    pub fn clamp_to_walls(&mut self, bounds: &Boundaries, config: &Config)
        requires
            headroom(old(self)@.x),
            bounds.wf(),
            config.wf(),
        ensures
            final(self)@ == spec_clamp_player(old(self)@, *bounds, *config),
    {
        if self.x + config.player_half_width >= bounds.right_wall.x - config.margin {
            self.x = bounds.right_wall.x - config.margin - config.player_half_width;
        }
        if self.x - config.player_half_width <= bounds.left_wall.x + config.margin {
            self.x = bounds.left_wall.x + config.margin + config.player_half_width;
        }
    }
}

/// The clamp confines the player: wherever the play area is wide enough to
/// hold the player between the two margin lines, the clamped position lies
/// between the left and right limits, whatever position movement produced.
/// Since the clamp runs every tick after movement, no sequence of move
/// intents ever leaves the player outside these bounds at a tick's end.
pub proof fn lemma_clamp_confines(p: PlayerModel, bounds: Boundaries, config: Config)
    requires
        left_limit(bounds, config) <= right_limit(bounds, config),
    ensures
        left_limit(bounds, config) <= spec_clamp_player(p, bounds, config).x,
        spec_clamp_player(p, bounds, config).x <= right_limit(bounds, config),
        spec_clamp_player(p, bounds, config).y == p.y,
        spec_clamp_player(p, bounds, config).speed == p.speed,
{
}

} // verus!
