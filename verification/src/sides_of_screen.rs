//! The static boundary geometry: floor, ceiling and the two walls. Built once
//! from the play area's dimensions at startup and never mutated afterwards;
//! every bounce and clamp reads these positions.
//!
//! The origin sits at the center of the play area, as does each boundary's
//! own reference point: a boundary's position names the center line of its
//! slab, and collision rules keep a `margin` clearance from it (the slab's
//! half thickness plus any slack).

use vstd::prelude::*;
use crate::config::{fits, Config};

verus! {

/// The floor slab's center.
#[derive(Clone, Copy, PartialEq, Eq, Structural, Debug)]
pub struct Floor {
    pub x: i64,
    pub y: i64,
}

/// The ceiling slab's center.
#[derive(Clone, Copy, PartialEq, Eq, Structural, Debug)]
pub struct Ceiling {
    pub x: i64,
    pub y: i64,
}

/// The left wall slab's center.
#[derive(Clone, Copy, PartialEq, Eq, Structural, Debug)]
pub struct LeftWall {
    pub x: i64,
    pub y: i64,
}

/// The right wall slab's center.
#[derive(Clone, Copy, PartialEq, Eq, Structural, Debug)]
pub struct RightWall {
    pub x: i64,
    pub y: i64,
}

/// The four boundaries of the play area.
#[derive(Clone, Copy, PartialEq, Eq, Structural, Debug)]
pub struct Boundaries {
    pub floor: Floor,
    pub ceiling: Ceiling,
    pub left_wall: LeftWall,
    pub right_wall: RightWall,
}

impl Boundaries {
    /// Every coordinate within the global limit, the ceiling above the floor
    /// and the right wall right of the left wall.
    pub open spec fn wf(self) -> bool {
        &&& fits(self.floor.x as int) && fits(self.floor.y as int)
        &&& fits(self.ceiling.x as int) && fits(self.ceiling.y as int)
        &&& fits(self.left_wall.x as int) && fits(self.left_wall.y as int)
        &&& fits(self.right_wall.x as int) && fits(self.right_wall.y as int)
        &&& self.floor.y <= self.ceiling.y
        &&& self.left_wall.x <= self.right_wall.x
    }

    /// Build the boundaries of a centered play area: the ceiling along the
    /// top edge, the floor along the bottom edge, and a wall along each side.
    pub fn from_config(config: &Config) -> (b: Boundaries)
        requires
            config.wf(),
        ensures
            b.wf(),
            b.floor.x == 0 && b.floor.y == -(config.window_height as int / 2),
            b.ceiling.x == 0 && b.ceiling.y == config.window_height as int / 2,
            b.left_wall.x == -(config.window_width as int / 2) && b.left_wall.y == 0,
            b.right_wall.x == config.window_width as int / 2 && b.right_wall.y == 0,
    {
        let half_w = config.window_width / 2;
        let half_h = config.window_height / 2;
        Boundaries {
            floor: Floor { x: 0, y: -half_h },
            ceiling: Ceiling { x: 0, y: half_h },
            left_wall: LeftWall { x: -half_w, y: 0 },
            right_wall: RightWall { x: half_w, y: 0 },
        }
    }
}

} // verus!
