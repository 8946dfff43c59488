//! Balls: their per-tick motion under gravity, the size-aware boundary bounce
//! rules, and the shape of the children a popped ball splits into.
//!
//! A ball's collider is a square whose side is always looked up from its rank
//! in the size table — never set independently. The bounce policy here is the
//! size-indexed one: floor contact assigns the rank's fixed launch velocity
//! rather than reflecting the incoming velocity.

use vstd::prelude::*;
use crate::config::{fits, Config, LIMIT};
use crate::sides_of_screen::Boundaries;
use crate::size_table::SizeTable;

verus! {

/// A ball's state: position, velocity, square side length, and size rank
/// (1 smallest and terminal, 5 largest).
#[derive(Clone, Copy, PartialEq, Eq, Structural, Debug)]
pub struct Ball {
    pub x: i64,
    pub y: i64,
    pub x_velocity: i64,
    pub y_velocity: i64,
    pub side: i64,
    pub size: u8,
}

/// The mathematical value of a ball, over unbounded integers.
pub ghost struct BallModel {
    pub x: int,
    pub y: int,
    pub x_velocity: int,
    pub y_velocity: int,
    pub side: int,
    pub size: int,
}

impl View for Ball {
    type V = BallModel;

    open spec fn view(&self) -> BallModel {
        BallModel {
            x: self.x as int,
            y: self.y as int,
            x_velocity: self.x_velocity as int,
            y_velocity: self.y_velocity as int,
            side: self.side as int,
            size: self.size as int,
        }
    }
}

impl BallModel {
    /// The rank lies in the table's domain and the side is the rank's
    /// diameter.
    pub open spec fn wf(self, table: SizeTable) -> bool {
        &&& 1 <= self.size <= 5
        &&& self.side == table.spec_diameter(self.size)
    }

    /// Position and velocity within the global coordinate limit.
    pub open spec fn fits(self) -> bool {
        &&& fits(self.x)
        &&& fits(self.y)
        &&& fits(self.x_velocity)
        &&& fits(self.y_velocity)
    }
}

/// One tick of semi-implicit Euler integration: gravity lowers the vertical
/// velocity first, then the updated velocity advances the position. The
/// horizontal velocity is untouched by gravity.
pub open spec fn spec_integrate(b: BallModel, gravity: int) -> BallModel {
    BallModel {
        x: b.x + b.x_velocity,
        y: b.y + b.y_velocity - gravity,
        x_velocity: b.x_velocity,
        y_velocity: b.y_velocity - gravity,
        side: b.side,
        size: b.size,
    }
}

/// The ball's bottom edge has reached the floor's clearance line.
pub open spec fn touches_floor(b: BallModel, bounds: Boundaries, margin: int) -> bool {
    b.y - b.side / 2 <= bounds.floor.y + margin
}

/// The ball's right edge has reached the right wall's clearance line.
pub open spec fn touches_right_wall(b: BallModel, bounds: Boundaries, margin: int) -> bool {
    b.x + b.side / 2 >= bounds.right_wall.x - margin
}

/// The ball's left edge has reached the left wall's clearance line.
pub open spec fn touches_left_wall(b: BallModel, bounds: Boundaries, margin: int) -> bool {
    b.x - b.side / 2 <= bounds.left_wall.x + margin
}

/// One tick of boundary resolution. Floor contact assigns the rank's fixed
/// launch velocity, whatever the incoming vertical velocity was. Contact with
/// exactly one wall negates the horizontal velocity; the two wall rules are
/// both evaluated, so a ball that somehow touched both walls would keep its
/// horizontal velocity. Position is never moved by the resolver.
pub open spec fn spec_bounce(
    b: BallModel,
    bounds: Boundaries,
    table: SizeTable,
    margin: int,
) -> BallModel {
    BallModel {
        x: b.x,
        y: b.y,
        x_velocity: if touches_right_wall(b, bounds, margin)
            != touches_left_wall(b, bounds, margin) {
            -b.x_velocity
        } else {
            b.x_velocity
        },
        y_velocity: if touches_floor(b, bounds, margin) {
            table.spec_bounce(b.size)
        } else {
            b.y_velocity
        },
        side: b.side,
        size: b.size,
    }
}

/// The child a popped parent splits into: same position, one rank smaller,
/// the configured upward lift, and the configured horizontal speed — to the
/// left when `to_left` is set, to the right otherwise.
pub open spec fn spec_child(
    parent: BallModel,
    table: SizeTable,
    config: Config,
    to_left: bool,
) -> BallModel {
    BallModel {
        x: parent.x,
        y: parent.y,
        x_velocity: if to_left {
            -config.split_speed as int
        } else {
            config.split_speed as int
        },
        y_velocity: config.lift_velocity as int,
        side: table.spec_diameter(parent.size - 1),
        size: parent.size - 1,
    }
}

impl Ball {
    /// The ball spawned at game start: the configured rank, centered at the
    /// origin, drifting at the configured horizontal velocity.
    pub fn starting(table: &SizeTable, config: &Config) -> (b: Ball)
        requires
            table.wf(),
            config.wf(),
        ensures
            b@.wf(*table),
            b@.fits(),
            b@.x == 0 && b@.y == 0,
            b@.x_velocity == config.start_velocity,
            b@.y_velocity == 0,
            b@.size == config.start_rank,
    {
        let side = table.diameter(config.start_rank);
        Ball {
            x: 0,
            y: 0,
            x_velocity: config.start_velocity,
            y_velocity: 0,
            side,
            size: config.start_rank,
        }
    }

    /// Advance this ball by one tick of gravity integration.
    pub fn integrate(&mut self, gravity: i64)
        requires
            old(self)@.fits(),
            0 <= gravity <= LIMIT,
        ensures
            final(self)@ == spec_integrate(old(self)@, gravity as int),
    {
        self.y_velocity = self.y_velocity - gravity;
        self.y = self.y + self.y_velocity;
        self.x = self.x + self.x_velocity;
    }

    /// Resolve this ball against the floor and both walls. All three checks
    /// run every tick — none is skipped because an earlier one fired.
    pub fn bounce(&mut self, bounds: &Boundaries, table: &SizeTable, margin: i64)
        requires
            old(self)@.wf(*table),
            old(self)@.fits(),
            table.wf(),
            bounds.wf(),
            0 <= margin <= LIMIT,
        ensures
            final(self)@ == spec_bounce(old(self)@, *bounds, *table, margin as int),
    {
        proof {
            assert(0 <= table.spec_diameter(old(self)@.size) <= LIMIT);
        }
        let half = self.side / 2;
        let on_floor = self.y - half <= bounds.floor.y + margin;
        let on_right = self.x + half >= bounds.right_wall.x - margin;
        let on_left = self.x - half <= bounds.left_wall.x + margin;

        if on_floor {
            self.y_velocity = table.bounce_impulse(self.size);
        }

        if on_right {
            self.x_velocity = -self.x_velocity;
        }

        if on_left {
            self.x_velocity = -self.x_velocity;
        }
    }

    /// Build one child of a popped parent ball.
    pub fn child_of(parent: &Ball, table: &SizeTable, config: &Config, to_left: bool) -> (c: Ball)
        requires
            parent@.wf(*table),
            parent@.fits(),
            parent@.size >= 2,
            table.wf(),
            config.wf(),
        ensures
            c@ == spec_child(parent@, *table, *config, to_left),
            c@.wf(*table),
            c@.fits(),
    {
        let rank = parent.size - 1;
        Ball {
            x: parent.x,
            y: parent.y,
            x_velocity: if to_left { -config.split_speed } else { config.split_speed },
            y_velocity: config.lift_velocity,
            side: table.diameter(rank),
            size: rank,
        }
    }
}

/// A split strictly shrinks the rank, and rank 1 is an absorbing floor: every
/// child of a splittable parent has a rank one below its parent's, still
/// inside the table's domain — so no chain of splits runs forever, and a
/// rank-1 ball is never a parent.
pub proof fn lemma_split_shrinks_rank(
    parent: BallModel,
    table: SizeTable,
    config: Config,
    to_left: bool,
)
    requires
        parent.wf(table),
        parent.size >= 2,
    ensures
        spec_child(parent, table, config, to_left).size == parent.size - 1,
        spec_child(parent, table, config, to_left).size < parent.size,
        1 <= spec_child(parent, table, config, to_left).size <= 4,
        spec_child(parent, table, config, to_left).wf(table),
{
}

/// Floor contact is an idempotent impulse, not a reflection: a ball touching
/// the floor's clearance line leaves the resolver with exactly the launch
/// velocity of its rank, whatever its incoming vertical velocity was.
pub proof fn lemma_floor_bounce_is_impulse(
    b: BallModel,
    vy: int,
    bounds: Boundaries,
    table: SizeTable,
    margin: int,
)
    requires
        touches_floor(b, bounds, margin),
    ensures
        spec_bounce(b, bounds, table, margin).y_velocity == table.spec_bounce(b.size),
        spec_bounce(
            BallModel { y_velocity: vy, ..b },
            bounds,
            table,
            margin,
        ).y_velocity == table.spec_bounce(b.size),
{
}

/// Wall resolution is exclusive and does not oscillate: wherever the play
/// area is wider than the ball plus both clearances, a ball touching the
/// right wall is not touching the left wall (and symmetrically), and its
/// horizontal velocity is negated exactly once.
pub proof fn lemma_wall_bounce_exclusive(
    b: BallModel,
    bounds: Boundaries,
    table: SizeTable,
    margin: int,
)
    requires
        bounds.right_wall.x - bounds.left_wall.x > 2 * margin + b.side,
    ensures
        !(touches_right_wall(b, bounds, margin) && touches_left_wall(b, bounds, margin)),
        touches_right_wall(b, bounds, margin)
            ==> spec_bounce(b, bounds, table, margin).x_velocity == -b.x_velocity,
        touches_left_wall(b, bounds, margin)
            ==> spec_bounce(b, bounds, table, margin).x_velocity == -b.x_velocity,
        spec_bounce(b, bounds, table, margin).x == b.x,
{
    assert(b.side / 2 + b.side / 2 <= b.side);
}

} // verus!

verus! {

/// One whole tick of a lone ball's physics: boundary resolution first, then
/// gravity integration, as the world's tick orders them.
pub open spec fn spec_ball_tick(
    b: BallModel,
    bounds: Boundaries,
    table: SizeTable,
    margin: int,
    gravity: int,
) -> BallModel {
    spec_integrate(spec_bounce(b, bounds, table, margin), gravity)
}

/// The ball's state after `n` such ticks.
pub open spec fn spec_ball_after(
    b: BallModel,
    bounds: Boundaries,
    table: SizeTable,
    margin: int,
    gravity: int,
    n: nat,
) -> BallModel
    decreases n,
{
    if n == 0 {
        b
    } else {
        spec_ball_tick(
            spec_ball_after(b, bounds, table, margin, gravity, (n - 1) as nat),
            bounds,
            table,
            margin,
            gravity,
        )
    }
}

/// The free-fall law: as long as a ball touches no boundary, its vertical
/// velocity after `n` ticks under gravity `g` is exactly `n * g` below where
/// it started, its horizontal velocity never changes, its position drifts
/// linearly, and its size stays put. Floor contact then snaps the vertical
/// velocity to the rank's impulse, whatever the fall had made of it.
pub proof fn lemma_free_fall(
    b: BallModel,
    bounds: Boundaries,
    table: SizeTable,
    margin: int,
    gravity: int,
    n: nat,
)
    requires
        forall|k: nat|
            #![trigger spec_ball_after(b, bounds, table, margin, gravity, k)]
            k < n ==> {
                let s = spec_ball_after(b, bounds, table, margin, gravity, k);
                &&& !touches_floor(s, bounds, margin)
                &&& !touches_right_wall(s, bounds, margin)
                &&& !touches_left_wall(s, bounds, margin)
            },
    ensures
        spec_ball_after(b, bounds, table, margin, gravity, n).y_velocity == b.y_velocity - n
            * gravity,
        spec_ball_after(b, bounds, table, margin, gravity, n).x_velocity == b.x_velocity,
        spec_ball_after(b, bounds, table, margin, gravity, n).x == b.x + n * b.x_velocity,
        spec_ball_after(b, bounds, table, margin, gravity, n).side == b.side,
        spec_ball_after(b, bounds, table, margin, gravity, n).size == b.size,
    decreases n,
{
    if n > 0 {
        let m = (n - 1) as nat;
        lemma_free_fall(b, bounds, table, margin, gravity, m);
        let s = spec_ball_after(b, bounds, table, margin, gravity, m);
        assert(spec_bounce(s, bounds, table, margin) == s);
        assert(n * gravity == m * gravity + gravity) by (nonlinear_arith)
            requires
                n == m + 1,
        ;
        assert(n * b.x_velocity == m * b.x_velocity + b.x_velocity) by (nonlinear_arith)
            requires
                n == m + 1,
        ;
    } else {
        assert(n * gravity == 0) by (nonlinear_arith)
            requires
                n == 0,
        ;
        assert(n * b.x_velocity == 0) by (nonlinear_arith)
            requires
                n == 0,
        ;
    }
}

} // verus!
