//! The world: the single registry that owns every dynamic entity, keyed by
//! stable identity, together with the per-tick pipeline that drives the game.
//!
//! Each tick runs a fixed sequence of phases: player movement and wall clamp,
//! projectile firing, projectile advance and despawn, collision detection,
//! the split consumer draining the pop queue, boundary bounce resolution, and
//! gravity integration. Detection never mutates the ball population directly:
//! it only enqueues pop events, which the consumer drains later in the same
//! tick, so detection always sees the entity set as of tick start and the
//! split's effects are visible from the start of the next tick.

use vstd::prelude::*;
use crate::arrow::{Arrow, ArrowModel};
use crate::ball::{spec_bounce, spec_child, spec_integrate, Ball, BallModel};
use crate::config::{fits, headroom, Config, Intents, ProjectilePolicy, ENTITY_CAP, LIMIT};
use crate::player::{Player, PlayerModel};
use crate::sides_of_screen::Boundaries;
use crate::size_table::SizeTable;

verus! {

/// A ball together with the identity the registry knows it by.
#[derive(Clone, Copy, PartialEq, Eq, Structural, Debug)]
pub struct BallEntity {
    pub id: u64,
    pub ball: Ball,
}

/// The mathematical value of a registered ball.
pub ghost struct BallEntityModel {
    pub id: int,
    pub ball: BallModel,
}

impl View for BallEntity {
    type V = BallEntityModel;

    open spec fn view(&self) -> BallEntityModel {
        BallEntityModel { id: self.id as int, ball: self.ball@ }
    }
}

/// A deferred instruction to split or remove the ball with the carried
/// identity, queued by collision detection and consumed once per tick.
#[derive(Clone, Copy, PartialEq, Eq, Structural, Debug)]
pub struct PopBallEvent(pub u64);

/// The dynamic state of a run, over unbounded integers: the player (absent
/// once a ball has hit it — the terminal state of the run), the balls and
/// arrows, the queued pop events, and the next free ball identity.
pub ghost struct WorldModel {
    pub player: Option<PlayerModel>,
    pub balls: Seq<BallEntityModel>,
    pub arrows: Seq<ArrowModel>,
    pub pops: Seq<int>,
    pub next_ball_id: int,
}

/// The world: static configuration, geometry and size table, plus the
/// dynamic entity registry.
pub struct World {
    pub config: Config,
    pub table: SizeTable,
    pub bounds: Boundaries,
    pub player: Option<Player>,
    pub balls: Vec<BallEntity>,
    pub arrows: Vec<Arrow>,
    pub pop_queue: Vec<PopBallEvent>,
    pub next_ball_id: u64,
}

impl View for World {
    type V = WorldModel;

    open spec fn view(&self) -> WorldModel {
        WorldModel {
            player: match self.player {
                Option::Some(p) => Option::Some(p@),
                Option::None => Option::None,
            },
            balls: self.balls@.map_values(|e: BallEntity| e@),
            arrows: self.arrows@.map_values(|a: Arrow| a@),
            pops: self.pop_queue@.map_values(|p: PopBallEvent| p.0 as int),
            next_ball_id: self.next_ball_id as int,
        }
    }
}

/// Every ball's rank is in the table's domain with the matching side length.
pub open spec fn balls_seq_wf(balls: Seq<BallEntityModel>, table: SizeTable) -> bool {
    forall|i: int| 0 <= i < balls.len() ==> (#[trigger] balls[i]).ball.wf(table)
}

/// Every ball's position and velocity within the global coordinate limit.
pub open spec fn balls_seq_fits(balls: Seq<BallEntityModel>) -> bool {
    forall|i: int| 0 <= i < balls.len() ==> (#[trigger] balls[i]).ball.fits()
}

/// Ball identities pairwise distinct and all below the next free one.
pub open spec fn ids_seq_ok(balls: Seq<BallEntityModel>, next_ball_id: int) -> bool {
    &&& forall|i: int| 0 <= i < balls.len() ==> 0 <= (#[trigger] balls[i]).id < next_ball_id
    &&& forall|i: int, j: int|
        0 <= i < j < balls.len() ==> (#[trigger] balls[i]).id != (#[trigger] balls[j]).id
}

impl WorldModel {
    /// Every ball's rank is in the table's domain with the matching side
    /// length.
    pub open spec fn balls_wf(self, table: SizeTable) -> bool {
        balls_seq_wf(self.balls, table)
    }

    /// Ball identities are pairwise distinct and all below the next free one.
    pub open spec fn ids_ok(self) -> bool {
        ids_seq_ok(self.balls, self.next_ball_id)
    }

    /// Under the single-instance policy exactly one arrow entity exists.
    pub open spec fn policy_ok(self, config: Config) -> bool {
        config.policy == ProjectilePolicy::SingleInstance ==> self.arrows.len() == 1
    }

    /// The structural invariant of a world: well-formed balls, sound
    /// identities, and the arrow count the policy prescribes.
    pub open spec fn wf(self, table: SizeTable, config: Config) -> bool {
        &&& self.balls_wf(table)
        &&& self.ids_ok()
        &&& self.policy_ok(config)
    }

    /// Every dynamic value within the global coordinate limit, and enough
    /// identity space and queue room for a tick's worth of splits.
    pub open spec fn fits(self) -> bool {
        &&& match self.player {
            Option::Some(p) => p.fits(),
            Option::None => true,
        }
        &&& balls_seq_fits(self.balls)
        &&& forall|i: int| 0 <= i < self.arrows.len() ==> (#[trigger] self.arrows[i]).fits()
        &&& 0 <= self.next_ball_id <= LIMIT
        &&& self.pops.len() <= ENTITY_CAP
        &&& self.balls.len() <= ENTITY_CAP
        &&& self.arrows.len() <= ENTITY_CAP
    }
}

impl World {
    /// The static data is well-formed and the dynamic state satisfies the
    /// structural invariant.
    pub open spec fn wf(self) -> bool {
        &&& self.config.wf()
        &&& self.table.wf()
        &&& self.bounds.wf()
        &&& self@.wf(self.table, self.config)
    }

    /// Start a run: boundaries derived from the play area, the player
    /// centered above the floor, one starting ball at the origin, and — under
    /// the single-instance policy — the one parked arrow.
    pub fn new_game(config: Config, table: SizeTable) -> (w: World)
        requires
            config.wf(),
            table.wf(),
        ensures
            w.wf(),
            w@.fits(),
            w.config == config,
            w.table == table,
            w.bounds.floor.x == 0 && w.bounds.floor.y == -(config.window_height as int / 2),
            w.bounds.ceiling.x == 0 && w.bounds.ceiling.y == config.window_height as int / 2,
            w.bounds.left_wall.x == -(config.window_width as int / 2) && w.bounds.left_wall.y == 0,
            w.bounds.right_wall.x == config.window_width as int / 2 && w.bounds.right_wall.y == 0,
            w@.player == Option::Some(PlayerModel {
                x: 0,
                y: w.bounds.floor.y + config.wall_thickness,
                speed: config.player_speed as int,
            }),
            w@.balls =~= seq![BallEntityModel {
                id: 0,
                ball: BallModel {
                    x: 0,
                    y: 0,
                    x_velocity: config.start_velocity as int,
                    y_velocity: 0,
                    side: table.spec_diameter(config.start_rank as int),
                    size: config.start_rank as int,
                },
            }],
            config.policy == ProjectilePolicy::SingleInstance ==> w@.arrows =~= seq![ArrowModel {
                x: config.window_width as int,
                y: config.window_height as int,
                height: config.arrow_start_height as int,
                destroyed: true,
            }],
            config.policy == ProjectilePolicy::MultiInstance ==> w@.arrows =~= Seq::<ArrowModel>::empty(),
            w@.pops =~= Seq::<int>::empty(),
            w@.next_ball_id == 1,
    {
        let bounds = Boundaries::from_config(&config);
        let player = Player::starting(&bounds, &config);
        let ball = Ball::starting(&table, &config);

        let mut balls: Vec<BallEntity> = Vec::new();
        balls.push(BallEntity { id: 0, ball });

        let mut arrows: Vec<Arrow> = Vec::new();
        if matches!(config.policy, ProjectilePolicy::SingleInstance) {
            arrows.push(Arrow::starting(&config));
        }

        World {
            config,
            table,
            bounds,
            player: Option::Some(player),
            balls,
            arrows,
            pop_queue: Vec::new(),
            next_ball_id: 1,
        }
    }

    /// Whether the whole dynamic state is back within the global coordinate
    /// limit — the entry check a driver makes before each tick. A tick may
    /// leave values in the headroom above the limit; a run whose state has
    /// actually outgrown the limit is over.
    pub fn within_limits(&self) -> (r: bool)
        ensures
            r == self@.fits(),
    {
        let ok_player = match &self.player {
            Option::Some(p) => {
                -LIMIT <= p.x && p.x <= LIMIT && -LIMIT <= p.y && p.y <= LIMIT && 0 <= p.speed
                    && p.speed <= LIMIT
            },
            Option::None => true,
        };
        if !ok_player {
            return false;
        }

        let mut i: usize = 0;
        while i < self.balls.len()
            invariant
                0 <= i <= self.balls@.len(),
                forall|j: int| 0 <= j < i ==> (#[trigger] self@.balls[j]).ball.fits(),
            decreases self.balls@.len() - i,
        {
            proof {
                assert(self@.balls[i as int] == self.balls@[i as int]@);
            }
            let b = &self.balls[i].ball;
            if !(-LIMIT <= b.x && b.x <= LIMIT && -LIMIT <= b.y && b.y <= LIMIT
                && -LIMIT <= b.x_velocity && b.x_velocity <= LIMIT
                && -LIMIT <= b.y_velocity && b.y_velocity <= LIMIT) {
                return false;
            }
            i = i + 1;
        }

        let mut k: usize = 0;
        while k < self.arrows.len()
            invariant
                0 <= k <= self.arrows@.len(),
                forall|j: int| 0 <= j < k ==> (#[trigger] self@.arrows[j]).fits(),
            decreases self.arrows@.len() - k,
        {
            proof {
                assert(self@.arrows[k as int] == self.arrows@[k as int]@);
            }
            let a = &self.arrows[k];
            if !(-LIMIT <= a.x && a.x <= LIMIT && -LIMIT <= a.y && a.y <= LIMIT && 0 <= a.height
                && a.height <= LIMIT) {
                return false;
            }
            k = k + 1;
        }

        self.next_ball_id <= (LIMIT as u64)
            && (self.pop_queue.len() as u64) <= ENTITY_CAP
            && (self.balls.len() as u64) <= ENTITY_CAP
            && (self.arrows.len() as u64) <= ENTITY_CAP
    }
}

} // verus!

verus! {

/// Gravity integration, applied to every registered ball.
pub open spec fn spec_integrate_balls(
    balls: Seq<BallEntityModel>,
    gravity: int,
) -> Seq<BallEntityModel> {
    balls.map_values(|e: BallEntityModel| BallEntityModel {
        id: e.id,
        ball: spec_integrate(e.ball, gravity),
    })
}

/// Boundary bounce resolution, applied to every registered ball.
pub open spec fn spec_bounce_balls(
    balls: Seq<BallEntityModel>,
    bounds: Boundaries,
    table: SizeTable,
    margin: int,
) -> Seq<BallEntityModel> {
    balls.map_values(|e: BallEntityModel| BallEntityModel {
        id: e.id,
        ball: spec_bounce(e.ball, bounds, table, margin),
    })
}

impl World {
    /// The motion integrator: one tick of gravity integration for every
    /// ball. Runs last in a tick, after bounce resolution.
    #[verifier::loop_isolation(false)]
    pub fn integrate_phase(&mut self)
        requires
            old(self).config.wf(),
            forall|i: int|
                0 <= i < old(self)@.balls.len() ==> (#[trigger] old(self)@.balls[i]).ball.fits(),
        ensures
            final(self)@.balls == spec_integrate_balls(
                old(self)@.balls,
                old(self).config.gravity as int,
            ),
            final(self)@.player == old(self)@.player,
            final(self)@.arrows == old(self)@.arrows,
            final(self)@.pops == old(self)@.pops,
            final(self)@.next_ball_id == old(self)@.next_ball_id,
            final(self).config == old(self).config,
            final(self).table == old(self).table,
            final(self).bounds == old(self).bounds,
    {
        let gravity = self.config.gravity;
        let n = self.balls.len();
        let mut i: usize = 0;
        while i < n
            invariant
                0 <= i <= n,
                n == self.balls@.len(),
                self.config == old(self).config,
                self.table == old(self).table,
                self.bounds == old(self).bounds,
                self.player == old(self).player,
                self.arrows == old(self).arrows,
                self.pop_queue == old(self).pop_queue,
                self.next_ball_id == old(self).next_ball_id,
                forall|j: int| i <= j < n ==> self.balls@[j] == old(self).balls@[j],
                forall|j: int|
                    0 <= j < i ==> (#[trigger] self.balls@[j])@ == (BallEntityModel {
                        id: old(self)@.balls[j].id,
                        ball: spec_integrate(old(self)@.balls[j].ball, gravity as int),
                    }),
            decreases n - i,
        {
            proof {
                assert(old(self)@.balls[i as int] == old(self).balls@[i as int]@);
            }
            let mut e = self.balls[i];
            e.ball.integrate(gravity);
            self.balls.set(i, e);
            i = i + 1;
        }
        proof {
            assert(self@.balls =~= spec_integrate_balls(
                old(self)@.balls,
                old(self).config.gravity as int,
            ));
        }
    }

    /// The boundary resolver: floor and wall bounce rules for every ball,
    /// every tick, independent of collisions.
    #[verifier::loop_isolation(false)]
    pub fn bounce_phase(&mut self)
        requires
            old(self).config.wf(),
            old(self).table.wf(),
            old(self).bounds.wf(),
            old(self)@.balls_wf(old(self).table),
            forall|i: int|
                0 <= i < old(self)@.balls.len() ==> (#[trigger] old(self)@.balls[i]).ball.fits(),
        ensures
            final(self)@.balls == spec_bounce_balls(
                old(self)@.balls,
                old(self).bounds,
                old(self).table,
                old(self).config.margin as int,
            ),
            final(self)@.player == old(self)@.player,
            final(self)@.arrows == old(self)@.arrows,
            final(self)@.pops == old(self)@.pops,
            final(self)@.next_ball_id == old(self)@.next_ball_id,
            final(self).config == old(self).config,
            final(self).table == old(self).table,
            final(self).bounds == old(self).bounds,
    {
        let margin = self.config.margin;
        let n = self.balls.len();
        let mut i: usize = 0;
        while i < n
            invariant
                0 <= i <= n,
                n == self.balls@.len(),
                self.config == old(self).config,
                self.table == old(self).table,
                self.bounds == old(self).bounds,
                self.player == old(self).player,
                self.arrows == old(self).arrows,
                self.pop_queue == old(self).pop_queue,
                self.next_ball_id == old(self).next_ball_id,
                forall|j: int| i <= j < n ==> self.balls@[j] == old(self).balls@[j],
                forall|j: int|
                    0 <= j < i ==> (#[trigger] self.balls@[j])@ == (BallEntityModel {
                        id: old(self)@.balls[j].id,
                        ball: spec_bounce(
                            old(self)@.balls[j].ball,
                            old(self).bounds,
                            old(self).table,
                            margin as int,
                        ),
                    }),
            decreases n - i,
        {
            proof {
                assert(old(self)@.balls[i as int] == old(self).balls@[i as int]@);
            }
            let mut e = self.balls[i];
            e.ball.bounce(&self.bounds, &self.table, margin);
            self.balls.set(i, e);
            i = i + 1;
        }
        proof {
            assert(self@.balls =~= spec_bounce_balls(
                old(self)@.balls,
                old(self).bounds,
                old(self).table,
                old(self).config.margin as int,
            ));
        }
    }
}

} // verus!

verus! {

/// Player movement and wall clamp for the live player; once the player is
/// gone the run is over and there is nothing to move.
pub open spec fn spec_player_phase(
    player: Option<PlayerModel>,
    move_left: bool,
    move_right: bool,
    bounds: Boundaries,
    config: Config,
) -> Option<PlayerModel> {
    match player {
        Option::Some(p) => Option::Some(
            crate::player::spec_clamp_player(
                crate::player::spec_move_player(p, move_left, move_right),
                bounds,
                config,
            ),
        ),
        Option::None => Option::None,
    }
}

/// Firing: with no live player, or no fire intent, nothing happens. Under
/// the single-instance policy the one arrow is reset if destroyed; under the
/// multi-instance policy a fresh arrow is spawned at the player's position.
pub open spec fn spec_fire_arrows(
    arrows: Seq<ArrowModel>,
    player: Option<PlayerModel>,
    fire: bool,
    bounds: Boundaries,
    config: Config,
) -> Seq<ArrowModel> {
    match player {
        Option::None => arrows,
        Option::Some(p) => {
            if !fire {
                arrows
            } else if config.policy == ProjectilePolicy::SingleInstance {
                arrows.update(0, crate::arrow::spec_fire_single(arrows[0], p.x, bounds, config))
            } else {
                arrows.push(crate::arrow::spec_fired(p.x, bounds, config))
            }
        },
    }
}

/// One tick of a single-instance arrow: growth, then ceiling resolution.
pub open spec fn spec_advance_single(a: ArrowModel, bounds: Boundaries, config: Config) -> ArrowModel {
    crate::arrow::spec_ceiling_single(crate::arrow::spec_grow(a, config), bounds, config)
}

/// One tick of the multi-instance arrows: each travels upward, and those
/// that leave play are despawned, the others kept in order.
pub open spec fn spec_advance_multi(
    arrows: Seq<ArrowModel>,
    bounds: Boundaries,
    config: Config,
) -> Seq<ArrowModel>
    decreases arrows.len(),
{
    if arrows.len() == 0 {
        Seq::empty()
    } else {
        let rest = spec_advance_multi(arrows.drop_last(), bounds, config);
        let a = crate::arrow::spec_travel(arrows.last(), config);
        if crate::arrow::leaves_play(a, bounds, config) {
            rest
        } else {
            rest.push(a)
        }
    }
}

/// The projectile advance of a tick, under the configured policy.
pub open spec fn spec_advance_arrows(
    arrows: Seq<ArrowModel>,
    bounds: Boundaries,
    config: Config,
) -> Seq<ArrowModel> {
    if config.policy == ProjectilePolicy::SingleInstance {
        arrows.map_values(|a: ArrowModel| spec_advance_single(a, bounds, config))
    } else {
        spec_advance_multi(arrows, bounds, config)
    }
}

impl World {
    /// Player movement from the tick's intents, then the wall clamp.
    pub fn player_phase(&mut self, move_left: bool, move_right: bool)
        requires
            old(self).config.wf(),
            old(self).bounds.wf(),
            match old(self)@.player {
                Option::Some(p) => p.fits(),
                Option::None => true,
            },
        ensures
            final(self)@.player == spec_player_phase(
                old(self)@.player,
                move_left,
                move_right,
                old(self).bounds,
                old(self).config,
            ),
            final(self)@.balls == old(self)@.balls,
            final(self)@.arrows == old(self)@.arrows,
            final(self)@.pops == old(self)@.pops,
            final(self)@.next_ball_id == old(self)@.next_ball_id,
            final(self).config == old(self).config,
            final(self).table == old(self).table,
            final(self).bounds == old(self).bounds,
            match final(self)@.player {
                Option::Some(p) => -3 * (LIMIT as int) <= p.x <= 3 * (LIMIT as int) && fits(p.y)
                    && 0 <= p.speed <= LIMIT,
                Option::None => true,
            },
    {
        if self.player.is_some() {
            let mut p = self.player.unwrap();
            p.step(move_left, move_right);
            p.clamp_to_walls(&self.bounds, &self.config);
            self.player = Option::Some(p);
        }
    }

    /// The fire intent: reset or spawn an arrow at the player's position.
    pub fn fire_phase(&mut self, fire_edge: bool)
        requires
            old(self).config.wf(),
            old(self).bounds.wf(),
            old(self)@.policy_ok(old(self).config),
            match old(self)@.player {
                Option::Some(p) => -3 * (LIMIT as int) <= p.x <= 3 * (LIMIT as int),
                Option::None => true,
            },
            forall|i: int|
                0 <= i < old(self)@.arrows.len() ==> (#[trigger] old(self)@.arrows[i]).fits(),
        ensures
            final(self)@.arrows == spec_fire_arrows(
                old(self)@.arrows,
                old(self)@.player,
                fire_edge,
                old(self).bounds,
                old(self).config,
            ),
            final(self)@.player == old(self)@.player,
            final(self)@.balls == old(self)@.balls,
            final(self)@.pops == old(self)@.pops,
            final(self)@.next_ball_id == old(self)@.next_ball_id,
            final(self).config == old(self).config,
            final(self).table == old(self).table,
            final(self).bounds == old(self).bounds,
            final(self)@.policy_ok(final(self).config),
            forall|i: int|
                0 <= i < final(self)@.arrows.len() ==> {
                    &&& headroom((#[trigger] final(self)@.arrows[i]).x)
                    &&& -2 * (LIMIT as int) <= final(self)@.arrows[i].y <= 2 * (LIMIT as int)
                    &&& 0 <= final(self)@.arrows[i].height <= LIMIT
                },
    {
        if !fire_edge {
            return;
        }
        let px = match &self.player {
            Option::Some(p) => p.x,
            Option::None => {
                return;
            },
        };
        if matches!(self.config.policy, ProjectilePolicy::SingleInstance) {
            let mut a = self.arrows[0];
            a.fire_single(px, &self.bounds, &self.config);
            self.arrows.set(0, a);
            proof {
                assert(self@.arrows =~= spec_fire_arrows(
                    old(self)@.arrows,
                    old(self)@.player,
                    fire_edge,
                    old(self).bounds,
                    old(self).config,
                ));
            }
        } else {
            let a = Arrow::fired(px, &self.bounds, &self.config);
            self.arrows.push(a);
            proof {
                assert(self@.arrows =~= spec_fire_arrows(
                    old(self)@.arrows,
                    old(self)@.player,
                    fire_edge,
                    old(self).bounds,
                    old(self).config,
                ));
            }
        }
    }
}

} // verus!

verus! {

impl World {
    /// Advance every arrow by one tick and resolve its despawn conditions:
    /// under the single-instance policy the arrow grows and is parked when it
    /// reaches the ceiling; under the multi-instance policy each arrow
    /// travels upward and those that leave play are despawned.
    #[verifier::loop_isolation(false)]
    pub fn advance_arrows_phase(&mut self)
        requires
            old(self).config.wf(),
            old(self).bounds.wf(),
            forall|i: int|
                0 <= i < old(self)@.arrows.len() ==> {
                    &&& headroom((#[trigger] old(self)@.arrows[i]).x)
                    &&& -2 * (LIMIT as int) <= old(self)@.arrows[i].y <= 2 * (LIMIT as int)
                    &&& 0 <= old(self)@.arrows[i].height <= LIMIT
                },
        ensures
            final(self)@.arrows == spec_advance_arrows(
                old(self)@.arrows,
                old(self).bounds,
                old(self).config,
            ),
            final(self)@.player == old(self)@.player,
            final(self)@.balls == old(self)@.balls,
            final(self)@.pops == old(self)@.pops,
            final(self)@.next_ball_id == old(self)@.next_ball_id,
            final(self).config == old(self).config,
            final(self).table == old(self).table,
            final(self).bounds == old(self).bounds,
            final(self)@.policy_ok(final(self).config) == old(self)@.policy_ok(old(self).config),
            forall|i: int|
                0 <= i < final(self)@.arrows.len() ==> {
                    &&& headroom((#[trigger] final(self)@.arrows[i]).x)
                    &&& headroom(final(self)@.arrows[i].y)
                    &&& 0 <= final(self)@.arrows[i].height <= 2 * (LIMIT as int)
                },
    {
        let n = self.arrows.len();
        if matches!(self.config.policy, ProjectilePolicy::SingleInstance) {
            let mut i: usize = 0;
            while i < n
                invariant
                    0 <= i <= n,
                    n == self.arrows@.len(),
                    self.config == old(self).config,
                    self.table == old(self).table,
                    self.bounds == old(self).bounds,
                    self.player == old(self).player,
                    self.balls == old(self).balls,
                    self.pop_queue == old(self).pop_queue,
                    self.next_ball_id == old(self).next_ball_id,
                    forall|j: int| i <= j < n ==> self.arrows@[j] == old(self).arrows@[j],
                    forall|j: int|
                        0 <= j < i ==> (#[trigger] self.arrows@[j])@ == spec_advance_single(
                            old(self)@.arrows[j],
                            old(self).bounds,
                            old(self).config,
                        ),
                decreases n - i,
            {
                proof {
                    assert(old(self)@.arrows[i as int] == old(self).arrows@[i as int]@);
                }
                let mut a = self.arrows[i];
                a.grow(&self.config);
                a.resolve_ceiling(&self.bounds, &self.config);
                self.arrows.set(i, a);
                i = i + 1;
            }
            proof {
                assert(self@.arrows =~= spec_advance_arrows(
                    old(self)@.arrows,
                    old(self).bounds,
                    old(self).config,
                ));
            }
        } else {
            let mut kept: Vec<Arrow> = Vec::new();
            let mut i: usize = 0;
            while i < n
                invariant
                    0 <= i <= n,
                    n == self.arrows@.len(),
                    self.config == old(self).config,
                    self.bounds == old(self).bounds,
                    self.arrows == old(self).arrows,
                    !(self.config.policy == ProjectilePolicy::SingleInstance),
                    kept@.map_values(|a: Arrow| a@) == spec_advance_multi(
                        old(self)@.arrows.take(i as int),
                        old(self).bounds,
                        old(self).config,
                    ),
                    forall|j: int|
                        0 <= j < kept@.len() ==> {
                            &&& headroom((#[trigger] kept@[j])@.x)
                            &&& headroom(kept@[j]@.y)
                            &&& 0 <= kept@[j]@.height <= 2 * (LIMIT as int)
                        },
                decreases n - i,
            {
                proof {
                    assert(old(self)@.arrows[i as int] == old(self).arrows@[i as int]@);
                    assert(old(self)@.arrows.take(i as int + 1).drop_last() =~= old(self)@.arrows.take(
                        i as int,
                    ));
                    assert(old(self)@.arrows.take(i as int + 1).last() == old(self)@.arrows[i as int]);
                }
                let mut a = self.arrows[i];
                a.travel(&self.config);
                if !a.is_off_screen(&self.bounds, &self.config) {
                    kept.push(a);
                }
                proof {
                    assert(kept@.map_values(|a: Arrow| a@) =~= spec_advance_multi(
                        old(self)@.arrows.take(i as int + 1),
                        old(self).bounds,
                        old(self).config,
                    ));
                }
                i = i + 1;
            }
            proof {
                assert(old(self)@.arrows.take(n as int) =~= old(self)@.arrows);
            }
            self.arrows = kept;
        }
    }
}

} // verus!

verus! {

/// A live arrow's box collider overlaps a ball's square collider.
pub open spec fn arrow_hits_ball(a: ArrowModel, b: BallModel, config: Config) -> bool {
    &&& !a.destroyed
    &&& crate::collide::spec_boxes_overlap(
        a.x, a.y, config.arrow_width as int, a.height,
        b.x, b.y, b.side, b.side,
    )
}

/// The pop events one arrow contributes: the identities of every ball it
/// overlaps, in registry order.
pub open spec fn spec_pops_for_arrow(
    a: ArrowModel,
    balls: Seq<BallEntityModel>,
    config: Config,
) -> Seq<int>
    decreases balls.len(),
{
    if balls.len() == 0 {
        Seq::empty()
    } else {
        spec_pops_for_arrow(a, balls.drop_last(), config) + (
        if arrow_hits_ball(a, balls.last().ball, config) {
            seq![balls.last().id]
        } else {
            Seq::empty()
        })
    }
}

/// All pop events detection queues in one tick: each arrow's contribution,
/// arrow by arrow in registry order.
pub open spec fn spec_detect_pops(
    arrows: Seq<ArrowModel>,
    balls: Seq<BallEntityModel>,
    config: Config,
) -> Seq<int>
    decreases arrows.len(),
{
    if arrows.len() == 0 {
        Seq::empty()
    } else {
        spec_detect_pops(arrows.drop_last(), balls, config) + spec_pops_for_arrow(
            arrows.last(),
            balls,
            config,
        )
    }
}

/// Whether an arrow overlaps any registered ball.
pub open spec fn arrow_hits_any(a: ArrowModel, balls: Seq<BallEntityModel>, config: Config) -> bool
    decreases balls.len(),
{
    if balls.len() == 0 {
        false
    } else {
        arrow_hits_any(a, balls.drop_last(), config) || arrow_hits_ball(a, balls.last().ball, config)
    }
}

/// An arrow deactivated by a ball hit under the single-instance policy:
/// flagged destroyed and parked off-screen, like one that reached the
/// ceiling.
pub open spec fn spec_deactivated(a: ArrowModel, config: Config) -> ArrowModel {
    ArrowModel { x: 2 * config.window_width, destroyed: true, ..a }
}

/// Arrows after detection under the multi-instance policy: those that hit a
/// ball are despawned, the others kept in order.
pub open spec fn spec_detect_arrows_multi(
    arrows: Seq<ArrowModel>,
    balls: Seq<BallEntityModel>,
    config: Config,
) -> Seq<ArrowModel>
    decreases arrows.len(),
{
    if arrows.len() == 0 {
        Seq::empty()
    } else {
        let rest = spec_detect_arrows_multi(arrows.drop_last(), balls, config);
        if arrow_hits_any(arrows.last(), balls, config) {
            rest
        } else {
            rest.push(arrows.last())
        }
    }
}

/// Arrows after detection, under the configured policy: a hit deactivates
/// the arrow immediately — detection does not wait for the pop consumer.
pub open spec fn spec_detect_arrows(
    arrows: Seq<ArrowModel>,
    balls: Seq<BallEntityModel>,
    config: Config,
) -> Seq<ArrowModel> {
    if config.policy == ProjectilePolicy::SingleInstance {
        arrows.map_values(|a: ArrowModel| if arrow_hits_any(a, balls, config) {
            spec_deactivated(a, config)
        } else {
            a
        })
    } else {
        spec_detect_arrows_multi(arrows, balls, config)
    }
}

/// A ball's square collider overlaps the player's box collider.
pub open spec fn ball_hits_player(b: BallModel, p: PlayerModel, config: Config) -> bool {
    crate::collide::spec_boxes_overlap(
        b.x, b.y, b.side, b.side,
        p.x, p.y, 2 * config.player_half_width as int, 2 * config.player_half_height as int,
    )
}

/// Whether any registered ball overlaps the player.
pub open spec fn any_ball_hits_player(
    balls: Seq<BallEntityModel>,
    p: PlayerModel,
    config: Config,
) -> bool
    decreases balls.len(),
{
    if balls.len() == 0 {
        false
    } else {
        any_ball_hits_player(balls.drop_last(), p, config) || ball_hits_player(
            balls.last().ball,
            p,
            config,
        )
    }
}

/// The player after detection: despawned the moment any ball overlaps it —
/// the terminal state of the run, with no event in between.
pub open spec fn spec_detect_player(
    player: Option<PlayerModel>,
    balls: Seq<BallEntityModel>,
    config: Config,
) -> Option<PlayerModel> {
    match player {
        Option::Some(p) => if any_ball_hits_player(balls, p, config) {
            Option::None
        } else {
            Option::Some(p)
        },
        Option::None => Option::None,
    }
}

} // verus!

verus! {

impl World {
    /// Projectile-against-ball detection: every live arrow is tested against
    /// every registered ball; each overlap queues a pop event for the ball,
    /// and an arrow that hit anything is deactivated immediately. The ball
    /// population itself is never touched here — mutation is deferred to the
    /// pop consumer.
    #[verifier::loop_isolation(false)]
    pub fn detect_ball_hits(&mut self)
        requires
            old(self).config.wf(),
            old(self).table.wf(),
            old(self)@.balls_wf(old(self).table),
            forall|i: int|
                0 <= i < old(self)@.balls.len() ==> (#[trigger] old(self)@.balls[i]).ball.fits(),
            forall|i: int|
                0 <= i < old(self)@.arrows.len() ==> {
                    &&& headroom((#[trigger] old(self)@.arrows[i]).x)
                    &&& headroom(old(self)@.arrows[i].y)
                    &&& 0 <= old(self)@.arrows[i].height <= 2 * (LIMIT as int)
                },
        ensures
            final(self)@.pops == old(self)@.pops + spec_detect_pops(
                old(self)@.arrows,
                old(self)@.balls,
                old(self).config,
            ),
            final(self)@.arrows == spec_detect_arrows(
                old(self)@.arrows,
                old(self)@.balls,
                old(self).config,
            ),
            final(self)@.player == old(self)@.player,
            final(self)@.balls == old(self)@.balls,
            final(self)@.next_ball_id == old(self)@.next_ball_id,
            final(self).config == old(self).config,
            final(self).table == old(self).table,
            final(self).bounds == old(self).bounds,
            final(self)@.policy_ok(final(self).config) == old(self)@.policy_ok(old(self).config),
            forall|i: int|
                0 <= i < final(self)@.arrows.len() ==> {
                    &&& headroom((#[trigger] final(self)@.arrows[i]).x)
                    &&& headroom(final(self)@.arrows[i].y)
                    &&& 0 <= final(self)@.arrows[i].height <= 2 * (LIMIT as int)
                },
    {
        let n_arrows = self.arrows.len();
        let n_balls = self.balls.len();
        let arrow_width = self.config.arrow_width;

        if matches!(self.config.policy, ProjectilePolicy::SingleInstance) {
            let mut ai: usize = 0;
            while ai < n_arrows
                invariant
                    0 <= ai <= n_arrows,
                    n_arrows == self.arrows@.len(),
                    self.config == old(self).config,
                    self.table == old(self).table,
                    self.bounds == old(self).bounds,
                    self.player == old(self).player,
                    self.balls == old(self).balls,
                    self.next_ball_id == old(self).next_ball_id,
                    self@.pops == old(self)@.pops + spec_detect_pops(
                        old(self)@.arrows.take(ai as int),
                        old(self)@.balls,
                        old(self).config,
                    ),
                    forall|j: int| ai <= j < n_arrows ==> self.arrows@[j] == old(self).arrows@[j],
                    forall|j: int|
                        0 <= j < ai ==> (#[trigger] self.arrows@[j])@ == (
                        if arrow_hits_any(old(self)@.arrows[j], old(self)@.balls, old(self).config) {
                            spec_deactivated(old(self)@.arrows[j], old(self).config)
                        } else {
                            old(self)@.arrows[j]
                        }),
                decreases n_arrows - ai,
            {
                proof {
                    assert(old(self)@.arrows[ai as int] == old(self).arrows@[ai as int]@);
                }
                let a = self.arrows[ai];
                let mut hit = false;
                let mut bi: usize = 0;
                while bi < n_balls
                    invariant
                        0 <= bi <= n_balls,
                        n_balls == self.balls@.len(),
                        0 <= ai < n_arrows,
                        n_arrows == self.arrows@.len(),
                        self.config == old(self).config,
                        self.table == old(self).table,
                        self.bounds == old(self).bounds,
                        self.player == old(self).player,
                        self.balls == old(self).balls,
                        self.next_ball_id == old(self).next_ball_id,
                        a == old(self).arrows@[ai as int],
                        forall|j: int| ai <= j < n_arrows ==> self.arrows@[j] == old(self).arrows@[j],
                        forall|j: int|
                            0 <= j < ai ==> (#[trigger] self.arrows@[j])@ == (
                            if arrow_hits_any(old(self)@.arrows[j], old(self)@.balls, old(self).config) {
                                spec_deactivated(old(self)@.arrows[j], old(self).config)
                            } else {
                                old(self)@.arrows[j]
                            }),
                        hit == arrow_hits_any(
                            a@,
                            old(self)@.balls.take(bi as int),
                            old(self).config,
                        ),
                        self@.pops == old(self)@.pops + spec_detect_pops(
                            old(self)@.arrows.take(ai as int),
                            old(self)@.balls,
                            old(self).config,
                        ) + spec_pops_for_arrow(
                            a@,
                            old(self)@.balls.take(bi as int),
                            old(self).config,
                        ),
                    decreases n_balls - bi,
                {
                    proof {
                        assert(old(self)@.balls[bi as int] == old(self).balls@[bi as int]@);
                        assert(old(self)@.balls.take(bi as int + 1).drop_last() =~= old(self)@.balls.take(bi as int));
                        assert(old(self)@.balls.take(bi as int + 1).last() == old(self)@.balls[bi as int]);
                        assert(0 <= old(self).table.spec_diameter(old(self)@.balls[bi as int].ball.size) <= LIMIT);
                    }
                    let b = self.balls[bi];
                    let overlaps = !a.destroyed && crate::collide::boxes_overlap(
                        a.x, a.y, arrow_width, a.height,
                        b.ball.x, b.ball.y, b.ball.side, b.ball.side,
                    );
                    let ghost pops0 = self@.pops;
                    let ghost q0 = self.pop_queue@;
                    if overlaps {
                        self.pop_queue.push(PopBallEvent(b.id));
                        hit = true;
                    }
                    proof {
                        if overlaps {
                            assert(self.pop_queue@ == q0.push(PopBallEvent(b.id)));
                            assert(self@.pops =~= pops0.push(old(self)@.balls[bi as int].id));
                        } else {
                            assert(self@.pops == pops0);
                        }
                        assert(self@.pops =~= old(self)@.pops + spec_detect_pops(
                            old(self)@.arrows.take(ai as int),
                            old(self)@.balls,
                            old(self).config,
                        ) + spec_pops_for_arrow(
                            a@,
                            old(self)@.balls.take(bi as int + 1),
                            old(self).config,
                        ));
                    }
                    bi = bi + 1;
                }
                proof {
                    assert(old(self)@.balls.take(n_balls as int) =~= old(self)@.balls);
                    assert(old(self)@.arrows.take(ai as int + 1).drop_last() =~= old(self)@.arrows.take(ai as int));
                    assert(old(self)@.arrows.take(ai as int + 1).last() == old(self)@.arrows[ai as int]);
                }
                if hit {
                    let mut deactivated = self.arrows[ai];
                    deactivated.destroyed = true;
                    deactivated.x = 2 * self.config.window_width;
                    self.arrows.set(ai, deactivated);
                }
                proof {
                    assert(self@.pops =~= old(self)@.pops + spec_detect_pops(
                        old(self)@.arrows.take(ai as int + 1),
                        old(self)@.balls,
                        old(self).config,
                    ));
                }
                ai = ai + 1;
            }
            proof {
                assert(old(self)@.arrows.take(n_arrows as int) =~= old(self)@.arrows);
                assert(self@.arrows =~= spec_detect_arrows(
                    old(self)@.arrows,
                    old(self)@.balls,
                    old(self).config,
                ));
            }
        } else {
            let mut kept: Vec<Arrow> = Vec::new();
            let mut ai: usize = 0;
            while ai < n_arrows
                invariant
                    0 <= ai <= n_arrows,
                    n_arrows == self.arrows@.len(),
                    self.config == old(self).config,
                    self.table == old(self).table,
                    self.bounds == old(self).bounds,
                    self.player == old(self).player,
                    self.balls == old(self).balls,
                    self.arrows == old(self).arrows,
                    self.next_ball_id == old(self).next_ball_id,
                    !(self.config.policy == ProjectilePolicy::SingleInstance),
                    self@.pops == old(self)@.pops + spec_detect_pops(
                        old(self)@.arrows.take(ai as int),
                        old(self)@.balls,
                        old(self).config,
                    ),
                    kept@.map_values(|a: Arrow| a@) == spec_detect_arrows_multi(
                        old(self)@.arrows.take(ai as int),
                        old(self)@.balls,
                        old(self).config,
                    ),
                    forall|j: int|
                        0 <= j < kept@.len() ==> {
                            &&& headroom((#[trigger] kept@[j])@.x)
                            &&& headroom(kept@[j]@.y)
                            &&& 0 <= kept@[j]@.height <= 2 * (LIMIT as int)
                        },
                decreases n_arrows - ai,
            {
                proof {
                    assert(old(self)@.arrows[ai as int] == old(self).arrows@[ai as int]@);
                }
                let a = self.arrows[ai];
                let mut hit = false;
                let mut bi: usize = 0;
                while bi < n_balls
                    invariant
                        0 <= bi <= n_balls,
                        n_balls == self.balls@.len(),
                        0 <= ai < n_arrows,
                        n_arrows == self.arrows@.len(),
                        self.config == old(self).config,
                        self.table == old(self).table,
                        self.bounds == old(self).bounds,
                        self.player == old(self).player,
                        self.balls == old(self).balls,
                        self.arrows == old(self).arrows,
                        self.next_ball_id == old(self).next_ball_id,
                        a == old(self).arrows@[ai as int],
                        hit == arrow_hits_any(
                            a@,
                            old(self)@.balls.take(bi as int),
                            old(self).config,
                        ),
                        self@.pops == old(self)@.pops + spec_detect_pops(
                            old(self)@.arrows.take(ai as int),
                            old(self)@.balls,
                            old(self).config,
                        ) + spec_pops_for_arrow(
                            a@,
                            old(self)@.balls.take(bi as int),
                            old(self).config,
                        ),
                    decreases n_balls - bi,
                {
                    proof {
                        assert(old(self)@.balls[bi as int] == old(self).balls@[bi as int]@);
                        assert(old(self)@.balls.take(bi as int + 1).drop_last() =~= old(self)@.balls.take(bi as int));
                        assert(old(self)@.balls.take(bi as int + 1).last() == old(self)@.balls[bi as int]);
                        assert(0 <= old(self).table.spec_diameter(old(self)@.balls[bi as int].ball.size) <= LIMIT);
                    }
                    let b = self.balls[bi];
                    let overlaps = !a.destroyed && crate::collide::boxes_overlap(
                        a.x, a.y, arrow_width, a.height,
                        b.ball.x, b.ball.y, b.ball.side, b.ball.side,
                    );
                    let ghost pops0 = self@.pops;
                    let ghost q0 = self.pop_queue@;
                    if overlaps {
                        self.pop_queue.push(PopBallEvent(b.id));
                        hit = true;
                    }
                    proof {
                        if overlaps {
                            assert(self.pop_queue@ == q0.push(PopBallEvent(b.id)));
                            assert(self@.pops =~= pops0.push(old(self)@.balls[bi as int].id));
                        } else {
                            assert(self@.pops == pops0);
                        }
                        assert(self@.pops =~= old(self)@.pops + spec_detect_pops(
                            old(self)@.arrows.take(ai as int),
                            old(self)@.balls,
                            old(self).config,
                        ) + spec_pops_for_arrow(
                            a@,
                            old(self)@.balls.take(bi as int + 1),
                            old(self).config,
                        ));
                    }
                    bi = bi + 1;
                }
                proof {
                    assert(old(self)@.balls.take(n_balls as int) =~= old(self)@.balls);
                    assert(old(self)@.arrows.take(ai as int + 1).drop_last() =~= old(self)@.arrows.take(ai as int));
                    assert(old(self)@.arrows.take(ai as int + 1).last() == old(self)@.arrows[ai as int]);
                }
                if !hit {
                    kept.push(a);
                }
                proof {
                    assert(self@.pops =~= old(self)@.pops + spec_detect_pops(
                        old(self)@.arrows.take(ai as int + 1),
                        old(self)@.balls,
                        old(self).config,
                    ));
                    assert(kept@.map_values(|a: Arrow| a@) =~= spec_detect_arrows_multi(
                        old(self)@.arrows.take(ai as int + 1),
                        old(self)@.balls,
                        old(self).config,
                    ));
                }
                ai = ai + 1;
            }
            proof {
                assert(old(self)@.arrows.take(n_arrows as int) =~= old(self)@.arrows);
            }
            self.arrows = kept;
        }
    }

    /// Ball-against-player detection: the moment any ball overlaps the
    /// player, the player is despawned — the terminal state of the run.
    #[verifier::loop_isolation(false)]
    pub fn detect_player_hit(&mut self)
        requires
            old(self).config.wf(),
            old(self).table.wf(),
            old(self)@.balls_wf(old(self).table),
            forall|i: int|
                0 <= i < old(self)@.balls.len() ==> (#[trigger] old(self)@.balls[i]).ball.fits(),
            match old(self)@.player {
                Option::Some(p) => headroom(p.x) && fits(p.y),
                Option::None => true,
            },
        ensures
            final(self)@.player == spec_detect_player(
                old(self)@.player,
                old(self)@.balls,
                old(self).config,
            ),
            final(self)@.balls == old(self)@.balls,
            final(self)@.arrows == old(self)@.arrows,
            final(self)@.pops == old(self)@.pops,
            final(self)@.next_ball_id == old(self)@.next_ball_id,
            final(self).config == old(self).config,
            final(self).table == old(self).table,
            final(self).bounds == old(self).bounds,
    {
        let p = match &self.player {
            Option::Some(p) => *p,
            Option::None => {
                return;
            },
        };
        let n_balls = self.balls.len();
        let width = 2 * self.config.player_half_width;
        let height = 2 * self.config.player_half_height;
        let mut hit = false;
        let mut bi: usize = 0;
        while bi < n_balls
            invariant
                0 <= bi <= n_balls,
                n_balls == self.balls@.len(),
                self == old(self),
                old(self)@.player == Option::Some(p@),
                hit == any_ball_hits_player(
                    old(self)@.balls.take(bi as int),
                    p@,
                    old(self).config,
                ),
            decreases n_balls - bi,
        {
            proof {
                assert(old(self)@.balls[bi as int] == old(self).balls@[bi as int]@);
                assert(old(self)@.balls.take(bi as int + 1).drop_last() =~= old(self)@.balls.take(bi as int));
                assert(old(self)@.balls.take(bi as int + 1).last() == old(self)@.balls[bi as int]);
                assert(0 <= old(self).table.spec_diameter(old(self)@.balls[bi as int].ball.size) <= LIMIT);
            }
            let b = self.balls[bi];
            if crate::collide::boxes_overlap(
                b.ball.x, b.ball.y, b.ball.side, b.ball.side,
                p.x, p.y, width, height,
            ) {
                hit = true;
            }
            bi = bi + 1;
        }
        proof {
            assert(old(self)@.balls.take(n_balls as int) =~= old(self)@.balls);
        }
        if hit {
            self.player = Option::None;
        }
    }
}

} // verus!


verus! {

/// The first registry index holding the ball with the given identity, or -1
/// when no such ball exists (it may already have been consumed by an earlier
/// event of the same batch).
pub open spec fn spec_find_ball(balls: Seq<BallEntityModel>, id: int) -> int
    decreases balls.len(),
{
    if balls.len() == 0 {
        -1
    } else if balls[0].id == id {
        0
    } else {
        let r = spec_find_ball(balls.skip(1), id);
        if r < 0 {
            -1
        } else {
            r + 1
        }
    }
}

/// Consuming one pop event: if the ball still exists, its state is read
/// first; a parent that can still shrink spawns two children — rightward
/// then leftward — with fresh identities, and the parent is despawned last.
/// A rank-1 parent vanishes with no children. A stale identity is skipped.
pub open spec fn spec_pop_one(
    balls: Seq<BallEntityModel>,
    id: int,
    next_ball_id: int,
    table: SizeTable,
    config: Config,
) -> (Seq<BallEntityModel>, int) {
    let i = spec_find_ball(balls, id);
    if i < 0 {
        (balls, next_ball_id)
    } else {
        let parent = balls[i].ball;
        let remaining = balls.remove(i);
        if parent.size >= 2 {
            (
                remaining.push(
                    BallEntityModel { id: next_ball_id, ball: spec_child(parent, table, config, false) },
                ).push(
                    BallEntityModel {
                        id: next_ball_id + 1,
                        ball: spec_child(parent, table, config, true),
                    },
                ),
                next_ball_id + 2,
            )
        } else {
            (remaining, next_ball_id)
        }
    }
}

/// Draining the pop queue: the events are consumed in the order they were
/// queued, each against the ball population the previous ones left behind.
pub open spec fn spec_drain_pops(
    balls: Seq<BallEntityModel>,
    pops: Seq<int>,
    next_ball_id: int,
    table: SizeTable,
    config: Config,
) -> (Seq<BallEntityModel>, int)
    decreases pops.len(),
{
    if pops.len() == 0 {
        (balls, next_ball_id)
    } else {
        let prev = spec_drain_pops(balls, pops.drop_last(), next_ball_id, table, config);
        spec_pop_one(prev.0, pops.last(), prev.1, table, config)
    }
}

/// What `spec_find_ball` returns: -1 exactly when the identity is absent,
/// otherwise the first index holding it.
pub proof fn lemma_find_ball(balls: Seq<BallEntityModel>, id: int)
    ensures
        spec_find_ball(balls, id) == -1 ==> forall|i: int|
            0 <= i < balls.len() ==> (#[trigger] balls[i]).id != id,
        spec_find_ball(balls, id) >= 0 ==> {
            &&& 0 <= spec_find_ball(balls, id) < balls.len()
            &&& balls[spec_find_ball(balls, id)].id == id
            &&& forall|i: int| 0 <= i < spec_find_ball(balls, id) ==> (#[trigger] balls[i]).id != id
        },
    decreases balls.len(),
{
    if balls.len() == 0 {
    } else if balls[0].id == id {
    } else {
        lemma_find_ball(balls.skip(1), id);
        assert forall|i: int|
            0 <= i < balls.len() && (#[trigger] balls[i]).id == id implies i >= 1 && balls.skip(1)[i
            - 1].id == id by {
            assert(balls.skip(1)[i - 1] == balls[i]);
        }
    }
}

} // verus!

verus! {

/// Consuming one pop event preserves the registry invariants: the remaining
/// and spawned balls are well-formed and within limits, identities stay
/// distinct and below the advanced next identity, and the population grows
/// by at most one.
pub proof fn lemma_pop_one_preserves(
    balls: Seq<BallEntityModel>,
    id: int,
    next_ball_id: int,
    table: SizeTable,
    config: Config,
)
    requires
        table.wf(),
        config.wf(),
        balls_seq_wf(balls, table),
        balls_seq_fits(balls),
        ids_seq_ok(balls, next_ball_id),
    ensures
        balls_seq_wf(spec_pop_one(balls, id, next_ball_id, table, config).0, table),
        balls_seq_fits(spec_pop_one(balls, id, next_ball_id, table, config).0),
        ids_seq_ok(
            spec_pop_one(balls, id, next_ball_id, table, config).0,
            spec_pop_one(balls, id, next_ball_id, table, config).1,
        ),
        next_ball_id <= spec_pop_one(balls, id, next_ball_id, table, config).1 <= next_ball_id + 2,
        spec_pop_one(balls, id, next_ball_id, table, config).0.len() <= balls.len() + 1,
{
    let i = spec_find_ball(balls, id);
    lemma_find_ball(balls, id);
    if i >= 0 {
        let parent = balls[i].ball;
        let remaining = balls.remove(i);
        balls.remove_ensures(i);
        assert forall|k: int| 0 <= k < remaining.len() implies {
            &&& (#[trigger] remaining[k]).ball.wf(table)
            &&& remaining[k].ball.fits()
            &&& 0 <= remaining[k].id < next_ball_id
        } by {
            if k < i {
                assert(remaining[k] == balls[k]);
            } else {
                assert(remaining[k] == balls[k + 1]);
            }
        }
        assert forall|k: int, l: int|
            0 <= k < l < remaining.len() implies (#[trigger] remaining[k]).id != (
        #[trigger] remaining[l]).id by {
            let k0 = if k < i { k } else { k + 1 };
            let l0 = if l < i { l } else { l + 1 };
            assert(remaining[k] == balls[k0]);
            assert(remaining[l] == balls[l0]);
        }
        if parent.size >= 2 {
            let result = spec_pop_one(balls, id, next_ball_id, table, config).0;
            assert(0 <= table.spec_diameter(parent.size - 1) <= LIMIT);
            assert forall|k: int| 0 <= k < result.len() implies {
                &&& (#[trigger] result[k]).ball.wf(table)
                &&& result[k].ball.fits()
                &&& 0 <= result[k].id < next_ball_id + 2
            } by {
                if k < remaining.len() {
                    assert(result[k] == remaining[k]);
                }
            }
            assert forall|k: int, l: int|
                0 <= k < l < result.len() implies (#[trigger] result[k]).id != (
            #[trigger] result[l]).id by {
                if k < remaining.len() {
                    assert(result[k] == remaining[k]);
                }
                if l < remaining.len() {
                    assert(result[l] == remaining[l]);
                }
            }
        }
    }
}

/// Draining a whole queue of pop events preserves the registry invariants;
/// the next identity advances by at most two per event and the population
/// grows by at most one per event.
pub proof fn lemma_drain_pops_preserves(
    balls: Seq<BallEntityModel>,
    pops: Seq<int>,
    next_ball_id: int,
    table: SizeTable,
    config: Config,
)
    requires
        table.wf(),
        config.wf(),
        balls_seq_wf(balls, table),
        balls_seq_fits(balls),
        ids_seq_ok(balls, next_ball_id),
    ensures
        balls_seq_wf(spec_drain_pops(balls, pops, next_ball_id, table, config).0, table),
        balls_seq_fits(spec_drain_pops(balls, pops, next_ball_id, table, config).0),
        ids_seq_ok(
            spec_drain_pops(balls, pops, next_ball_id, table, config).0,
            spec_drain_pops(balls, pops, next_ball_id, table, config).1,
        ),
        next_ball_id <= spec_drain_pops(balls, pops, next_ball_id, table, config).1 <= next_ball_id
            + 2 * pops.len(),
        spec_drain_pops(balls, pops, next_ball_id, table, config).0.len() <= balls.len()
            + pops.len(),
    decreases pops.len(),
{
    if pops.len() > 0 {
        lemma_drain_pops_preserves(balls, pops.drop_last(), next_ball_id, table, config);
        let prev = spec_drain_pops(balls, pops.drop_last(), next_ball_id, table, config);
        lemma_pop_one_preserves(prev.0, pops.last(), prev.1, table, config);
    }
}

} // verus!

verus! {

impl World {
    /// The split consumer: drain the pop queue in order. For each event
    /// whose ball still exists, the parent's state is read first, two
    /// one-rank-smaller children are spawned at its position when the rank
    /// allows, and only then is the parent despawned; stale identities are
    /// skipped silently.
    #[verifier::loop_isolation(false)]
    pub fn pop_phase(&mut self)
        requires
            old(self).config.wf(),
            old(self).table.wf(),
            old(self)@.balls_wf(old(self).table),
            balls_seq_fits(old(self)@.balls),
            old(self)@.ids_ok(),
            0 <= old(self)@.next_ball_id,
            old(self)@.next_ball_id + 2 * old(self)@.pops.len() <= u64::MAX,
        ensures
            final(self)@.balls == spec_drain_pops(
                old(self)@.balls,
                old(self)@.pops,
                old(self)@.next_ball_id,
                old(self).table,
                old(self).config,
            ).0,
            final(self)@.next_ball_id == spec_drain_pops(
                old(self)@.balls,
                old(self)@.pops,
                old(self)@.next_ball_id,
                old(self).table,
                old(self).config,
            ).1,
            final(self)@.pops == Seq::<int>::empty(),
            final(self)@.player == old(self)@.player,
            final(self)@.arrows == old(self)@.arrows,
            final(self).config == old(self).config,
            final(self).table == old(self).table,
            final(self).bounds == old(self).bounds,
            final(self)@.balls_wf(final(self).table),
            balls_seq_fits(final(self)@.balls),
            final(self)@.ids_ok(),
    {
        let n_pops = self.pop_queue.len();
        let mut qi: usize = 0;
        while qi < n_pops
            invariant
                0 <= qi <= n_pops,
                n_pops == self.pop_queue@.len(),
                self.pop_queue == old(self).pop_queue,
                self.config == old(self).config,
                self.table == old(self).table,
                self.bounds == old(self).bounds,
                self.player == old(self).player,
                self.arrows == old(self).arrows,
                self@.balls == spec_drain_pops(
                    old(self)@.balls,
                    old(self)@.pops.take(qi as int),
                    old(self)@.next_ball_id,
                    old(self).table,
                    old(self).config,
                ).0,
                self@.next_ball_id == spec_drain_pops(
                    old(self)@.balls,
                    old(self)@.pops.take(qi as int),
                    old(self)@.next_ball_id,
                    old(self).table,
                    old(self).config,
                ).1,
                balls_seq_wf(self@.balls, self.table),
                balls_seq_fits(self@.balls),
                ids_seq_ok(self@.balls, self@.next_ball_id),
                old(self)@.next_ball_id <= self@.next_ball_id <= old(self)@.next_ball_id + 2 * qi,
            decreases n_pops - qi,
        {
            proof {
                assert(old(self)@.pops.take(qi as int + 1).drop_last() =~= old(self)@.pops.take(
                    qi as int,
                ));
                assert(old(self)@.pops.take(qi as int + 1).last() == old(self)@.pops[qi as int]);
                assert(old(self)@.pops[qi as int] == old(self).pop_queue@[qi as int].0 as int);
            }
            let id = self.pop_queue[qi].0;
            let ghost balls0 = self@.balls;
            let ghost next0 = self@.next_ball_id;

            let n_balls = self.balls.len();
            let mut j: usize = 0;
            while j < n_balls && self.balls[j].id != id
                invariant
                    0 <= j <= n_balls,
                    n_balls == self.balls@.len(),
                    forall|k: int| 0 <= k < j ==> (#[trigger] self@.balls[k]).id != id,
                decreases n_balls - j,
            {
                proof {
                    assert(self@.balls[j as int] == self.balls@[j as int]@);
                }
                j = j + 1;
            }
            proof {
                lemma_find_ball(self@.balls, id as int);
                if j < n_balls {
                    assert(self@.balls[j as int] == self.balls@[j as int]@);
                    assert(self@.balls[j as int].id == id);
                    assert(spec_find_ball(self@.balls, id as int) == j);
                } else {
                    assert(spec_find_ball(self@.balls, id as int) == -1);
                }
                lemma_pop_one_preserves(balls0, id as int, next0, self.table, self.config);
            }
            if j < n_balls {
                let parent = self.balls[j].ball;
                if parent.size - 1 > 0 {
                    let to_right = Ball::child_of(&parent, &self.table, &self.config, false);
                    let to_left = Ball::child_of(&parent, &self.table, &self.config, true);
                    let first_id = self.next_ball_id;
                    self.balls.push(BallEntity { id: first_id, ball: to_right });
                    self.balls.push(BallEntity { id: first_id + 1, ball: to_left });
                    self.next_ball_id = first_id + 2;
                    self.balls.remove(j);
                    proof {
                        assert(self@.balls =~= spec_pop_one(
                            balls0,
                            id as int,
                            next0,
                            self.table,
                            self.config,
                        ).0);
                    }
                } else {
                    self.balls.remove(j);
                    proof {
                        assert(self@.balls =~= spec_pop_one(
                            balls0,
                            id as int,
                            next0,
                            self.table,
                            self.config,
                        ).0);
                    }
                }
            }
            qi = qi + 1;
        }
        proof {
            assert(old(self)@.pops.take(n_pops as int) =~= old(self)@.pops);
        }
        self.pop_queue = Vec::new();
        proof {
            assert(self@.pops =~= Seq::<int>::empty());
        }
    }
}

} // verus!

verus! {

/// One arrow queues at most one pop event per registered ball.
pub proof fn lemma_pops_for_arrow_len(a: ArrowModel, balls: Seq<BallEntityModel>, config: Config)
    ensures
        spec_pops_for_arrow(a, balls, config).len() <= balls.len(),
    decreases balls.len(),
{
    if balls.len() > 0 {
        lemma_pops_for_arrow_len(a, balls.drop_last(), config);
    }
}

/// Detection queues at most one pop event per arrow-ball pair.
pub proof fn lemma_detect_pops_len(
    arrows: Seq<ArrowModel>,
    balls: Seq<BallEntityModel>,
    config: Config,
)
    ensures
        spec_detect_pops(arrows, balls, config).len() <= arrows.len() * balls.len(),
    decreases arrows.len(),
{
    if arrows.len() > 0 {
        lemma_detect_pops_len(arrows.drop_last(), balls, config);
        lemma_pops_for_arrow_len(arrows.last(), balls, config);
        assert((arrows.len() - 1) * balls.len() + balls.len() == arrows.len() * balls.len())
            by (nonlinear_arith);
    }
}

/// One tick of the world, as a function of the tick-start state and the
/// intents. A world whose player is gone is terminal: nothing moves. Else
/// the phases run in their fixed order — player movement and clamp,
/// projectile firing and advance, collision detection into the pop queue,
/// the split consumer, bounce resolution, and gravity integration.
pub open spec fn spec_tick(
    w: WorldModel,
    intents: Intents,
    bounds: Boundaries,
    table: SizeTable,
    config: Config,
) -> WorldModel {
    if w.player is None {
        w
    } else {
        let moved_player = spec_player_phase(
            w.player,
            intents.move_left,
            intents.move_right,
            bounds,
            config,
        );
        let fired = spec_fire_arrows(w.arrows, moved_player, intents.fire_edge, bounds, config);
        let advanced = spec_advance_arrows(fired, bounds, config);
        let queued = w.pops + spec_detect_pops(advanced, w.balls, config);
        let surviving_arrows = spec_detect_arrows(advanced, w.balls, config);
        let surviving_player = spec_detect_player(moved_player, w.balls, config);
        let drained = spec_drain_pops(w.balls, queued, w.next_ball_id, table, config);
        let bounced = spec_bounce_balls(drained.0, bounds, table, config.margin as int);
        let integrated = spec_integrate_balls(bounced, config.gravity as int);
        WorldModel {
            player: surviving_player,
            balls: integrated,
            arrows: surviving_arrows,
            pops: Seq::empty(),
            next_ball_id: drained.1,
        }
    }
}

/// Advancing the multi-instance arrows never lengthens the registry.
pub proof fn lemma_advance_multi_len(arrows: Seq<ArrowModel>, bounds: Boundaries, config: Config)
    ensures
        spec_advance_multi(arrows, bounds, config).len() <= arrows.len(),
    decreases arrows.len(),
{
    if arrows.len() > 0 {
        lemma_advance_multi_len(arrows.drop_last(), bounds, config);
    }
}

impl World {
    /// Advance the world by one tick on the given intents.
    ///
    /// Runs the fixed phase order once. Detection sees the ball population
    /// as of tick start; the pop queue it fills is drained before bounce and
    /// integration, so a split's children are integrated on the very tick
    /// they spawn and are visible to the next tick's detection. The
    /// structural invariant — ranks in the table's domain with matching side
    /// lengths, distinct identities, the policy's arrow count — is preserved.
    #[verifier::rlimit(60)]
    pub fn tick(&mut self, intents: Intents)
        requires
            old(self).wf(),
            old(self)@.fits(),
        ensures
            final(self)@ == spec_tick(
                old(self)@,
                intents,
                old(self).bounds,
                old(self).table,
                old(self).config,
            ),
            final(self).config == old(self).config,
            final(self).table == old(self).table,
            final(self).bounds == old(self).bounds,
            final(self).wf(),
    {
        if self.player.is_none() {
            return;
        }
        let ghost w0 = self@;
        let ghost bounds = self.bounds;
        let ghost table = self.table;
        let ghost config = self.config;
        let ghost moved_player = spec_player_phase(
            w0.player,
            intents.move_left,
            intents.move_right,
            bounds,
            config,
        );
        let ghost fired = spec_fire_arrows(w0.arrows, moved_player, intents.fire_edge, bounds, config);
        let ghost advanced = spec_advance_arrows(fired, bounds, config);
        let ghost queued = w0.pops + spec_detect_pops(advanced, w0.balls, config);
        let ghost drained = spec_drain_pops(w0.balls, queued, w0.next_ball_id, table, config);

        self.player_phase(intents.move_left, intents.move_right);
        self.fire_phase(intents.fire_edge);
        proof {
            assert(self@.arrows == fired);
            assert(fired.len() <= w0.arrows.len() + 1);
        }
        self.advance_arrows_phase();
        proof {
            assert(self@.arrows == advanced);
            if config.policy == ProjectilePolicy::SingleInstance {
                assert(advanced.len() == fired.len());
            } else {
                lemma_advance_multi_len(fired, bounds, config);
            }
            assert(advanced.len() <= ENTITY_CAP + 1);
        }
        self.detect_ball_hits();
        self.detect_player_hit();
        proof {
            assert(self@.pops == queued);
            lemma_detect_pops_len(advanced, w0.balls, config);
            vstd::arithmetic::mul::lemma_mul_upper_bound(
                advanced.len() as int,
                ENTITY_CAP as int + 1,
                w0.balls.len() as int,
                ENTITY_CAP as int,
            );
            assert(queued.len() <= ENTITY_CAP + (ENTITY_CAP + 1) * ENTITY_CAP);
            assert(w0.next_ball_id + 2 * queued.len() <= u64::MAX);
        }
        self.pop_phase();
        proof {
            assert(self@.balls == drained.0);
            assert(self@.next_ball_id == drained.1);
        }
        self.bounce_phase();
        self.integrate_phase();

        proof {
            assert(self@ =~= spec_tick(w0, intents, bounds, table, config));
            lemma_drain_pops_preserves(w0.balls, queued, w0.next_ball_id, table, config);
            assert forall|i: int| 0 <= i < self@.balls.len() implies (#[trigger] self@.balls[i]).ball.wf(
                table,
            ) by {
                let b1 = spec_bounce_balls(drained.0, bounds, table, config.margin as int);
                assert(b1[i] == BallEntityModel {
                    id: drained.0[i].id,
                    ball: spec_bounce(drained.0[i].ball, bounds, table, config.margin as int),
                });
                assert(self@.balls[i] == BallEntityModel {
                    id: b1[i].id,
                    ball: spec_integrate(b1[i].ball, config.gravity as int),
                });
                assert(drained.0[i].ball.wf(table));
            }
            assert forall|i: int| 0 <= i < self@.balls.len() implies 0 <= (
            #[trigger] self@.balls[i]).id < self@.next_ball_id by {
                let b1 = spec_bounce_balls(drained.0, bounds, table, config.margin as int);
                assert(b1[i].id == drained.0[i].id);
                assert(self@.balls[i].id == b1[i].id);
            }
            assert forall|i: int, j: int|
                0 <= i < j < self@.balls.len() implies (#[trigger] self@.balls[i]).id != (
            #[trigger] self@.balls[j]).id by {
                let b1 = spec_bounce_balls(drained.0, bounds, table, config.margin as int);
                assert(self@.balls[i].id == b1[i].id && b1[i].id == drained.0[i].id);
                assert(self@.balls[j].id == b1[j].id && b1[j].id == drained.0[j].id);
            }
        }
    }
}

} // verus!

verus! {

/// The split law. Popping a ball that can still shrink yields exactly two
/// children, appended to the registry: both at the parent's position, both
/// of the rank one below the parent's, both with the same upward lift, and
/// with opposite-signed horizontal velocities of equal magnitude; every
/// other ball is untouched. Popping a rank-1 ball yields zero children: the
/// population only loses the parent. Either way no ball with the popped
/// identity remains.
pub proof fn lemma_pop_splits(
    balls: Seq<BallEntityModel>,
    id: int,
    next_ball_id: int,
    table: SizeTable,
    config: Config,
)
    requires
        balls_seq_wf(balls, table),
        ids_seq_ok(balls, next_ball_id),
        spec_find_ball(balls, id) >= 0,
    ensures
        ({
            let i = spec_find_ball(balls, id);
            let parent = balls[i].ball;
            let popped = spec_pop_one(balls, id, next_ball_id, table, config);
            &&& parent.size >= 2 ==> {
                let first_child = popped.0[popped.0.len() - 2].ball;
                let second_child = popped.0[popped.0.len() - 1].ball;
                &&& popped.0.len() == balls.len() + 1
                &&& first_child.x == parent.x && first_child.y == parent.y
                &&& second_child.x == parent.x && second_child.y == parent.y
                &&& first_child.size == parent.size - 1
                &&& second_child.size == parent.size - 1
                &&& first_child.x_velocity == config.split_speed
                &&& second_child.x_velocity == -(config.split_speed as int)
                &&& first_child.y_velocity == config.lift_velocity
                &&& second_child.y_velocity == config.lift_velocity
                &&& forall|k: int|
                    0 <= k < popped.0.len() - 2 ==> #[trigger] popped.0[k] == balls.remove(i)[k]
            }
            &&& parent.size == 1 ==> popped.0 == balls.remove(i) && popped.1 == next_ball_id
            &&& forall|k: int| 0 <= k < popped.0.len() ==> (#[trigger] popped.0[k]).id != id
        }),
{
    let i = spec_find_ball(balls, id);
    lemma_find_ball(balls, id);
    let parent = balls[i].ball;
    let remaining = balls.remove(i);
    balls.remove_ensures(i);
    let popped = spec_pop_one(balls, id, next_ball_id, table, config);
    assert forall|k: int| 0 <= k < remaining.len() implies (#[trigger] remaining[k]).id != id by {
        if k < i {
            assert(remaining[k] == balls[k]);
        } else {
            assert(remaining[k] == balls[k + 1]);
        }
    }
    if parent.size >= 2 {
        assert forall|k: int| 0 <= k < popped.0.len() implies (#[trigger] popped.0[k]).id != id by {
            if k < remaining.len() {
                assert(popped.0[k] == remaining[k]);
            }
        }
    }
}

/// The confinement law. Wherever the geometry leaves room for the player
/// between the two wall margin lines, a tick never ends with the player
/// outside them: whatever the intents, a surviving player's position lies
/// between the left and right limits. Applied tick after tick, no input
/// sequence ever drives the player past a wall.
pub proof fn lemma_tick_confines_player(
    w: WorldModel,
    intents: Intents,
    bounds: Boundaries,
    table: SizeTable,
    config: Config,
)
    requires
        crate::player::left_limit(bounds, config) <= crate::player::right_limit(bounds, config),
    ensures
        spec_tick(w, intents, bounds, table, config).player matches Option::Some(p) ==> {
            &&& crate::player::left_limit(bounds, config) <= p.x
            &&& p.x <= crate::player::right_limit(bounds, config)
        },
{
    match w.player {
        Option::Some(p) => {
            crate::player::lemma_clamp_confines(
                crate::player::spec_move_player(p, intents.move_left, intents.move_right),
                bounds,
                config,
            );
        },
        Option::None => {},
    }
}

} // verus!
