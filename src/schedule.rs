//! The tick driver: fixed-interval actions gated by accumulators, then the
//! per-frame passes in a fixed order.
use vstd::prelude::*;

use crate::collision::{first_hit_on, player_hits, survivors};
use crate::effects::{animated, new_explosion};
use crate::entities::{
    Bounds, Enemy, Explosion, Laser, Owner, Player, PlayerState, DEFAULT_SPEED, GUN_OFFSET_X, PLAYER_BASE_HEIGHT,
};
use crate::geometry::{in_field, Point};
use crate::movement::{moved_enemy, moved_lasers, moved_player, out_of_play};
use crate::spawner::{enemy_shot, enemy_spawn_view, in_spawn_area, may_respawn, player_shot};
use crate::world::{World, WorldView};

verus! {

/// Period of the enemy spawn action, in ms.
pub const ENEMY_SPAWN_PERIOD_MS: u64 = 1000;

/// Period of the player spawn action, in ms.
pub const PLAYER_SPAWN_PERIOD_MS: u64 = 500;

/// Period of the enemy fire action, in ms.
pub const ENEMY_FIRE_PERIOD_MS: u64 = 2000;

/// Accumulator of a fixed-interval action: frame time goes in, whole
/// periods come out, independent of the frame rate.
#[derive(Clone, Copy, Debug, PartialEq, Eq, Structural)]
pub struct Cadence {
    pub period_ms: u64,
    pub acc_ms: u64,
}

impl Cadence {
    pub open spec fn wf(self) -> bool {
        0 < self.period_ms && self.acc_ms < self.period_ms
    }

    pub fn new(period_ms: u64) -> (r: Cadence)
        requires
            period_ms > 0,
        ensures
            r.wf(),
            r == (Cadence { period_ms, acc_ms: 0 }),
    {
        Cadence { period_ms, acc_ms: 0 }
    }

    /// Adds `dt` ms and returns how many whole periods are due; the rest
    /// stays in the accumulator.
    pub fn advance(&mut self, dt: u64) -> (runs: u64)
        requires
            old(self).wf(),
        ensures
            final(self).wf(),
            final(self).period_ms == old(self).period_ms,
            runs == (old(self).acc_ms + dt) / (old(self).period_ms as int),
            final(self).acc_ms == (old(self).acc_ms + dt) % (old(self).period_ms as int),
    {
        let total: u128 = self.acc_ms as u128 + dt as u128;
        let p: u128 = self.period_ms as u128;
        let runs: u128 = total / p;
        assert(runs <= total) by (nonlinear_arith)
            requires runs == total / p, p >= 1, total >= 0;
        assert(runs <= u64::MAX) by (nonlinear_arith)
            requires runs == total / p, p >= 1, total <= u64::MAX + p - 1, p <= u64::MAX;
        self.acc_ms = (total % p) as u64;
        runs as u64
    }
}

/// Key state for one frame.
#[derive(Clone, Copy, Debug, PartialEq, Eq, Structural)]
pub struct Controls {
    pub left: bool,
    pub right: bool,
    pub fire_held: bool,
    pub fire_released: bool,
}

/// `n` runs of the enemy spawn action, the `i`-th drawing position `ps[i]`.
pub open spec fn enemy_spawns(v: WorldView, ps: Seq<Point>) -> WorldView
    decreases ps.len(),
{
    if ps.len() == 0 {
        v
    } else {
        enemy_spawn_view(enemy_spawns(v, ps.drop_last()), ps.last())
    }
}

/// The player spawn action at `now` over the model.
pub open spec fn player_spawn_view(v: WorldView, now: u64) -> WorldView {
    if may_respawn(v.player_state, now) {
        WorldView {
            player: Some(
                Player {
                    pos: Point { x: 0, y: (-v.bounds.half_h + PLAYER_BASE_HEIGHT) as i64 },
                    speed: DEFAULT_SPEED,
                    ready_to_fire: true,
                },
            ),
            player_state: PlayerState { alive: true, last_death: None },
            ..v
        }
    } else {
        v
    }
}

/// `n` runs of the player spawn action at `now`.
pub open spec fn player_spawns(v: WorldView, now: u64, n: nat) -> WorldView
    decreases n,
{
    if n == 0 {
        v
    } else {
        player_spawn_view(player_spawns(v, now, (n - 1) as nat), now)
    }
}

/// `n` runs of the enemy fire action.
pub open spec fn enemy_volleys(v: WorldView, n: nat) -> WorldView
    decreases n,
{
    if n == 0 {
        v
    } else {
        let w = enemy_volleys(v, (n - 1) as nat);
        WorldView { lasers: w.lasers + w.enemies.map_values(|e: Enemy| enemy_shot(e)), ..w }
    }
}

/// Player fire over the model.
pub open spec fn player_fire_view(v: WorldView, held: bool, released: bool) -> WorldView {
    match v.player {
        None => v,
        Some(p) => {
            let fires = p.ready_to_fire && held;
            WorldView {
                player: Some(
                    Player {
                        ready_to_fire: if released {
                            true
                        } else if fires {
                            false
                        } else {
                            p.ready_to_fire
                        },
                        ..p
                    },
                ),
                lasers: if fires {
                    v.lasers.push(player_shot(p, GUN_OFFSET_X as int)).push(
                        player_shot(p, -GUN_OFFSET_X),
                    )
                } else {
                    v.lasers
                },
                ..v
            }
        },
    }
}

/// All per-frame movement: the ship, the player's lasers, the enemies'
/// lasers, then the enemies toward `target`.
pub open spec fn movement_view(v: WorldView, left: bool, right: bool, target: Point) -> WorldView {
    WorldView {
        player: match v.player {
            None => None,
            Some(p) => Some(moved_player(p, left, right)),
        },
        lasers: moved_lasers(
            moved_lasers(v.lasers, Owner::FromPlayer, v.bounds),
            Owner::FromEnemy,
            v.bounds,
        ),
        enemies: v.enemies.map_values(|e: Enemy| moved_enemy(e, target)),
        ..v
    }
}

/// The player's lasers against the enemies over the model.
pub open spec fn player_hits_view(v: WorldView) -> WorldView {
    let (lh, eh, fx) = player_hits(v.lasers, v.enemies);
    WorldView {
        enemies: survivors(v.enemies, eh),
        active_enemies: survivors(v.enemies, eh).len() as u64,
        lasers: survivors(v.lasers, lh),
        pending: v.pending + fx,
        ..v
    }
}

/// The enemies' lasers against the player's ship at `now` over the model.
pub open spec fn enemy_hits_view(v: WorldView, now: u64) -> WorldView {
    match v.player {
        None => v,
        Some(p) => match first_hit_on(v.lasers, p, 0) {
            None => v,
            Some(i) => WorldView {
                player: None,
                player_state: PlayerState { alive: false, last_death: Some(now) },
                lasers: v.lasers.remove(i),
                pending: v.pending.push(p.pos),
                ..v
            },
        },
    }
}

/// Pending explosions created, then every explosion animated by `dt` ms.
pub open spec fn effects_view(v: WorldView, dt: u64) -> WorldView {
    WorldView {
        pending: Seq::empty(),
        explosions: animated(v.explosions + v.pending.map_values(|p: Point| new_explosion(p)), dt),
        ..v
    }
}

/// One frame over the model: the fixed-interval actions, run `es`, `np`
/// and `nf` times (enemy spawns drawing the positions `ps`), then player
/// fire, movement, both collision passes and the effects.
pub open spec fn frame_view(
    v: WorldView,
    ps: Seq<Point>,
    np: nat,
    nf: nat,
    controls: Controls,
    now: u64,
    dt: u64,
    target: Point,
) -> WorldView {
    let a = enemy_volleys(player_spawns(enemy_spawns(v, ps), now, np), nf);
    let b = player_fire_view(a, controls.fire_held, controls.fire_released);
    let c = movement_view(b, controls.left, controls.right, target);
    effects_view(enemy_hits_view(player_hits_view(c), now), dt)
}

/// No laser in the world has left play.
pub open spec fn lasers_in_play(w: &World) -> bool {
    forall|i: int| 0 <= i < w.lasers@.len() ==> !out_of_play(#[trigger] w.lasers@[i], w.bounds)
}

/// The world together with the accumulators of its fixed-interval actions.
pub struct Game {
    pub world: World,
    pub enemy_spawn: Cadence,
    pub player_spawn: Cadence,
    pub enemy_fire: Cadence,
}

impl Game {
    pub open spec fn wf(&self) -> bool {
        &&& self.world.wf()
        &&& self.enemy_spawn.wf() && self.enemy_spawn.period_ms == ENEMY_SPAWN_PERIOD_MS
        &&& self.player_spawn.wf() && self.player_spawn.period_ms == PLAYER_SPAWN_PERIOD_MS
        &&& self.enemy_fire.wf() && self.enemy_fire.period_ms == ENEMY_FIRE_PERIOD_MS
    }

    /// A new game: the play area is empty but for the player's ship.
    pub fn new(bounds: Bounds) -> (r: Game)
        requires
            bounds.wf(),
        ensures
            r.wf(),
            r.world@ == (WorldView {
                bounds,
                player: Some(
                    Player {
                        pos: Point { x: 0, y: (-bounds.half_h + PLAYER_BASE_HEIGHT) as i64 },
                        speed: DEFAULT_SPEED,
                        ready_to_fire: true,
                    },
                ),
                player_state: PlayerState { alive: true, last_death: None },
                enemies: Seq::empty(),
                active_enemies: 0,
                lasers: Seq::empty(),
                pending: Seq::empty(),
                explosions: Seq::empty(),
            }),
            r.enemy_spawn == (Cadence { period_ms: ENEMY_SPAWN_PERIOD_MS, acc_ms: 0 }),
            r.player_spawn == (Cadence { period_ms: PLAYER_SPAWN_PERIOD_MS, acc_ms: 0 }),
            r.enemy_fire == (Cadence { period_ms: ENEMY_FIRE_PERIOD_MS, acc_ms: 0 }),
    {
        let mut world = World::new(bounds);
        world.player_spawn(0);
        assert(world.enemies@ =~= Seq::<Enemy>::empty());
        assert(world.lasers@ =~= Seq::<Laser>::empty());
        assert(world.pending@ =~= Seq::<Point>::empty());
        assert(world.explosions@ =~= Seq::<Explosion>::empty());
        Game {
            world,
            enemy_spawn: Cadence::new(ENEMY_SPAWN_PERIOD_MS),
            player_spawn: Cadence::new(PLAYER_SPAWN_PERIOD_MS),
            enemy_fire: Cadence::new(ENEMY_FIRE_PERIOD_MS),
        }
    }

    /// One frame at time `now` (ms), `dt` ms after the last: the due
    /// fixed-interval actions (enemy spawn every second, player spawn every
    /// half second, enemy fire every two seconds, each run once per whole
    /// period accumulated), then player fire, movement (enemies toward the
    /// orbit point `enemy_target`), collisions and effects.  The world stays
    /// consistent and no laser that has left play survives the frame.
    pub fn frame(&mut self, controls: Controls, now: u64, dt: u64, enemy_target: Point)
        requires
            old(self).wf(),
            in_field(enemy_target),
        ensures
            final(self).wf(),
            exists|ps: Seq<Point>|
                #![auto]
                ps.len() == (old(self).enemy_spawn.acc_ms + dt) / (ENEMY_SPAWN_PERIOD_MS as int)
                    && (forall|i: int| 0 <= i < ps.len() ==> in_spawn_area(&old(self).world, ps[i].x, ps[i].y))
                    && final(self).world@ == frame_view(
                    old(self).world@,
                    ps,
                    ((old(self).player_spawn.acc_ms + dt) / (PLAYER_SPAWN_PERIOD_MS as int)) as nat,
                    ((old(self).enemy_fire.acc_ms + dt) / (ENEMY_FIRE_PERIOD_MS as int)) as nat,
                    controls,
                    now,
                    dt,
                    enemy_target,
                ),
            final(self).world.active_enemies == final(self).world.enemies@.len(),
            final(self).world.player_state.alive == final(self).world.player.is_some(),
            final(self).world.bounds == old(self).world.bounds,
            lasers_in_play(&final(self).world),
            final(self).enemy_spawn.acc_ms == (old(self).enemy_spawn.acc_ms + dt) % (
            ENEMY_SPAWN_PERIOD_MS as int),
            final(self).player_spawn.acc_ms == (old(self).player_spawn.acc_ms + dt) % (
            PLAYER_SPAWN_PERIOD_MS as int),
            final(self).enemy_fire.acc_ms == (old(self).enemy_fire.acc_ms + dt) % (
            ENEMY_FIRE_PERIOD_MS as int),
    {
        let ghost v0 = self.world@;
        let n = self.enemy_spawn.advance(dt);
        let ghost cad_es = self.enemy_spawn;
        let ghost mut cad_ps = self.player_spawn;
        let ghost mut cad_ef = self.enemy_fire;
        let ghost mut ps: Seq<Point> = Seq::empty();
        let mut k: u64 = 0;
        while k < n
            invariant
                self.wf(),
                self.world.bounds == old(self).world.bounds,
                self.enemy_spawn == cad_es,
                self.player_spawn == cad_ps,
                self.enemy_fire == cad_ef,
                v0 == old(self).world@,
                0 <= k <= n,
                ps.len() == k,
                forall|i: int| 0 <= i < ps.len() ==> in_spawn_area(&old(self).world, #[trigger] ps[i].x, ps[i].y),
                self.world@ == enemy_spawns(v0, ps),
            decreases n - k,
        {
            let ghost before = self.world@;
            let ghost bw = self.world;
            self.world.enemy_spawn();
            proof {
                let q = choose|q: Point|
                    #![auto]
                    in_spawn_area(&bw, q.x, q.y) && self.world@ == enemy_spawn_view(bw@, q);
                assert(ps.push(q).drop_last() =~= ps);
                ps = ps.push(q);
            }
            k = k + 1;
        }
        let ghost v1 = self.world@;
        let n = self.player_spawn.advance(dt);
        let ghost np = n;
        proof {
            cad_ps = self.player_spawn;
        }
        let mut k: u64 = 0;
        while k < n
            invariant
                self.wf(),
                self.world.bounds == old(self).world.bounds,
                self.enemy_spawn == cad_es,
                self.player_spawn == cad_ps,
                self.enemy_fire == cad_ef,
                0 <= k <= n,
                self.world@ == player_spawns(v1, now, k as nat),
            decreases n - k,
        {
            self.world.player_spawn(now);
            k = k + 1;
        }
        let ghost v2 = self.world@;
        let n = self.enemy_fire.advance(dt);
        proof {
            cad_ef = self.enemy_fire;
        }
        let mut k: u64 = 0;
        while k < n
            invariant
                self.wf(),
                self.world.bounds == old(self).world.bounds,
                self.enemy_spawn == cad_es,
                self.player_spawn == cad_ps,
                self.enemy_fire == cad_ef,
                0 <= k <= n,
                self.world@ == enemy_volleys(v2, k as nat),
            decreases n - k,
        {
            self.world.enemy_fire();
            k = k + 1;
        }
        let ghost a = self.world@;
        self.world.player_fire(controls.fire_held, controls.fire_released);
        let ghost b = self.world@;
        assert(b == player_fire_view(a, controls.fire_held, controls.fire_released));
        self.world.player_movement(controls.left, controls.right);
        self.world.laser_movement();
        let ghost after_player_lasers = self.world.lasers@;
        self.world.enemy_laser_movement();
        proof {
            let bd = self.world.bounds;
            assert forall|i: int| 0 <= i < self.world.lasers@.len() implies !out_of_play(
                #[trigger] self.world.lasers@[i],
                bd,
            ) by {
                let l = self.world.lasers@[i];
                if l.owner == Owner::FromPlayer {
                    let j = choose|j: int| 0 <= j < after_player_lasers.len() && after_player_lasers[j] == l;
                }
            }
        }
        self.world.enemy_movement(enemy_target);
        let ghost c = self.world@;
        assert(c == movement_view(b, controls.left, controls.right, enemy_target));
        let ghost after_moves = self.world.lasers@;
        self.world.player_laser_hit_enemy();
        let ghost d = self.world@;
        assert(d == player_hits_view(c));
        self.world.enemy_laser_hit_player(now);
        let ghost e = self.world@;
        assert(e == enemy_hits_view(d, now));
        self.world.explosion_to_spawn();
        self.world.animate_explosion(dt);
        proof {
            assert(self.world@ == effects_view(e, dt));
            assert forall|i: int| 0 <= i < self.world.lasers@.len() implies !out_of_play(
                #[trigger] self.world.lasers@[i],
                self.world.bounds,
            ) by {
                let l = self.world.lasers@[i];
                assert(after_moves.contains(l));
            }
            assert(self.world@ == frame_view(v0, ps, np as nat, n as nat, controls, now, dt, enemy_target));
        }
    }
}

} // verus!
