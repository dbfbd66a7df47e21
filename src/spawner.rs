//! Gated creation of ships and lasers.
use vstd::prelude::*;

use crate::entities::{
    Enemy, Laser, Owner, Player, PlayerState, DEFAULT_SPEED, ENEMY_CAP, ENEMY_SPEED,
    GUN_OFFSET_X, GUN_OFFSET_Y, PLAYER_BASE_HEIGHT, RESPAWN_DELAY_MS, SPAWN_MARGIN,
};
use crate::geometry::Point;
use crate::world::{World, WorldView};

verus! {

/// Relies on rand's `thread_rng().gen_range(lo..hi)`: a value drawn from the
/// half-open range `lo..hi`, which panics when the range is empty.
#[verifier::external_body]
fn random_in(lo: i64, hi: i64) -> (r: i64)
    requires
        lo < hi,
    ensures
        lo <= r < hi,
{
    rand::Rng::gen_range(&mut rand::thread_rng(), lo..hi)
}

/// The enemy spawn area: the view shrunk by the margin on each side.
pub open spec fn in_spawn_area(w: &World, x: i64, y: i64) -> bool {
    -(w.bounds.half_w - SPAWN_MARGIN) <= x < w.bounds.half_w - SPAWN_MARGIN
        && -(w.bounds.half_h - SPAWN_MARGIN) <= y < w.bounds.half_h - SPAWN_MARGIN
}

/// Where a new player ship appears: centred, near the bottom of the view.
pub open spec fn player_start(w: &World) -> Point {
    Point { x: 0, y: (-w.bounds.half_h + PLAYER_BASE_HEIGHT) as i64 }
}

/// The player may respawn at `now`: no ship is in play, and either none was
/// ever destroyed or the respawn delay has passed since the last death.
pub open spec fn may_respawn(s: PlayerState, now: u64) -> bool {
    !s.alive && match s.last_death {
        None => true,
        Some(t) => now > t + RESPAWN_DELAY_MS,
    }
}

/// The laser an enemy fires from where it stands.
pub open spec fn enemy_shot(e: Enemy) -> Laser {
    Laser { pos: e.pos, owner: Owner::FromEnemy, speed: DEFAULT_SPEED }
}

/// The laser fired by the player's gun at horizontal offset `dx`.
pub open spec fn player_shot(p: Player, dx: int) -> Laser {
    Laser {
        pos: Point { x: (p.pos.x + dx) as i64, y: (p.pos.y + GUN_OFFSET_Y) as i64 },
        owner: Owner::FromPlayer,
        speed: DEFAULT_SPEED,
    }
}

/// The enemy spawn action over the model, with the drawn position `q`.
pub open spec fn enemy_spawn_view(v: WorldView, q: Point) -> WorldView {
    if v.active_enemies < ENEMY_CAP {
        WorldView {
            enemies: v.enemies.push(Enemy { pos: q, speed: ENEMY_SPEED }),
            active_enemies: (v.active_enemies + 1) as u64,
            ..v
        }
    } else {
        v
    }
}

impl World {
    /// Places an enemy at (`x`, `y`) when fewer than the cap are alive;
    /// otherwise leaves the world as it is.
    pub fn spawn_enemy_at(&mut self, x: i64, y: i64)
        requires
            old(self).wf(),
            in_spawn_area(old(self), x, y),
        ensures
            final(self).wf(),
            old(self).active_enemies < ENEMY_CAP ==> *final(self) == (World {
                enemies: final(self).enemies,
                active_enemies: (old(self).active_enemies + 1) as u64,
                ..*old(self)
            }) && final(self).enemies@ == old(self).enemies@.push(
                Enemy { pos: Point { x, y }, speed: ENEMY_SPEED },
            ),
            old(self).active_enemies >= ENEMY_CAP ==> *final(self) == *old(self),
    {
        if self.active_enemies < ENEMY_CAP {
            self.enemies.push(Enemy { pos: Point { x, y }, speed: ENEMY_SPEED });
            self.active_enemies = self.active_enemies + 1;
            assert(self.enemies@.last().wf());
        }
    }

    /// Enemy spawn action: below the cap, an enemy appears at a random place
    /// in the spawn area; at the cap nothing happens.
    pub fn enemy_spawn(&mut self)
        requires
            old(self).wf(),
        ensures
            final(self).wf(),
            old(self).active_enemies < ENEMY_CAP ==> exists|x: i64, y: i64|
                #![auto]
                in_spawn_area(old(self), x, y) && *final(self) == (World {
                    enemies: final(self).enemies,
                    active_enemies: (old(self).active_enemies + 1) as u64,
                    ..*old(self)
                }) && final(self).enemies@ == old(self).enemies@.push(
                    Enemy { pos: Point { x, y }, speed: ENEMY_SPEED },
                ),
            old(self).active_enemies >= ENEMY_CAP ==> *final(self) == *old(self),
            exists|q: Point|
                #![auto]
                in_spawn_area(old(self), q.x, q.y) && final(self)@ == enemy_spawn_view(old(self)@, q),
    {
        if self.active_enemies >= ENEMY_CAP {
            assert(in_spawn_area(old(self), 0, 0) && self@ == enemy_spawn_view(old(self)@, Point { x: 0, y: 0 }));
        }
        if self.active_enemies < ENEMY_CAP {
            let w_span = self.bounds.half_w - SPAWN_MARGIN;
            let h_span = self.bounds.half_h - SPAWN_MARGIN;
            let x = random_in(-w_span, w_span);
            let y = random_in(-h_span, h_span);
            self.spawn_enemy_at(x, y);
            assert(in_spawn_area(old(self), x, y) && self.enemies@ == old(self).enemies@.push(
                Enemy { pos: Point { x, y }, speed: ENEMY_SPEED },
            ));
            assert(self@ == enemy_spawn_view(old(self)@, Point { x, y }));
        }
    }

    /// Player spawn action: when `may_respawn` holds, a ship ready to fire
    /// appears at the start position and the death time is cleared.
    pub fn player_spawn(&mut self, now: u64)
        requires
            old(self).wf(),
        ensures
            final(self).wf(),
            may_respawn(old(self).player_state, now) ==> *final(self) == (World {
                player: Some(
                    Player { pos: player_start(old(self)), speed: DEFAULT_SPEED, ready_to_fire: true },
                ),
                player_state: PlayerState { alive: true, last_death: None },
                ..*old(self)
            }),
            !may_respawn(old(self).player_state, now) ==> *final(self) == *old(self),
    {
        let due = match self.player_state.last_death {
            None => true,
            Some(t) => now >= t && now - t > RESPAWN_DELAY_MS,
        };
        if !self.player_state.alive && due {
            let bottom = -self.bounds.half_h;
            self.player = Some(
                Player {
                    pos: Point { x: 0, y: bottom + PLAYER_BASE_HEIGHT },
                    speed: DEFAULT_SPEED,
                    ready_to_fire: true,
                },
            );
            self.player_state.spawned();
        }
    }

    /// Enemy fire action: each enemy fires one downward laser from where it
    /// stands, in the order of the enemies.
    pub fn enemy_fire(&mut self)
        requires
            old(self).wf(),
        ensures
            final(self).wf(),
            *final(self) == (World { lasers: final(self).lasers, ..*old(self) }),
            final(self).lasers@ == old(self).lasers@ + old(self).enemies@.map_values(
                |e: Enemy| enemy_shot(e),
            ),
    {
        let ghost start = self.lasers@;
        let n = self.enemies.len();
        let mut i: usize = 0;
        while i < n
            invariant
                n == self.enemies@.len(),
                old(self).wf(),
                *self == (World { lasers: self.lasers, ..*old(self) }),
                start == old(self).lasers@,
                0 <= i <= n,
                self.lasers@ == start + old(self).enemies@.subrange(0, i as int).map_values(
                    |e: Enemy| enemy_shot(e),
                ),
            decreases n - i,
        {
            let pos = self.enemies[i].pos;
            self.lasers.push(Laser { pos, owner: Owner::FromEnemy, speed: DEFAULT_SPEED });
            proof {
                assert(old(self).enemies@.subrange(0, i + 1) =~= old(self).enemies@.subrange(
                    0,
                    i as int,
                ).push(old(self).enemies@[i as int]));
                assert(self.lasers@ =~= start + old(self).enemies@.subrange(
                    0,
                    i + 1,
                ).map_values(|e: Enemy| enemy_shot(e)));
            }
            i = i + 1;
        }
        proof {
            assert(old(self).enemies@.subrange(0, n as int) =~= old(self).enemies@);
            assert forall|k: int| 0 <= k < self.lasers@.len() implies (
            #[trigger] self.lasers@[k]).wf() by {
                if k >= start.len() {
                    assert(old(self).enemies@[k - start.len()].wf());
                }
            }
        }
    }

    /// Player fire: while the ship is ready and fire is held, it fires one
    /// upward laser from each gun (right gun first) and stops being ready;
    /// releasing fire makes it ready again.  Without a ship nothing happens.
    pub fn player_fire(&mut self, fire_held: bool, fire_released: bool)
        requires
            old(self).wf(),
        ensures
            final(self).wf(),
            match old(self).player {
                None => *final(self) == *old(self),
                Some(p) => {
                    let fires = p.ready_to_fire && fire_held;
                    &&& *final(self) == (World {
                        player: Some(
                            Player {
                                ready_to_fire: if fire_released {
                                    true
                                } else if fires {
                                    false
                                } else {
                                    p.ready_to_fire
                                },
                                ..p
                            },
                        ),
                        lasers: final(self).lasers,
                        ..*old(self)
                    })
                    &&& final(self).lasers@ == if fires {
                        old(self).lasers@.push(player_shot(p, GUN_OFFSET_X as int)).push(
                            player_shot(p, -GUN_OFFSET_X),
                        )
                    } else {
                        old(self).lasers@
                    }
                },
            },
    {
        match self.player {
            None => {},
            Some(p) => {
                let mut ready = p.ready_to_fire;
                if ready && fire_held {
                    ready = false;
                    let x = p.pos.x;
                    let y = p.pos.y + GUN_OFFSET_Y;
                    self.lasers.push(
                        Laser {
                            pos: Point { x: x + GUN_OFFSET_X, y },
                            owner: Owner::FromPlayer,
                            speed: DEFAULT_SPEED,
                        },
                    );
                    self.lasers.push(
                        Laser {
                            pos: Point { x: x - GUN_OFFSET_X, y },
                            owner: Owner::FromPlayer,
                            speed: DEFAULT_SPEED,
                        },
                    );
                }
                if fire_released {
                    ready = true;
                }
                self.player = Some(Player { ready_to_fire: ready, ..p });
            },
        }
    }
}

} // verus!
