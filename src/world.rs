//! The simulation context: every live entity and the process-wide state.
use vstd::prelude::*;

use crate::entities::{Bounds, Enemy, Explosion, Laser, Player, PlayerState};
use crate::geometry::{in_field, Point};

verus! {

/// All live entities, grouped by kind, and the state shared by the passes.
pub struct World {
    pub bounds: Bounds,
    pub player: Option<Player>,
    pub player_state: PlayerState,
    pub enemies: Vec<Enemy>,
    /// Number of live enemies, kept by the spawner and the collision pass.
    pub active_enemies: u64,
    pub lasers: Vec<Laser>,
    /// Positions at which an explosion is to appear.
    pub pending: Vec<Point>,
    pub explosions: Vec<Explosion>,
}

/// The world as values: each list of entities as a sequence.
pub struct WorldView {
    pub bounds: Bounds,
    pub player: Option<Player>,
    pub player_state: PlayerState,
    pub enemies: Seq<Enemy>,
    pub active_enemies: u64,
    pub lasers: Seq<Laser>,
    pub pending: Seq<Point>,
    pub explosions: Seq<Explosion>,
}

impl View for World {
    type V = WorldView;

    open spec fn view(&self) -> WorldView {
        WorldView {
            bounds: self.bounds,
            player: self.player,
            player_state: self.player_state,
            enemies: self.enemies@,
            active_enemies: self.active_enemies,
            lasers: self.lasers@,
            pending: self.pending@,
            explosions: self.explosions@,
        }
    }
}

impl World {
    /// The state is consistent: the enemy count matches the live enemies, the
    /// player state matches the (single, optional) player ship, and every
    /// entity lies where the fixed-point arithmetic stays exact.
    pub open spec fn wf(&self) -> bool {
        &&& self.bounds.wf()
        &&& self.active_enemies == self.enemies@.len()
        &&& self.player_state.alive == self.player.is_some()
        &&& (self.player matches Some(p) ==> p.wf())
        &&& forall|i: int| 0 <= i < self.enemies@.len() ==> (#[trigger] self.enemies@[i]).wf()
        &&& forall|i: int| 0 <= i < self.lasers@.len() ==> (#[trigger] self.lasers@[i]).wf()
        &&& forall|i: int| 0 <= i < self.pending@.len() ==> in_field(#[trigger] self.pending@[i])
        &&& forall|i: int|
            0 <= i < self.explosions@.len() ==> (#[trigger] self.explosions@[i]).wf()
    }

    /// An empty play area of the given size; no ship is in play yet.
    pub fn new(bounds: Bounds) -> (r: World)
        requires
            bounds.wf(),
        ensures
            r.wf(),
            r.bounds == bounds,
            r.player.is_none(),
            r.player_state == (PlayerState { alive: false, last_death: None }),
            r.enemies@.len() == 0,
            r.lasers@.len() == 0,
            r.pending@.len() == 0,
            r.explosions@.len() == 0,
    {
        World {
            bounds,
            player: None,
            player_state: PlayerState::default(),
            enemies: Vec::new(),
            active_enemies: 0,
            lasers: Vec::new(),
            pending: Vec::new(),
            explosions: Vec::new(),
        }
    }
}

} // verus!
