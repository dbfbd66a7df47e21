//! The kinds of entity in play and the constants of the game's rules.
use vstd::prelude::*;

use crate::geometry::{in_field, in_reach, Point, FIELD, UNIT};

verus! {

/// Simulation ticks in one second: the fixed timestep is 1/60 s.
pub const TICKS_PER_SECOND: i64 = 60;

/// Largest speed an entity may have, in units per second.
pub const MAX_SPEED: i64 = 1000000;

/// Speed of lasers and of the player ship, in units per second.
pub const DEFAULT_SPEED: i64 = 1000;

/// Speed of an enemy ship, in units per second.
pub const ENEMY_SPEED: i64 = 200;

/// Most enemies alive at once.
pub const ENEMY_CAP: u64 = 1;

/// Distance kept from the edge of the view when placing an enemy.
pub const SPAWN_MARGIN: i64 = 100000;

/// Distance below the view at which an enemy laser is removed.
pub const ENEMY_LASER_MARGIN: i64 = 50000;

/// Height of the player's ship above the bottom of the view.
pub const PLAYER_BASE_HEIGHT: i64 = 23750;

/// Horizontal offset of each of the player's two guns.
pub const GUN_OFFSET_X: i64 = 31000;

/// Height of the player's guns above the ship's centre.
pub const GUN_OFFSET_Y: i64 = 15000;

/// Time after the player's death before a new ship may appear, in ms.
pub const RESPAWN_DELAY_MS: u64 = 2000;

/// Frames in the explosion sprite sheet.
pub const FRAME_COUNT: u64 = 16;

/// Time each explosion frame is shown, in ms.
pub const FRAME_PERIOD_MS: u64 = 50;

/// Half-extents of the collision boxes (sprite half-size times scale).
pub const PLAYER_HALF_W: i64 = 36000;
pub const PLAYER_HALF_H: i64 = 18750;
pub const ENEMY_HALF_W: i64 = 23250;
pub const ENEMY_HALF_H: i64 = 21000;
pub const LASER_HALF_W: i64 = 2250;
pub const LASER_HALF_H: i64 = 13500;

pub open spec fn player_half() -> Point {
    Point { x: PLAYER_HALF_W, y: PLAYER_HALF_H }
}

pub open spec fn enemy_half() -> Point {
    Point { x: ENEMY_HALF_W, y: ENEMY_HALF_H }
}

pub open spec fn laser_half() -> Point {
    Point { x: LASER_HALF_W, y: LASER_HALF_H }
}

/// Distance covered in one tick at `speed` units per second, in sub-units.
pub open spec fn step_of(speed: int) -> int {
    speed * (UNIT as int) / (TICKS_PER_SECOND as int)
}

pub open spec fn speed_ok(speed: i64) -> bool {
    0 < speed <= MAX_SPEED
}

/// Distance covered in one tick at `speed`, rounded down.
pub fn tick_step(speed: i64) -> (r: i64)
    requires
        speed_ok(speed),
    ensures
        r == step_of(speed as int),
        0 <= r <= 16666667,
{
    speed * UNIT / TICKS_PER_SECOND
}

/// Which side fired a laser.
#[derive(Clone, Copy, Debug, PartialEq, Eq, Structural)]
pub enum Owner {
    FromPlayer,
    FromEnemy,
}

#[derive(Clone, Copy, Debug, PartialEq, Eq, Structural)]
pub struct Laser {
    pub pos: Point,
    pub owner: Owner,
    pub speed: i64,
}

impl Laser {
    /// Vertical displacement per tick: up for the player's, down for an enemy's.
    pub open spec fn velocity(self) -> int {
        match self.owner {
            Owner::FromPlayer => step_of(self.speed as int),
            Owner::FromEnemy => -step_of(self.speed as int),
        }
    }

    pub open spec fn wf(self) -> bool {
        in_reach(self.pos) && speed_ok(self.speed)
    }
}

/// A laser of the player's always travels up, one of an enemy's always down.
pub proof fn lemma_laser_direction(l: Laser)
    requires
        l.wf(),
    ensures
        l.owner == Owner::FromPlayer ==> l.velocity() > 0,
        l.owner == Owner::FromEnemy ==> l.velocity() < 0,
{
}

#[derive(Clone, Copy, Debug, PartialEq, Eq, Structural)]
pub struct Enemy {
    pub pos: Point,
    pub speed: i64,
}

impl Enemy {
    pub open spec fn wf(self) -> bool {
        in_field(self.pos) && self.speed == ENEMY_SPEED
    }
}

#[derive(Clone, Copy, Debug, PartialEq, Eq, Structural)]
pub struct Player {
    pub pos: Point,
    pub speed: i64,
    pub ready_to_fire: bool,
}

impl Player {
    pub open spec fn wf(self) -> bool {
        in_field(self.pos) && speed_ok(self.speed)
    }
}

/// A one-shot explosion animation.
#[derive(Clone, Copy, Debug, PartialEq, Eq, Structural)]
pub struct Explosion {
    pub pos: Point,
    pub frame: u64,
    pub elapsed_ms: u64,
}

impl Explosion {
    pub open spec fn wf(self) -> bool {
        in_field(self.pos) && self.frame < FRAME_COUNT && self.elapsed_ms < FRAME_PERIOD_MS
    }
}

/// Whether the player's ship is in play, and when it was last destroyed (ms).
#[derive(Clone, Copy, Debug, PartialEq, Eq, Structural)]
pub struct PlayerState {
    pub alive: bool,
    pub last_death: Option<u64>,
}

impl Default for PlayerState {
    fn default() -> (r: Self)
        ensures
            r == (PlayerState { alive: false, last_death: None }),
    {
        PlayerState { alive: false, last_death: None }
    }
}

impl PlayerState {
    /// Records the ship's destruction at time `now`.
    pub fn shot(&mut self, now: u64)
        ensures
            *final(self) == (PlayerState { alive: false, last_death: Some(now) }),
    {
        self.alive = false;
        self.last_death = Some(now);
    }

    /// Records that a new ship is in play.
    pub fn spawned(&mut self)
        ensures
            *final(self) == (PlayerState { alive: true, last_death: None }),
    {
        self.alive = true;
        self.last_death = None;
    }
}

/// Half-width and half-height of the view, fixed at startup.
#[derive(Clone, Copy, Debug, PartialEq, Eq, Structural)]
pub struct Bounds {
    pub half_w: i64,
    pub half_h: i64,
}

impl Bounds {
    /// Large enough to place an enemy, small enough to stay in the field.
    pub open spec fn wf(self) -> bool {
        SPAWN_MARGIN < self.half_w <= FIELD && SPAWN_MARGIN < self.half_h
            <= FIELD
    }
}

} // verus!
