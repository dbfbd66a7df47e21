use invaders::entities::{
    tick_step, Bounds, Enemy, Explosion, Laser, Owner, Player, PlayerState, DEFAULT_SPEED,
    ENEMY_SPEED,
};
use invaders::geometry::{ceil_sqrt, overlaps, step_to, Point};
use invaders::schedule::{Cadence, Controls, Game};
use invaders::world::World;

fn bounds() -> Bounds {
    Bounds { half_w: 300000, half_h: 338000 }
}

fn pt(x: i64, y: i64) -> Point {
    Point { x, y }
}

fn laser(x: i64, y: i64, owner: Owner) -> Laser {
    Laser { pos: pt(x, y), owner, speed: DEFAULT_SPEED }
}

#[test]
fn tick_step_is_speed_per_sixtieth_second() {
    assert_eq!(tick_step(1000), 16666);
    assert_eq!(tick_step(200), 3333);
}

#[test]
fn ceil_sqrt_rounds_up() {
    assert_eq!(ceil_sqrt(0), 0);
    assert_eq!(ceil_sqrt(1), 1);
    assert_eq!(ceil_sqrt(2), 2);
    assert_eq!(ceil_sqrt(4), 2);
    assert_eq!(ceil_sqrt(5), 3);
    assert_eq!(ceil_sqrt(32_500_000_000), 180278);
    assert_eq!(ceil_sqrt(u64::MAX), 4294967296);
}

#[test]
fn enemy_steps_toward_orbit_point() {
    let mut w = World::new(bounds());
    w.spawn_enemy_at(0, 0);
    w.enemy_movement(pt(150000, 100000));
    let e = w.enemies[0];
    assert_eq!(e.pos, pt(2773, 1848));
    let len2 = e.pos.x * e.pos.x + e.pos.y * e.pos.y;
    assert!(len2 <= 3333 * 3333);
    assert!(e.pos.x <= 150000 && e.pos.y <= 100000);
}

#[test]
fn step_reaches_target_within_reach() {
    assert_eq!(step_to(pt(0, 0), pt(1000, 1000), 3333), pt(1000, 1000));
    assert_eq!(step_to(pt(5, 7), pt(5, 7), 3333), pt(5, 7));
    assert_eq!(step_to(pt(0, 0), pt(-10000, 0), 3333), pt(-3333, 0));
}

#[test]
fn boxes_overlap_when_both_axes_close() {
    assert!(overlaps(pt(10, 10), pt(5, 5), pt(13, 10), pt(5, 5)));
    assert!(!overlaps(pt(10, 10), pt(5, 5), pt(20, 10), pt(5, 5)));
    assert!(!overlaps(pt(10, 10), pt(5, 5), pt(13, 20), pt(5, 5)));
}

#[test]
fn player_laser_destroys_enemy() {
    let mut w = World::new(bounds());
    w.spawn_enemy_at(13000, 10000);
    w.lasers.push(laser(10000, 10000, Owner::FromPlayer));
    w.player_laser_hit_enemy();
    assert!(w.enemies.is_empty());
    assert_eq!(w.active_enemies, 0);
    assert!(w.lasers.is_empty());
    assert_eq!(w.pending, vec![pt(13000, 10000)]);
}

#[test]
fn second_laser_on_same_enemy_does_not_count_twice() {
    let mut w = World::new(bounds());
    w.spawn_enemy_at(0, 0);
    w.lasers.push(laser(0, 0, Owner::FromPlayer));
    w.lasers.push(laser(1000, 0, Owner::FromPlayer));
    w.lasers.push(laser(0, 0, Owner::FromEnemy));
    w.player_laser_hit_enemy();
    assert_eq!(w.active_enemies, 0);
    assert_eq!(w.lasers, vec![laser(1000, 0, Owner::FromPlayer), laser(0, 0, Owner::FromEnemy)]);
    assert_eq!(w.pending.len(), 1);
}

#[test]
fn enemy_laser_destroys_player() {
    let mut w = World::new(bounds());
    w.player_spawn(0);
    let p = w.player.unwrap();
    w.lasers.push(laser(p.pos.x + 500000, p.pos.y, Owner::FromEnemy));
    w.lasers.push(laser(p.pos.x, p.pos.y, Owner::FromEnemy));
    w.lasers.push(laser(p.pos.x, p.pos.y + 1000, Owner::FromEnemy));
    w.enemy_laser_hit_player(10000);
    assert!(w.player.is_none());
    assert_eq!(w.player_state, PlayerState { alive: false, last_death: Some(10000) });
    assert_eq!(w.lasers.len(), 2);
    assert_eq!(w.lasers[1].pos.y, p.pos.y + 1000);
    assert_eq!(w.pending, vec![p.pos]);
}

#[test]
fn enemy_cap_holds() {
    let mut w = World::new(bounds());
    w.enemy_spawn();
    assert_eq!(w.active_enemies, 1);
    let before = w.enemies.clone();
    w.enemy_spawn();
    assert_eq!(w.active_enemies, 1);
    assert_eq!(w.enemies, before);
}

#[test]
fn enemy_spawns_inside_shrunk_view() {
    for _ in 0..200 {
        let mut w = World::new(bounds());
        w.enemy_spawn();
        assert_eq!(w.enemies.len(), 1);
        let e = w.enemies[0];
        assert_eq!(e.speed, ENEMY_SPEED);
        assert!(-200000 <= e.pos.x && e.pos.x < 200000);
        assert!(-238000 <= e.pos.y && e.pos.y < 238000);
    }
}

#[test]
fn enemy_spawn_positions_vary() {
    let mut seen = Vec::new();
    for _ in 0..20 {
        let mut w = World::new(bounds());
        w.enemy_spawn();
        seen.push(w.enemies[0].pos);
    }
    assert!(seen.iter().any(|p| *p != seen[0]));
}

#[test]
fn respawn_waits_for_delay() {
    let mut w = World::new(bounds());
    w.player_spawn(0);
    assert!(w.player_state.alive);
    w.player = None;
    w.player_state.shot(10000);
    w.player_spawn(11500);
    assert!(w.player.is_none());
    assert!(!w.player_state.alive);
    w.player_spawn(12000);
    assert!(w.player.is_none());
    w.player_spawn(12100);
    assert!(w.player_state.alive);
    assert_eq!(w.player_state.last_death, None);
    let p = w.player.unwrap();
    assert_eq!(p.pos, pt(0, -338000 + 23750));
    assert!(p.ready_to_fire);
}

#[test]
fn explosion_runs_sixteen_frames() {
    let mut w = World::new(bounds());
    w.pending.push(pt(1000, 2000));
    w.explosion_to_spawn();
    assert!(w.pending.is_empty());
    assert_eq!(w.explosions, vec![Explosion { pos: pt(1000, 2000), frame: 0, elapsed_ms: 0 }]);
    for tick in 1..16u64 {
        w.animate_explosion(50);
        assert_eq!(w.explosions.len(), 1);
        assert_eq!(w.explosions[0].frame, tick);
    }
    w.animate_explosion(50);
    assert!(w.explosions.is_empty());
}

#[test]
fn explosion_timer_accumulates() {
    let mut w = World::new(bounds());
    w.pending.push(pt(0, 0));
    w.explosion_to_spawn();
    w.animate_explosion(30);
    assert_eq!(w.explosions[0].frame, 0);
    assert_eq!(w.explosions[0].elapsed_ms, 30);
    w.animate_explosion(30);
    assert_eq!(w.explosions[0].frame, 1);
    assert_eq!(w.explosions[0].elapsed_ms, 0);
}

#[test]
fn lasers_travel_and_leave_play() {
    let mut w = World::new(bounds());
    w.lasers.push(laser(0, 0, Owner::FromPlayer));
    w.lasers.push(laser(0, 338000, Owner::FromPlayer));
    w.lasers.push(laser(0, 0, Owner::FromEnemy));
    w.lasers.push(laser(0, -388000, Owner::FromEnemy));
    w.laser_movement();
    assert_eq!(w.lasers.len(), 3);
    assert_eq!(w.lasers[0].pos.y, 16666);
    assert_eq!(w.lasers[1].pos.y, 0);
    w.enemy_laser_movement();
    assert_eq!(w.lasers.len(), 2);
    assert_eq!(w.lasers[1].pos.y, -16666);
    assert_eq!(w.lasers[1].owner, Owner::FromEnemy);
}

#[test]
fn player_moves_with_keys() {
    let mut w = World::new(bounds());
    w.player_spawn(0);
    w.player_movement(true, false);
    assert_eq!(w.player.unwrap().pos.x, -16666);
    w.player_movement(false, true);
    assert_eq!(w.player.unwrap().pos.x, 0);
    w.player_movement(true, true);
    assert_eq!(w.player.unwrap().pos.x, -16666);
    w.player_movement(false, false);
    assert_eq!(w.player.unwrap().pos.x, -16666);
}

#[test]
fn player_fires_one_volley_per_press() {
    let mut w = World::new(bounds());
    w.player_spawn(0);
    let p = w.player.unwrap();
    w.player_fire(true, false);
    assert_eq!(
        w.lasers,
        vec![
            laser(31000, p.pos.y + 15000, Owner::FromPlayer),
            laser(-31000, p.pos.y + 15000, Owner::FromPlayer)
        ]
    );
    assert!(!w.player.unwrap().ready_to_fire);
    w.player_fire(true, false);
    assert_eq!(w.lasers.len(), 2);
    w.player_fire(false, true);
    assert!(w.player.unwrap().ready_to_fire);
    w.player_fire(true, false);
    assert_eq!(w.lasers.len(), 4);
}

#[test]
fn enemies_fire_downward() {
    let mut w = World::new(bounds());
    w.spawn_enemy_at(5000, 6000);
    w.enemy_fire();
    assert_eq!(w.lasers, vec![laser(5000, 6000, Owner::FromEnemy)]);
}

#[test]
fn cadence_counts_whole_periods() {
    let mut c = Cadence::new(1000);
    assert_eq!(c.advance(1500), 1);
    assert_eq!(c.acc_ms, 500);
    assert_eq!(c.advance(600), 1);
    assert_eq!(c.acc_ms, 100);
    assert_eq!(c.advance(2900), 3);
    assert_eq!(c.acc_ms, 0);
}

#[test]
fn player_state_transitions() {
    let mut s = PlayerState::default();
    assert_eq!(s, PlayerState { alive: false, last_death: None });
    s.spawned();
    assert_eq!(s, PlayerState { alive: true, last_death: None });
    s.shot(42);
    assert_eq!(s, PlayerState { alive: false, last_death: Some(42) });
}

#[test]
fn game_frames_keep_counts_consistent() {
    let mut g = Game::new(bounds());
    assert!(g.world.player.is_some());
    let controls = Controls { left: false, right: true, fire_held: true, fire_released: false };
    let mut now: u64 = 0;
    for _ in 0..300 {
        now += 16;
        g.frame(controls, now, 16, pt(150000, 100000));
        assert_eq!(g.world.active_enemies as usize, g.world.enemies.len());
        assert_eq!(g.world.player_state.alive, g.world.player.is_some());
        for l in g.world.lasers.iter() {
            match l.owner {
                Owner::FromPlayer => assert!(l.pos.y <= 338000),
                Owner::FromEnemy => assert!(l.pos.y >= -388000),
            }
        }
    }
    assert_eq!(g.world.enemies.len(), 1);
    let _ = Enemy { pos: pt(0, 0), speed: ENEMY_SPEED };
    let _ = Player { pos: pt(0, 0), speed: DEFAULT_SPEED, ready_to_fire: true };
}

#[test]
fn new_game_starts_with_ship_and_idle_timers() {
    let g = Game::new(bounds());
    assert_eq!(
        g.world.player,
        Some(Player { pos: pt(0, -338000 + 23750), speed: DEFAULT_SPEED, ready_to_fire: true })
    );
    assert_eq!(g.world.player_state, PlayerState { alive: true, last_death: None });
    assert_eq!(g.world.active_enemies, 0);
    assert!(g.world.pending.is_empty());
    assert_eq!(g.enemy_spawn, Cadence { period_ms: 1000, acc_ms: 0 });
    assert_eq!(g.player_spawn, Cadence { period_ms: 500, acc_ms: 0 });
    assert_eq!(g.enemy_fire, Cadence { period_ms: 2000, acc_ms: 0 });
}

#[test]
fn frame_runs_interval_actions_when_due() {
    let mut g = Game::new(bounds());
    let idle = Controls { left: false, right: false, fire_held: false, fire_released: false };
    g.frame(idle, 999, 999, pt(150000, 100000));
    assert!(g.world.enemies.is_empty());
    g.frame(idle, 1000, 1, pt(150000, 100000));
    assert_eq!(g.world.enemies.len(), 1);
    assert!(g.world.lasers.is_empty());
    g.frame(idle, 2000, 1000, pt(150000, 100000));
    assert_eq!(g.world.lasers.len(), 1);
    assert_eq!(g.world.lasers[0].owner, Owner::FromEnemy);
    assert_eq!(g.enemy_fire.acc_ms, 0);
}
