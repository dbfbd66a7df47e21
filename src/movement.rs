//! Per-tick position updates: the player's ship, lasers, and enemy orbits.
use vstd::prelude::*;

use crate::entities::{
    step_of, tick_step, Bounds, Enemy, Laser, Owner, Player, ENEMY_LASER_MARGIN,
};
use crate::geometry::{between, in_field, lemma_step_bounded, step_to, step_toward, Point, FIELD};
use crate::world::World;

verus! {

/// Horizontal direction from the held keys: left wins over right.
pub open spec fn direction(left: bool, right: bool) -> int {
    if left { -1 } else if right { 1 } else { 0 }
}

pub open spec fn clamp_field(v: int) -> int {
    if v < -FIELD { -FIELD as int } else if v > FIELD { FIELD as int } else { v }
}

/// The player's ship after one tick of movement (kept inside the field).
pub open spec fn moved_player(p: Player, left: bool, right: bool) -> Player {
    Player {
        pos: Point {
            x: clamp_field(p.pos.x + direction(left, right) * step_of(p.speed as int)) as i64,
            y: p.pos.y,
        },
        ..p
    }
}

/// A laser after one tick of travel.
pub open spec fn advance(l: Laser) -> Laser {
    Laser { pos: Point { x: l.pos.x, y: (l.pos.y + l.velocity()) as i64 }, ..l }
}

/// A laser has left play: above the top of the view for the player's, below
/// the bottom (less a margin) for an enemy's.
pub open spec fn out_of_play(l: Laser, b: Bounds) -> bool {
    match l.owner {
        Owner::FromPlayer => l.pos.y > b.half_h,
        Owner::FromEnemy => l.pos.y < -b.half_h - ENEMY_LASER_MARGIN,
    }
}

/// The lasers of `owner` advanced by one tick, those that left play removed;
/// the other lasers unchanged; order kept.
pub open spec fn moved_lasers(s: Seq<Laser>, owner: Owner, b: Bounds) -> Seq<Laser>
    decreases s.len(),
{
    if s.len() == 0 {
        Seq::empty()
    } else {
        let rest = moved_lasers(s.drop_last(), owner, b);
        let l = s.last();
        if l.owner != owner {
            rest.push(l)
        } else if out_of_play(advance(l), b) {
            rest
        } else {
            rest.push(advance(l))
        }
    }
}

/// An enemy after one step toward `target`, at most its tick step long.
pub open spec fn moved_enemy(e: Enemy, target: Point) -> Enemy {
    let (x, y) = step_toward(e.pos, target, step_of(e.speed as int));
    Enemy { pos: Point { x: x as i64, y: y as i64 }, ..e }
}

/// Laser moves, laser by laser: a laser of `owner` stays, advanced, exactly
/// when its advanced position has not left play; every other laser stays as
/// it is; and nothing else is there.
pub proof fn lemma_moved_lasers(s: Seq<Laser>, owner: Owner, b: Bounds)
    ensures
        forall|i: int|
            0 <= i < s.len() && (#[trigger] s[i]).owner == owner && !out_of_play(advance(s[i]), b)
                ==> moved_lasers(s, owner, b).contains(advance(s[i])),
        forall|i: int|
            0 <= i < s.len() && (#[trigger] s[i]).owner != owner ==> moved_lasers(
                s,
                owner,
                b,
            ).contains(s[i]),
        forall|k: int|
            0 <= k < moved_lasers(s, owner, b).len() ==> exists|i: int|
                0 <= i < s.len() && ((s[i].owner == owner && #[trigger] moved_lasers(s, owner, b)[k]
                    == advance(s[i]) && !out_of_play(advance(s[i]), b)) || (s[i].owner != owner
                    && moved_lasers(s, owner, b)[k] == s[i])),
    decreases s.len(),
{
    if s.len() > 0 {
        let t = s.drop_last();
        let n = s.len() - 1;
        lemma_moved_lasers(t, owner, b);
        let r = moved_lasers(s, owner, b);
        let rt = moved_lasers(t, owner, b);
        assert(r.len() >= rt.len() && forall|k: int| 0 <= k < rt.len() ==> r[k] == rt[k]);
        assert forall|i: int|
            0 <= i < s.len() && (#[trigger] s[i]).owner == owner && !out_of_play(advance(s[i]), b)
                implies r.contains(advance(s[i])) by {
            if i < n {
                assert(t[i] == s[i]);
                let j = choose|j: int| 0 <= j < rt.len() && rt[j] == advance(t[i]);
                assert(r[j] == advance(s[i]));
            } else {
                assert(r[r.len() - 1] == advance(s[i]));
            }
        }
        assert forall|i: int| 0 <= i < s.len() && (#[trigger] s[i]).owner != owner implies r.contains(
            s[i],
        ) by {
            if i < n {
                assert(t[i] == s[i]);
                let j = choose|j: int| 0 <= j < rt.len() && rt[j] == t[i];
                assert(r[j] == s[i]);
            } else {
                assert(r[r.len() - 1] == s[i]);
            }
        }
        assert forall|k: int| 0 <= k < r.len() implies exists|i: int|
            0 <= i < s.len() && ((s[i].owner == owner && #[trigger] r[k] == advance(s[i])
                && !out_of_play(advance(s[i]), b)) || (s[i].owner != owner && r[k] == s[i])) by {
            if k < rt.len() {
                let i = choose|i: int|
                    0 <= i < t.len() && ((t[i].owner == owner && #[trigger] rt[k] == advance(t[i])
                        && !out_of_play(advance(t[i]), b)) || (t[i].owner != owner && rt[k] == t[i]));
                assert(s[i] == t[i]);
            } else {
                assert(s[n] == s.last());
            }
        }
    }
}

/// An enemy's orbital step is no longer than its tick step and passes the
/// orbit point on neither axis.
pub proof fn lemma_enemy_step(e: Enemy, target: Point)
    requires
        e.wf(),
        in_field(target),
    ensures
        ({
            let m = moved_enemy(e, target);
            let dx = m.pos.x - e.pos.x;
            let dy = m.pos.y - e.pos.y;
            &&& dx * dx + dy * dy <= step_of(e.speed as int) * step_of(e.speed as int)
            &&& between(e.pos.x as int, m.pos.x as int, target.x as int)
            &&& between(e.pos.y as int, m.pos.y as int, target.y as int)
        }),
{
    lemma_step_bounded(e.pos, target, step_of(e.speed as int));
}

/// Advances the lasers of `owner` and drops those that left play.
fn move_lasers(lasers: &Vec<Laser>, owner: Owner, b: Bounds) -> (r: Vec<Laser>)
    requires
        b.wf(),
        forall|i: int| 0 <= i < lasers@.len() ==> (#[trigger] lasers@[i]).wf(),
    ensures
        r@ == moved_lasers(lasers@, owner, b),
        forall|i: int| 0 <= i < r@.len() ==> (#[trigger] r@[i]).wf(),
        forall|i: int|
            0 <= i < r@.len() && (#[trigger] r@[i]).owner == owner ==> !out_of_play(r@[i], b),
        forall|i: int|
            0 <= i < r@.len() && (#[trigger] r@[i]).owner != owner ==> lasers@.contains(r@[i]),
{
    let mut r: Vec<Laser> = Vec::new();
    let n = lasers.len();
    let mut i: usize = 0;
    while i < n
        invariant
            n == lasers@.len(),
            0 <= i <= n,
            b.wf(),
            forall|k: int| 0 <= k < lasers@.len() ==> (#[trigger] lasers@[k]).wf(),
            r@ == moved_lasers(lasers@.subrange(0, i as int), owner, b),
            forall|k: int| 0 <= k < r@.len() ==> (#[trigger] r@[k]).wf(),
            forall|k: int|
                0 <= k < r@.len() && (#[trigger] r@[k]).owner == owner ==> !out_of_play(
                    r@[k],
                    b,
                ),
            forall|k: int|
                0 <= k < r@.len() && (#[trigger] r@[k]).owner != owner ==> lasers@.contains(r@[k]),
        decreases n - i,
    {
        let l = lasers[i];
        proof {
            assert(lasers@.subrange(0, i + 1).drop_last() =~= lasers@.subrange(0, i as int));
            assert(lasers@[i as int].wf());
        }
        if l.owner != owner {
            r.push(l);
            assert(lasers@[i as int] == l);
        } else {
            let step = tick_step(l.speed);
            let y = match l.owner {
                Owner::FromPlayer => l.pos.y + step,
                Owner::FromEnemy => l.pos.y - step,
            };
            let m = Laser { pos: Point { x: l.pos.x, y }, ..l };
            assert(m == advance(l));
            let gone = match l.owner {
                Owner::FromPlayer => y > b.half_h,
                Owner::FromEnemy => y < -b.half_h - ENEMY_LASER_MARGIN,
            };
            if !gone {
                r.push(m);
            }
        }
        i = i + 1;
    }
    assert(lasers@.subrange(0, n as int) =~= lasers@);
    r
}

impl World {
    /// Moves the player's ship along x by its tick step: left if left is
    /// held, else right if right is held.  Without a ship nothing happens.
    pub fn player_movement(&mut self, left: bool, right: bool)
        requires
            old(self).wf(),
        ensures
            final(self).wf(),
            *final(self) == (World {
                player: match old(self).player {
                    None => None,
                    Some(p) => Some(moved_player(p, left, right)),
                },
                ..*old(self)
            }),
    {
        match self.player {
            None => {},
            Some(p) => {
                let step = tick_step(p.speed);
                let dx: i64 = if left {
                    -step
                } else if right {
                    step
                } else {
                    0
                };
                let x = p.pos.x + dx;
                let x = if x < -FIELD {
                    -FIELD
                } else if x > FIELD {
                    FIELD
                } else {
                    x
                };
                self.player = Some(Player { pos: Point { x, y: p.pos.y }, ..p });
            },
        }
    }

    /// Moves the player's lasers up by their tick step and removes those
    /// that passed the top of the view.
    pub fn laser_movement(&mut self)
        requires
            old(self).wf(),
        ensures
            final(self).wf(),
            *final(self) == (World { lasers: final(self).lasers, ..*old(self) }),
            final(self).lasers@ == moved_lasers(old(self).lasers@, Owner::FromPlayer, old(self).bounds),
            forall|i: int|
                0 <= i < final(self).lasers@.len() && (#[trigger] final(self).lasers@[i]).owner
                    == Owner::FromPlayer ==> !out_of_play(final(self).lasers@[i], final(self).bounds),
            forall|i: int|
                0 <= i < final(self).lasers@.len() && (#[trigger] final(self).lasers@[i]).owner
                    == Owner::FromEnemy ==> old(self).lasers@.contains(final(self).lasers@[i]),
    {
        self.lasers = move_lasers(&self.lasers, Owner::FromPlayer, self.bounds);
    }

    /// Moves the enemies' lasers down by their tick step and removes those
    /// that passed the bottom of the view by more than the margin.
    pub fn enemy_laser_movement(&mut self)
        requires
            old(self).wf(),
        ensures
            final(self).wf(),
            *final(self) == (World { lasers: final(self).lasers, ..*old(self) }),
            final(self).lasers@ == moved_lasers(old(self).lasers@, Owner::FromEnemy, old(self).bounds),
            forall|i: int|
                0 <= i < final(self).lasers@.len() && (#[trigger] final(self).lasers@[i]).owner
                    == Owner::FromEnemy ==> !out_of_play(final(self).lasers@[i], final(self).bounds),
            forall|i: int|
                0 <= i < final(self).lasers@.len() && (#[trigger] final(self).lasers@[i]).owner
                    == Owner::FromPlayer ==> old(self).lasers@.contains(final(self).lasers@[i]),
    {
        self.lasers = move_lasers(&self.lasers, Owner::FromEnemy, self.bounds);
    }

    /// Moves every enemy one bounded step toward the orbit point `target`.
    pub fn enemy_movement(&mut self, target: Point)
        requires
            old(self).wf(),
            in_field(target),
        ensures
            final(self).wf(),
            *final(self) == (World { enemies: final(self).enemies, ..*old(self) }),
            final(self).enemies@ == old(self).enemies@.map_values(|e: Enemy| moved_enemy(e, target)),
    {
        let ghost start = self.enemies@;
        let n = self.enemies.len();
        let mut moved: Vec<Enemy> = Vec::new();
        let mut i: usize = 0;
        while i < n
            invariant
                n == start.len(),
                0 <= i <= n,
                old(self).wf(),
                *self == *old(self),
                start == old(self).enemies@,
                in_field(target),
                moved@ == start.subrange(0, i as int).map_values(|e: Enemy| moved_enemy(e, target)),
                forall|k: int| 0 <= k < moved@.len() ==> (#[trigger] moved@[k]).wf(),
            decreases n - i,
        {
            let e = self.enemies[i];
            assert(start[i as int].wf());
            let pos = step_to(e.pos, target, tick_step(e.speed));
            moved.push(Enemy { pos, ..e });
            assert(start.subrange(0, i + 1) =~= start.subrange(0, i as int).push(start[i as int]));
            assert(moved@ =~= start.subrange(0, i + 1).map_values(|e: Enemy| moved_enemy(e, target)));
            i = i + 1;
        }
        assert(start.subrange(0, n as int) =~= start);
        self.enemies = moved;
    }
}

} // verus!
