//! Laser impacts: the player's lasers against enemies, the enemies' against
//! the player's ship.  Hits are gathered first and applied afterwards, so a
//! pass always sees the entities as they stood at its start.
use vstd::prelude::*;

use crate::entities::{
    enemy_half, laser_half, player_half, Enemy, Laser, Owner, Player, PlayerState, ENEMY_HALF_H,
    ENEMY_HALF_W, LASER_HALF_H, LASER_HALF_W, PLAYER_HALF_H, PLAYER_HALF_W,
};
use crate::geometry::{boxes_overlap, in_field, overlaps, Point};
use crate::world::World;

verus! {

/// Laser `l` touches a box centred at `pos` with half-extents `half`.
pub open spec fn laser_touches(l: Laser, pos: Point, half: Point) -> bool {
    boxes_overlap(l.pos, laser_half(), pos, half)
}

/// The first enemy from index `j` on, not already hit, that `l` touches.
pub open spec fn first_target(l: Laser, es: Seq<Enemy>, hit: Seq<bool>, j: int) -> Option<int>
    decreases es.len() - j,
{
    if j < 0 || j >= es.len() {
        None
    } else if !hit[j] && laser_touches(l, es[j].pos, enemy_half()) {
        Some(j)
    } else {
        first_target(l, es, hit, j + 1)
    }
}

/// Taking the player's lasers in order, each destroys the first enemy it
/// touches that no earlier laser destroyed.  Yields which lasers hit, which
/// enemies were hit, and where the explosions go (the enemies' positions).
pub open spec fn player_hits(ls: Seq<Laser>, es: Seq<Enemy>) -> (Seq<bool>, Seq<bool>, Seq<Point>)
    decreases ls.len(),
{
    if ls.len() == 0 {
        (Seq::empty(), Seq::new(es.len(), |j: int| false), Seq::empty())
    } else {
        let (lh, eh, fx) = player_hits(ls.drop_last(), es);
        let l = ls.last();
        if l.owner == Owner::FromPlayer {
            match first_target(l, es, eh, 0) {
                Some(j) => (lh.push(true), eh.update(j, true), fx.push(es[j].pos)),
                None => (lh.push(false), eh, fx),
            }
        } else {
            (lh.push(false), eh, fx)
        }
    }
}

/// The items of `s` whose mark in `gone` is false, in order.
pub open spec fn survivors<T>(s: Seq<T>, gone: Seq<bool>) -> Seq<T>
    decreases s.len(),
{
    if s.len() == 0 {
        Seq::empty()
    } else {
        let rest = survivors(s.drop_last(), gone.drop_last());
        if gone.last() {
            rest
        } else {
            rest.push(s.last())
        }
    }
}

/// The first enemy laser from index `i` on that touches the ship `p`.
pub open spec fn first_hit_on(ls: Seq<Laser>, p: Player, i: int) -> Option<int>
    decreases ls.len() - i,
{
    if i < 0 || i >= ls.len() {
        None
    } else if ls[i].owner == Owner::FromEnemy && laser_touches(ls[i], p.pos, player_half()) {
        Some(i)
    } else {
        first_hit_on(ls, p, i + 1)
    }
}

/// What survives was there before, and there is no more of it.
pub proof fn lemma_survivors_from<T>(s: Seq<T>, gone: Seq<bool>)
    requires
        gone.len() == s.len(),
    ensures
        survivors(s, gone).len() <= s.len(),
        forall|k: int|
            0 <= k < survivors(s, gone).len() ==> exists|j: int|
                0 <= j < s.len() && #[trigger] survivors(s, gone)[k] == s[j],
    decreases s.len(),
{
    if s.len() > 0 {
        let r = survivors(s, gone);
        let rest = survivors(s.drop_last(), gone.drop_last());
        lemma_survivors_from(s.drop_last(), gone.drop_last());
        assert forall|k: int| 0 <= k < r.len() implies exists|j: int|
            0 <= j < s.len() && #[trigger] r[k] == s[j] by {
            if k < rest.len() {
                let j = choose|j: int| 0 <= j < s.drop_last().len() && rest[k] == s.drop_last()[j];
                assert(r[k] == s[j]);
            } else {
                assert(r[k] == s[s.len() - 1]);
            }
        }
    }
}

/// Keeps the items whose mark is false.
fn keep_unmarked<T: Copy>(s: &Vec<T>, gone: &Vec<bool>) -> (r: Vec<T>)
    requires
        gone@.len() == s@.len(),
    ensures
        r@ == survivors(s@, gone@),
{
    let mut r: Vec<T> = Vec::new();
    let n = s.len();
    let mut i: usize = 0;
    while i < n
        invariant
            n == s@.len(),
            gone@.len() == n,
            0 <= i <= n,
            r@ == survivors(s@.subrange(0, i as int), gone@.subrange(0, i as int)),
        decreases n - i,
    {
        assert(s@.subrange(0, i + 1).drop_last() =~= s@.subrange(0, i as int));
        assert(gone@.subrange(0, i + 1).drop_last() =~= gone@.subrange(0, i as int));
        if !gone[i] {
            r.push(s[i]);
        }
        i = i + 1;
    }
    assert(s@.subrange(0, n as int) =~= s@);
    assert(gone@.subrange(0, n as int) =~= gone@);
    r
}

proof fn lemma_first_target_range(l: Laser, es: Seq<Enemy>, hit: Seq<bool>, j: int)
    ensures
        first_target(l, es, hit, j) matches Some(t) ==> j <= t < es.len(),
    decreases es.len() - j,
{
    if 0 <= j < es.len() {
        lemma_first_target_range(l, es, hit, j + 1);
    }
}

proof fn lemma_player_hits_shape(ls: Seq<Laser>, es: Seq<Enemy>)
    ensures
        player_hits(ls, es).0.len() == ls.len(),
        player_hits(ls, es).1.len() == es.len(),
    decreases ls.len(),
{
    if ls.len() > 0 {
        lemma_player_hits_shape(ls.drop_last(), es);
        let eh = player_hits(ls.drop_last(), es).1;
        lemma_first_target_range(ls.last(), es, eh, 0);
    }
}

impl World {
    /// Player lasers against enemies: each of the player's lasers, in order,
    /// destroys the first enemy it touches that is not destroyed already; the
    /// laser goes too and an explosion is requested at the enemy's position.
    pub fn player_laser_hit_enemy(&mut self)
        requires
            old(self).wf(),
        ensures
            final(self).wf(),
            ({
                let (lh, eh, fx) = player_hits(old(self).lasers@, old(self).enemies@);
                &&& *final(self) == (World {
                    enemies: final(self).enemies,
                    active_enemies: final(self).active_enemies,
                    lasers: final(self).lasers,
                    pending: final(self).pending,
                    ..*old(self)
                })
                &&& final(self).enemies@ == survivors(old(self).enemies@, eh)
                &&& final(self).lasers@ == survivors(old(self).lasers@, lh)
                &&& final(self).pending@ == old(self).pending@ + fx
            }),
            forall|i: int|
                0 <= i < final(self).lasers@.len() ==> old(self).lasers@.contains(
                    #[trigger] final(self).lasers@[i],
                ),
    {
        let ghost ls = self.lasers@;
        let ghost es = self.enemies@;
        let nl = self.lasers.len();
        let ne = self.enemies.len();
        let mut eh: Vec<bool> = Vec::new();
        let mut j: usize = 0;
        while j < ne
            invariant
                ne == es.len(),
                0 <= j <= ne,
                eh@ =~= Seq::new(j as nat, |k: int| false),
            decreases ne - j,
        {
            eh.push(false);
            j = j + 1;
        }
        let mut lh: Vec<bool> = Vec::new();
        let mut fx: Vec<Point> = Vec::new();
        let mut i: usize = 0;
        while i < nl
            invariant
                *self == *old(self),
                old(self).wf(),
                ls == self.lasers@,
                es == self.enemies@,
                nl == ls.len(),
                ne == es.len(),
                0 <= i <= nl,
                (lh@, eh@, fx@) == player_hits(ls.subrange(0, i as int), es),
                forall|k: int| 0 <= k < fx@.len() ==> in_field(#[trigger] fx@[k]),
            decreases nl - i,
        {
            proof {
                assert(ls.subrange(0, i + 1).drop_last() =~= ls.subrange(0, i as int));
                lemma_player_hits_shape(ls.subrange(0, i as int), es);
            }
            let l = self.lasers[i];
            if l.owner == Owner::FromPlayer {
                let mut found: Option<usize> = None;
                let mut k: usize = 0;
                while k < ne && found.is_none()
                    invariant
                        ne == es.len(),
                        es == self.enemies@,
                        eh@.len() == ne,
                        0 <= k <= ne,
                        match found {
                            None => first_target(l, es, eh@, 0) == first_target(l, es, eh@, k as int),
                            Some(t) => first_target(l, es, eh@, 0) == Some(t as int) && t < ne,
                        },
                    decreases ne - k,
                {
                    let e = self.enemies[k];
                    if !eh[k] && overlaps(
                        l.pos,
                        Point { x: LASER_HALF_W, y: LASER_HALF_H },
                        e.pos,
                        Point { x: ENEMY_HALF_W, y: ENEMY_HALF_H },
                    ) {
                        found = Some(k);
                    }
                    k = k + 1;
                }
                match found {
                    None => {
                        lh.push(false);
                    },
                    Some(t) => {
                        lh.push(true);
                        eh.set(t, true);
                        assert(es[t as int].wf());
                        fx.push(self.enemies[t].pos);
                    },
                }
            } else {
                lh.push(false);
            }
            i = i + 1;
        }
        proof {
            assert(ls.subrange(0, nl as int) =~= ls);
            lemma_player_hits_shape(ls, es);
            lemma_survivors_from(es, eh@);
            lemma_survivors_from(ls, lh@);
        }
        let enemies = keep_unmarked(&self.enemies, &eh);
        let lasers = keep_unmarked(&self.lasers, &lh);
        self.enemies = enemies;
        self.lasers = lasers;
        self.active_enemies = self.enemies.len() as u64;
        let ghost before = self.pending@;
        let ghost effects = fx@;
        self.pending.append(&mut fx);
        proof {
            assert forall|k: int| 0 <= k < self.enemies@.len() implies (
            #[trigger] self.enemies@[k]).wf() by {
                let j = choose|j: int| 0 <= j < es.len() && self.enemies@[k] == es[j];
                assert(es[j].wf());
            }
            assert forall|k: int| 0 <= k < self.lasers@.len() implies (
            #[trigger] self.lasers@[k]).wf() by {
                let j = choose|j: int| 0 <= j < ls.len() && self.lasers@[k] == ls[j];
                assert(ls[j].wf());
            }
            assert forall|k: int| 0 <= k < self.lasers@.len() implies ls.contains(
                #[trigger] self.lasers@[k],
            ) by {
                let j = choose|j: int| 0 <= j < ls.len() && self.lasers@[k] == ls[j];
            }
            assert forall|k: int| 0 <= k < self.pending@.len() implies in_field(
                #[trigger] self.pending@[k],
            ) by {
                if k >= before.len() {
                    assert(self.pending@[k] == effects[k - before.len()]);
                }
            }
        }
    }

    /// Enemy lasers against the player's ship: the first enemy laser that
    /// touches the ship destroys it, records the death at `now`, goes itself,
    /// and requests an explosion at the ship's position.
    pub fn enemy_laser_hit_player(&mut self, now: u64)
        requires
            old(self).wf(),
        ensures
            final(self).wf(),
            match old(self).player {
                None => *final(self) == *old(self),
                Some(p) => match first_hit_on(old(self).lasers@, p, 0) {
                    None => *final(self) == *old(self),
                    Some(i) => *final(self) == (World {
                        player: None,
                        player_state: PlayerState { alive: false, last_death: Some(now) },
                        lasers: final(self).lasers,
                        pending: final(self).pending,
                        ..*old(self)
                    }) && final(self).lasers@ == old(self).lasers@.remove(i)
                        && final(self).pending@ == old(self).pending@.push(p.pos),
                },
            },
            forall|i: int|
                0 <= i < final(self).lasers@.len() ==> old(self).lasers@.contains(
                    #[trigger] final(self).lasers@[i],
                ),
    {
        match self.player {
            None => {},
            Some(p) => {
                let ghost ls = self.lasers@;
                let n = self.lasers.len();
                let mut found: Option<usize> = None;
                let mut i: usize = 0;
                while i < n && found.is_none()
                    invariant
                        n == ls.len(),
                        ls == self.lasers@,
                        0 <= i <= n,
                        match found {
                            None => first_hit_on(ls, p, 0) == first_hit_on(ls, p, i as int),
                            Some(t) => first_hit_on(ls, p, 0) == Some(t as int) && t < n,
                        },
                    decreases n - i,
                {
                    let l = self.lasers[i];
                    if l.owner == Owner::FromEnemy && overlaps(
                        l.pos,
                        Point { x: LASER_HALF_W, y: LASER_HALF_H },
                        p.pos,
                        Point { x: PLAYER_HALF_W, y: PLAYER_HALF_H },
                    ) {
                        found = Some(i);
                    }
                    i = i + 1;
                }
                match found {
                    None => {},
                    Some(t) => {
                        self.player = None;
                        self.player_state.shot(now);
                        self.lasers.remove(t);
                        self.pending.push(p.pos);
                        proof {
                            assert forall|k: int| 0 <= k < self.lasers@.len() implies (
                            #[trigger] self.lasers@[k]).wf() by {
                                if k < t {
                                    assert(self.lasers@[k] == ls[k]);
                                } else {
                                    assert(self.lasers@[k] == ls[k + 1]);
                                }
                            }
                            assert forall|k: int| 0 <= k < self.lasers@.len() implies ls.contains(
                                #[trigger] self.lasers@[k],
                            ) by {
                                if k < t {
                                    assert(self.lasers@[k] == ls[k]);
                                } else {
                                    assert(self.lasers@[k] == ls[k + 1]);
                                }
                            }
                        }
                    },
                }
            },
        }
    }
}

} // verus!
