//! Explosion effects: created from pending requests, animated frame by
//! frame, removed once the sprite sheet is exhausted.
use vstd::prelude::*;

use crate::entities::{Explosion, FRAME_COUNT, FRAME_PERIOD_MS};
use crate::geometry::{in_field, Point};
use crate::world::World;

verus! {

/// A fresh explosion at `p`: first frame, timer at zero.
pub open spec fn new_explosion(p: Point) -> Explosion {
    Explosion { pos: p, frame: 0, elapsed_ms: 0 }
}

/// The explosion after `dt` ms: once the accumulated time reaches the frame
/// period the timer restarts and the next frame shows.
pub open spec fn advance_explosion(e: Explosion, dt: u64) -> Explosion {
    if e.elapsed_ms + dt >= FRAME_PERIOD_MS {
        Explosion { frame: (e.frame + 1) as u64, elapsed_ms: 0, ..e }
    } else {
        Explosion { elapsed_ms: (e.elapsed_ms + dt) as u64, ..e }
    }
}

/// Every explosion advanced by `dt` ms; those that reached the last frame
/// count are gone; order kept.
pub open spec fn animated(s: Seq<Explosion>, dt: u64) -> Seq<Explosion>
    decreases s.len(),
{
    if s.len() == 0 {
        Seq::empty()
    } else {
        let rest = animated(s.drop_last(), dt);
        let a = advance_explosion(s.last(), dt);
        if a.frame == FRAME_COUNT {
            rest
        } else {
            rest.push(a)
        }
    }
}

/// One tick of an explosion's life: its frame index never goes down and
/// rises by one exactly when the accumulated time reaches the period, and it stays in play exactly while the index is
/// below the frame count.
pub proof fn lemma_explosion_tick(e: Explosion, dt: u64)
    requires
        e.wf(),
    ensures
        e.frame <= advance_explosion(e, dt).frame <= e.frame + 1,
        advance_explosion(e, dt).frame == e.frame + 1 <==> e.elapsed_ms + dt >= FRAME_PERIOD_MS,
        advance_explosion(e, dt).frame <= FRAME_COUNT,
        advance_explosion(e, dt).frame < FRAME_COUNT ==> advance_explosion(e, dt).wf(),
        animated(seq![e], dt) == if advance_explosion(e, dt).frame == FRAME_COUNT {
            Seq::<Explosion>::empty()
        } else {
            seq![advance_explosion(e, dt)]
        },
{
    assert(seq![e].drop_last() =~= Seq::<Explosion>::empty());
    assert(animated(Seq::<Explosion>::empty(), dt) == Seq::<Explosion>::empty());
    assert(Seq::<Explosion>::empty().push(advance_explosion(e, dt)) =~= seq![advance_explosion(e, dt)]);
}

/// Animation, explosion by explosion: each one stays, advanced, exactly
/// while its advanced frame index is below the frame count; nothing else is
/// there; and every one that stays has a frame index below the count.
pub proof fn lemma_animated(s: Seq<Explosion>, dt: u64)
    ensures
        forall|i: int|
            0 <= i < s.len() && advance_explosion(#[trigger] s[i], dt).frame != FRAME_COUNT
                ==> animated(s, dt).contains(advance_explosion(s[i], dt)),
        forall|k: int|
            0 <= k < animated(s, dt).len() ==> exists|i: int|
                0 <= i < s.len() && #[trigger] animated(s, dt)[k] == advance_explosion(s[i], dt)
                    && advance_explosion(s[i], dt).frame != FRAME_COUNT,
    decreases s.len(),
{
    if s.len() > 0 {
        let t = s.drop_last();
        let n = s.len() - 1;
        lemma_animated(t, dt);
        let r = animated(s, dt);
        let rt = animated(t, dt);
        assert(r.len() >= rt.len() && forall|k: int| 0 <= k < rt.len() ==> r[k] == rt[k]);
        assert forall|i: int|
            0 <= i < s.len() && advance_explosion(#[trigger] s[i], dt).frame != FRAME_COUNT
                implies r.contains(advance_explosion(s[i], dt)) by {
            if i < n {
                assert(t[i] == s[i]);
                let j = choose|j: int| 0 <= j < rt.len() && rt[j] == advance_explosion(t[i], dt);
                assert(r[j] == advance_explosion(s[i], dt));
            } else {
                assert(r[r.len() - 1] == advance_explosion(s[i], dt));
            }
        }
        assert forall|k: int| 0 <= k < r.len() implies exists|i: int|
            0 <= i < s.len() && #[trigger] r[k] == advance_explosion(s[i], dt)
                && advance_explosion(s[i], dt).frame != FRAME_COUNT by {
            if k < rt.len() {
                let i = choose|i: int|
                    0 <= i < t.len() && #[trigger] rt[k] == advance_explosion(t[i], dt)
                        && advance_explosion(t[i], dt).frame != FRAME_COUNT;
                assert(s[i] == t[i]);
            } else {
                assert(s[n] == s.last());
            }
        }
    }
}

impl World {
    /// Turns each pending request into a fresh explosion at its position and
    /// clears the requests.
    pub fn explosion_to_spawn(&mut self)
        requires
            old(self).wf(),
        ensures
            final(self).wf(),
            *final(self) == (World {
                explosions: final(self).explosions,
                pending: final(self).pending,
                ..*old(self)
            }),
            final(self).pending@ == Seq::<Point>::empty(),
            final(self).explosions@ == old(self).explosions@ + old(self).pending@.map_values(
                |p: Point| new_explosion(p),
            ),
    {
        let ghost start = self.explosions@;
        let n = self.pending.len();
        let mut i: usize = 0;
        while i < n
            invariant
                n == self.pending@.len(),
                old(self).wf(),
                *self == (World { explosions: self.explosions, ..*old(self) }),
                start == old(self).explosions@,
                0 <= i <= n,
                self.explosions@ == start + old(self).pending@.subrange(0, i as int).map_values(
                    |p: Point| new_explosion(p),
                ),
            decreases n - i,
        {
            let pos = self.pending[i];
            self.explosions.push(Explosion { pos, frame: 0, elapsed_ms: 0 });
            proof {
                assert(old(self).pending@.subrange(0, i + 1) =~= old(self).pending@.subrange(
                    0,
                    i as int,
                ).push(old(self).pending@[i as int]));
                assert(self.explosions@ =~= start + old(self).pending@.subrange(
                    0,
                    i + 1,
                ).map_values(|p: Point| new_explosion(p)));
            }
            i = i + 1;
        }
        self.pending = Vec::new();
        proof {
            assert(old(self).pending@.subrange(0, n as int) =~= old(self).pending@);
            assert forall|k: int| 0 <= k < self.explosions@.len() implies (
            #[trigger] self.explosions@[k]).wf() by {
                if k >= start.len() {
                    assert(in_field(old(self).pending@[k - start.len()]));
                }
            }
        }
    }

    /// Advances every explosion by `dt` ms and removes those whose frame
    /// index reached the frame count.
    pub fn animate_explosion(&mut self, dt: u64)
        requires
            old(self).wf(),
        ensures
            final(self).wf(),
            *final(self) == (World { explosions: final(self).explosions, ..*old(self) }),
            final(self).explosions@ == animated(old(self).explosions@, dt),
    {
        let ghost s = self.explosions@;
        let n = self.explosions.len();
        let mut r: Vec<Explosion> = Vec::new();
        let mut i: usize = 0;
        while i < n
            invariant
                n == s.len(),
                *self == *old(self),
                old(self).wf(),
                s == self.explosions@,
                0 <= i <= n,
                r@ == animated(s.subrange(0, i as int), dt),
                forall|k: int| 0 <= k < r@.len() ==> (#[trigger] r@[k]).wf(),
            decreases n - i,
        {
            let e = self.explosions[i];
            proof {
                assert(s.subrange(0, i + 1).drop_last() =~= s.subrange(0, i as int));
                assert(s[i as int].wf());
            }
            let a = if dt >= FRAME_PERIOD_MS - e.elapsed_ms {
                Explosion { frame: e.frame + 1, elapsed_ms: 0, ..e }
            } else {
                Explosion { elapsed_ms: e.elapsed_ms + dt, ..e }
            };
            assert(a == advance_explosion(e, dt));
            if a.frame != FRAME_COUNT {
                r.push(a);
            }
            i = i + 1;
        }
        assert(s.subrange(0, n as int) =~= s);
        self.explosions = r;
    }
}

} // verus!
