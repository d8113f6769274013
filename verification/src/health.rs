use vstd::prelude::*;
use crate::timer::{RepeatTimer, ticked, finishes};

verus! {

/// Hit points of a living entity, with the extra lives that can save it
/// from death.
#[derive(Clone, Copy, Debug, PartialEq, Eq, Structural)]
pub struct Health {
    pub max: i32,
    pub current: i32,
    pub extra_lives: u8,
}

/// Hit points after healing by `value`: capped at the maximum.
pub open spec fn healed(current: i32, max: i32, value: i32) -> int {
    if current + value >= max {
        max as int
    } else {
        current + value
    }
}

impl Health {
    /// Full health of `value` points and no extra lives.
    pub fn new(value: i32) -> (h: Health)
        ensures
            h.max == value,
            h.current == value,
            h.extra_lives == 0,
    {
        Health { max: value, current: value, extra_lives: 0 }
    }

    /// Restores `value` hit points, never past the maximum.
    pub fn heal(&mut self, value: i32)
        requires
            i32::MIN <= old(self).current + value <= i32::MAX,
        ensures
            final(self).current == healed(old(self).current, old(self).max, value),
            final(self).max == old(self).max,
            final(self).extra_lives == old(self).extra_lives,
            old(self).current <= old(self).max && value >= 0 ==> old(self).current <= final(self).current <= final(self).max,
    {
        if self.current + value >= self.max {
            self.current = self.max;
        } else {
            self.current = self.current + value;
        }
    }

    /// Takes `value` points of damage.
    pub fn damage(&mut self, value: i32)
        requires
            i32::MIN <= old(self).current - value <= i32::MAX,
        ensures
            final(self).current == old(self).current - value,
            final(self).max == old(self).max,
            final(self).extra_lives == old(self).extra_lives,
    {
        self.current = self.current - value;
    }

    /// Handles a death: an extra life, if there is one, is spent and brings
    /// the entity back at full health (returns `true`); otherwise nothing
    /// changes and the death stands (returns `false`).
    pub fn avoid_death(&mut self) -> (saved: bool)
        requires
            old(self).extra_lives > 0 ==> i32::MIN <= old(self).current + old(self).max <= i32::MAX,
        ensures
            saved == (old(self).extra_lives > 0),
            saved ==> final(self).extra_lives == old(self).extra_lives - 1 && final(self).current
                == healed(old(self).current, old(self).max, old(self).max) && final(self).max
                == old(self).max,
            !saved ==> *final(self) == *old(self),
    {
        if self.extra_lives > 0 {
            self.extra_lives = self.extra_lives - 1;
            let heal_amount = self.max;
            self.heal(heal_amount);
            true
        } else {
            false
        }
    }

    /// Charges the hit-point fee for casting a spell (no fee when `fee` is
    /// not positive); returns whether the fee killed the caster.
    pub fn pay_spell_fee(&mut self, fee: i32) -> (died: bool)
        requires
            fee > 0 ==> i32::MIN <= old(self).current - fee,
        ensures
            fee > 0 ==> final(self).current == old(self).current - fee,
            fee <= 0 ==> *final(self) == *old(self),
            final(self).max == old(self).max,
            final(self).extra_lives == old(self).extra_lives,
            died == (fee > 0 && final(self).current <= 0),
    {
        if fee > 0 {
            self.damage(fee);
            self.current <= 0
        } else {
            false
        }
    }

    /// Picks up a health tank of `hp` points: it is only used when the
    /// entity is hurt; returns whether it was used.
    pub fn pick_up_tank(&mut self, hp: i32) -> (used: bool)
        requires
            i32::MIN <= old(self).current + hp <= i32::MAX,
        ensures
            used == (old(self).current < old(self).max),
            used ==> final(self).current == healed(old(self).current, old(self).max, hp),
            !used ==> final(self).current == old(self).current,
            final(self).max == old(self).max,
            final(self).extra_lives == old(self).extra_lives,
    {
        if self.current < self.max {
            self.heal(hp);
            true
        } else {
            false
        }
    }
}

/// What a hit did to a mob: whether it is stunned and whether it died.
#[derive(Clone, Copy, Debug, PartialEq, Eq, Structural)]
pub struct HitOutcome {
    pub stunned: bool,
    pub died: bool,
}

/// Handles the next hit taken by a mob (hostile or friendly; friendly mobs
/// are never bosses): the damage is taken, every
/// mob but a boss is stunned, and the mob dies when no hit point is left.
pub fn take_hit(health: &mut Health, damage: i32, is_boss: bool) -> (o: HitOutcome)
    requires
        i32::MIN <= old(health).current - damage <= i32::MAX,
    ensures
        final(health).current == old(health).current - damage,
        final(health).max == old(health).max,
        final(health).extra_lives == old(health).extra_lives,
        o.stunned == !is_boss,
        o.died == (final(health).current <= 0),
{
    health.damage(damage);
    HitOutcome { stunned: !is_boss, died: health.current <= 0 }
}

/// Takes the first of the hits that reached a target this frame and drops
/// the others.
pub fn take_first_hit<T>(queue: &mut Vec<T>) -> (first: Option<T>)
    ensures
        final(queue)@.len() == 0,
        first == (if old(queue)@.len() > 0 {
            Some(old(queue)@[0])
        } else {
            None
        }),
{
    if queue.len() == 0 {
        None
    } else {
        let h = queue.remove(0);
        queue.clear();
        Some(h)
    }
}

/// The player takes a hit's damage (its resistances already counted);
/// returns whether the player died, having no hit point left.
pub fn damage_player(health: &mut Health, damage: i32) -> (died: bool)
    requires
        i32::MIN <= old(health).current - damage <= i32::MAX,
    ensures
        final(health).current == old(health).current - damage,
        final(health).max == old(health).max,
        final(health).extra_lives == old(health).extra_lives,
        died == (final(health).current <= 0),
{
    health.damage(damage);
    health.current <= 0
}

/// The attacks that already hit a target lately, by id, whether it was hit
/// lately at all, and the timer after which the list is emptied (every
/// two seconds while the target has been hit).
pub struct HitList {
    pub id_list: Vec<u16>,
    pub been_punched: bool,
    pub timer_to_clear: RepeatTimer,
}

/// The ids of the attacks that hit a target, once the attack `id` hit it:
/// the id is added unless it is listed already.
pub open spec fn registered(l: Seq<u16>, id: u16) -> Seq<u16> {
    if l.contains(id) {
        l
    } else {
        l.push(id)
    }
}

/// An attack registers on a target once: after it hit, its id is listed,
/// registering it again changes nothing, and a list without repeated ids
/// stays without.
pub proof fn lemma_registered_once(l: Seq<u16>, id: u16)
    ensures
        registered(l, id).contains(id),
        registered(registered(l, id), id) == registered(l, id),
        l.no_duplicates() ==> registered(l, id).no_duplicates(),
{
    if !l.contains(id) {
        assert(registered(l, id)[l.len() as int] == id);
        assert forall|a: int, b: int| 0 <= a < b < registered(l, id).len() && l.no_duplicates() implies registered(l, id)[a]
            != registered(l, id)[b] by {
            if b == l.len() {
                assert(l.contains(l[a]));
            }
        }
    }
}

impl HitList {
    /// An empty list, its timer of two seconds not started.
    pub fn new() -> (l: HitList)
        ensures
            l.id_list@.len() == 0,
            !l.been_punched,
            l.timer_to_clear == (RepeatTimer { duration_ms: 2000, elapsed_ms: 0 }),
    {
        HitList { id_list: Vec::new(), been_punched: false, timer_to_clear: RepeatTimer::new(2000) }
    }

    /// An attack with id `hit_id` touches the target. Unless that attack hit
    /// it already, the id is listed, the target counts as hit and the timer
    /// starts over. Returns whether the hit counts.
    pub fn register(&mut self, hit_id: u16) -> (fresh: bool)
        ensures
            fresh == !old(self).id_list@.contains(hit_id),
            final(self).id_list@ == registered(old(self).id_list@, hit_id),
            final(self).been_punched == (fresh || old(self).been_punched),
            final(self).timer_to_clear == (if fresh {
                RepeatTimer { duration_ms: old(self).timer_to_clear.duration_ms, elapsed_ms: 0 }
            } else {
                old(self).timer_to_clear
            }),
    {
        let mut i: usize = 0;
        while i < self.id_list.len()
            invariant
                0 <= i <= self.id_list@.len(),
                forall|j: int| 0 <= j < i ==> self.id_list@[j] != hit_id,
            decreases self.id_list@.len() - i,
        {
            if self.id_list[i] == hit_id {
                proof {
                    assert(self.id_list@[i as int] == hit_id);
                }
                return false;
            }
            i = i + 1;
        }
        self.id_list.push(hit_id);
        self.been_punched = true;
        self.timer_to_clear.reset();
        true
    }

    /// Runs the list's timer for `delta` milliseconds while the target has
    /// been hit; when it finishes, the list is emptied and the target no
    /// longer counts as hit.
    pub fn tick(&mut self, delta: u32)
        requires
            old(self).timer_to_clear.duration_ms > 0,
        ensures
            !old(self).been_punched ==> final(self).id_list@ == old(self).id_list@ && final(self).been_punched == old(self).been_punched
                && final(self).timer_to_clear == old(self).timer_to_clear,
            old(self).been_punched ==> final(self).timer_to_clear == ticked(old(self).timer_to_clear, delta),
            old(self).been_punched && finishes(old(self).timer_to_clear, delta) ==> final(self).id_list@.len() == 0
                && !final(self).been_punched,
            old(self).been_punched && !finishes(old(self).timer_to_clear, delta) ==> final(self).id_list@ == old(self).id_list@
                && final(self).been_punched,
    {
        if self.been_punched {
            if self.timer_to_clear.tick(delta) {
                self.been_punched = false;
                self.id_list = Vec::new();
            }
        }
    }
}

} // verus!
