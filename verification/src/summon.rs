use vstd::prelude::*;
use crate::mobs::MobType;

verus! {

/// A summoned mob: the id of its entity (none for an empty place) and its kind.
#[derive(Clone, Copy, Debug, PartialEq, Eq, Structural)]
pub struct SummonUnit {
    pub entity: Option<u64>,
    pub mob_type: MobType,
}

/// The filler of an empty place in a summon queue.
pub open spec fn empty_unit() -> SummonUnit {
    SummonUnit { entity: None, mob_type: MobType::Mossling }
}

/// The mobs a summoner (the player or the boss) currently commands: the
/// first `amount_of_mobs` places of `queue` are in use, newest first;
/// `max_amount` is how many it may command.
pub struct SummonQueue {
    pub queue: Vec<SummonUnit>,
    pub amount_of_mobs: u8,
    pub max_amount: u8,
}

/// A summon queue as plain values: its places, the number in use, the cap.
pub struct SummonQueueView {
    pub queue: Seq<SummonUnit>,
    pub amount: nat,
    pub max: nat,
}

impl View for SummonQueue {
    type V = SummonQueueView;

    open spec fn view(&self) -> SummonQueueView {
        SummonQueueView { queue: self.queue@, amount: self.amount_of_mobs as nat, max: self.max_amount as nat }
    }
}

/// The queue after a push: the new unit takes the first place and the units
/// in use move one place back.
pub open spec fn push_spec(q: SummonQueueView, u: SummonUnit) -> SummonQueueView {
    let n = q.amount + 1;
    SummonQueueView {
        queue: Seq::new(q.queue.len(), |i: int| if i == 0 { u } else if i < n { q.queue[i - 1] } else { q.queue[i] }),
        amount: n,
        max: q.max,
    }
}

/// The queue after a pop: one place fewer in use.
pub open spec fn pop_spec(q: SummonQueueView) -> (SummonQueueView, SummonUnit) {
    (SummonQueueView { queue: q.queue, amount: (q.amount - 1) as nat, max: q.max }, q.queue[q.amount - 1])
}

/// The queue after removing the unit at `index`: later places move forward
/// and an empty unit fills the last place.
pub open spec fn shift_spec(q: SummonQueueView, index: int) -> SummonQueueView {
    let last = q.queue.len() - 1;
    SummonQueueView {
        queue: Seq::new(q.queue.len(), |i: int| if i == last { empty_unit() } else if i >= index { q.queue[i + 1] } else { q.queue[i] }),
        amount: (q.amount - 1) as nat,
        max: q.max,
    }
}

/// The places of a queue shrunk or grown to `size` places, new places
/// empty.
pub open spec fn resized(q: Seq<SummonUnit>, size: nat) -> Seq<SummonUnit> {
    if size <= q.len() {
        q.take(size as int)
    } else {
        q + Seq::new((size - q.len()) as nat, |i: int| empty_unit())
    }
}

impl SummonQueue {
    /// A queue of `size` empty places that may command `size` mobs.
    pub fn new(size: u8) -> (q: SummonQueue)
        ensures
            q@.queue == Seq::new(size as nat, |i: int| empty_unit()),
            q@.amount == 0,
            q@.max == size,
    {
        let mut v: Vec<SummonUnit> = Vec::new();
        let mut i: u8 = 0;
        while i < size
            invariant
                i <= size,
                v@ == Seq::new(i as nat, |j: int| empty_unit()),
            decreases size - i,
        {
            v.push(SummonUnit { entity: None, mob_type: MobType::Mossling });
            i = i + 1;
            assert(v@ =~= Seq::new(i as nat, |j: int| empty_unit()));
        }
        SummonQueue { queue: v, amount_of_mobs: 0, max_amount: size }
    }

    /// Adds a newly summoned unit in front of the units in use.
    pub fn push(&mut self, summon_unit: SummonUnit)
        requires
            old(self).amount_of_mobs < old(self).queue@.len(),
            old(self).amount_of_mobs < u8::MAX,
        ensures
            final(self)@ == push_spec(old(self)@, summon_unit),
    {
        self.amount_of_mobs = self.amount_of_mobs + 1;
        let n = self.amount_of_mobs as usize;
        let ghost q0 = old(self).queue@;
        let mut i: usize = n - 1;
        while i > 0
            invariant
                n == old(self).amount_of_mobs + 1,
                n <= q0.len(),
                self.queue@.len() == q0.len(),
                self.amount_of_mobs == n,
                self.max_amount == old(self).max_amount,
                0 <= i < n,
                forall|j: int| 0 <= j <= i ==> self.queue@[j] == q0[j],
                forall|j: int| i < j < n ==> self.queue@[j] == q0[j - 1],
                forall|j: int| n <= j < q0.len() ==> self.queue@[j] == q0[j],
            decreases i,
        {
            let prev = self.queue[i - 1];
            self.queue.set(i, prev);
            i = i - 1;
        }
        self.queue.set(0, summon_unit);
        assert(self@.queue =~= push_spec(old(self)@, summon_unit).queue);
    }

    /// Takes the oldest unit in use out of command.
    pub fn pop(&mut self) -> (u: SummonUnit)
        requires
            0 < old(self).amount_of_mobs <= old(self).queue@.len(),
        ensures
            (final(self)@, u) == pop_spec(old(self)@),
    {
        let index = self.amount_of_mobs - 1;
        self.amount_of_mobs = self.amount_of_mobs - 1;
        self.queue[index as usize]
    }

    /// Whether the summoner commands as many mobs as it may.
    pub fn is_overflowed(&self) -> (r: bool)
        ensures
            r == (self@.amount >= self@.max),
    {
        self.amount_of_mobs >= self.max_amount
    }

    /// Forgets every unit in use.
    pub fn empty(&mut self)
        ensures
            final(self)@.queue == old(self)@.queue,
            final(self)@.amount == 0,
            final(self)@.max == old(self)@.max,
    {
        self.amount_of_mobs = 0;
    }

    /// Changes how many mobs the summoner may command.
    pub fn resize(&mut self, size: u8)
        ensures
            final(self)@.queue == old(self)@.queue,
            final(self)@.amount == old(self)@.amount,
            final(self)@.max == size,
    {
        self.max_amount = size;
    }

    /// Removes the unit at `index` (a dead summon): later units move forward
    /// and the last place is emptied.
    pub fn shift(&mut self, index: usize)
        requires
            old(self).queue@.len() > 0,
            old(self).amount_of_mobs > 0,
        ensures
            final(self)@ == shift_spec(old(self)@, index as int),
    {
        let len = self.queue.len() - 1;
        let ghost q0 = old(self).queue@;
        let mut i = index;
        while i < len
            invariant
                len == q0.len() - 1,
                self.queue@.len() == q0.len(),
                index <= i,
                self.amount_of_mobs == old(self).amount_of_mobs,
                self.max_amount == old(self).max_amount,
                forall|j: int| 0 <= j < q0.len() ==> self.queue@[j] == (if index <= j < i { q0[j + 1] } else { q0[j] }),
            decreases len - i,
        {
            let next = self.queue[i + 1];
            let ghost before = self.queue@;
            self.queue.set(i, next);
            assert forall|j: int| 0 <= j < q0.len() implies self.queue@[j] == (if index <= j < i + 1 { q0[j + 1] } else { q0[j] }) by {
                if j != i {
                    assert(self.queue@[j] == before[j]);
                }
            }
            i = i + 1;
        }
        self.amount_of_mobs = self.amount_of_mobs - 1;
        self.queue.set(len, SummonUnit { entity: None, mob_type: MobType::Mossling });
        assert(self@.queue =~= shift_spec(old(self)@, index as int).queue);
    }

    /// Shrinks or grows the queue to `size` places (new places are empty),
    /// lets the summoner command `size` mobs and marks `in_use` places in use.
    pub fn reshape(&mut self, size: u8, in_use: u8)
        ensures
            final(self)@.queue == resized(old(self)@.queue, size as nat),
            final(self)@.amount == in_use,
            final(self)@.max == size,
    {
        self.max_amount = size;
        let ghost q0 = old(self).queue@;
        if (size as usize) <= self.queue.len() {
            self.queue.truncate(size as usize);
        } else {
            while self.queue.len() < size as usize
                invariant
                    q0.len() <= self.queue@.len() <= size,
                    self.max_amount == size,
                    self.queue@ == q0 + Seq::new((self.queue@.len() - q0.len()) as nat, |i: int| empty_unit()),
                decreases size - self.queue@.len(),
            {
                self.queue.push(SummonUnit { entity: None, mob_type: MobType::Mossling });
                assert(self.queue@ =~= q0 + Seq::new((self.queue@.len() - q0.len()) as nat, |i: int| empty_unit()));
            }
        }
        self.amount_of_mobs = in_use;
    }
}

/// A law of the queue: a pop right after a push puts the number of units in
/// use back where it was, and hands out the pushed unit when no other unit
/// was in use, else the oldest unit that was in use.
pub proof fn lemma_push_then_pop(q: SummonQueueView, u: SummonUnit)
    requires
        q.amount < q.queue.len(),
    ensures
        pop_spec(push_spec(q, u)).0.amount == q.amount,
        pop_spec(push_spec(q, u)).1 == (if q.amount == 0 { u } else { q.queue[q.amount - 1] }),
        pop_spec(push_spec(q, u)).0.queue.len() == q.queue.len(),
{
}

/// A law of the queue: a push never changes the number of places, and the
/// units in use stay in use, in order, behind the new one.
pub proof fn lemma_push_keeps_order(q: SummonQueueView, u: SummonUnit)
    requires
        q.amount < q.queue.len(),
    ensures
        push_spec(q, u).queue.len() == q.queue.len(),
        push_spec(q, u).queue[0] == u,
        push_spec(q, u).queue.subrange(1, (q.amount + 1) as int) == q.queue.subrange(0, q.amount as int),
{
    assert(push_spec(q, u).queue.subrange(1, (q.amount + 1) as int) =~= q.queue.subrange(0, q.amount as int));
}

/// The first place whose summon has died: a unit with an entity, whose
/// entity is no longer alive, and that is not a filler.
pub open spec fn is_dead_summon(u: SummonUnit, alive: bool) -> bool {
    u.entity is Some && !alive && u.mob_type != MobType::Mossling
}

/// Finds the first dead summon, given for each place whether its entity is alive.
pub fn first_dead_summon(q: &SummonQueue, alive: &Vec<bool>) -> (r: Option<usize>)
    requires
        alive@.len() == q.queue@.len(),
    ensures
        r matches Some(i) ==> i < q.queue@.len() && is_dead_summon(q.queue@[i as int], alive@[i as int])
            && forall|j: int| 0 <= j < i ==> !is_dead_summon(q.queue@[j], alive@[j]),
        r is None ==> forall|j: int| 0 <= j < q.queue@.len() ==> !is_dead_summon(q.queue@[j], alive@[j]),
{
    let mut i: usize = 0;
    while i < q.queue.len()
        invariant
            0 <= i <= q.queue@.len(),
            alive@.len() == q.queue@.len(),
            forall|j: int| 0 <= j < i ==> !is_dead_summon(q.queue@[j], alive@[j]),
        decreases q.queue@.len() - i,
    {
        let u = q.queue[i];
        if u.entity.is_some() && !alive[i] && u.mob_type != MobType::Mossling {
            return Some(i);
        }
        i = i + 1;
    }
    None
}

/// A newly spawned minion joins its owner's queue: it takes the first place,
/// places up to the second-to-last move back one, the last place keeps its
/// unit; the unit in the last place is returned when it had an entity (the
/// owner drops it).
pub fn enlist_summon(q: &mut SummonQueue, unit: SummonUnit) -> (evicted: Option<SummonUnit>)
    requires
        old(q).queue@.len() > 0,
    ensures
        final(q)@.amount == old(q)@.amount,
        final(q)@.max == old(q)@.max,
        ({
            let q0 = old(q).queue@;
            let n = q0.len();
            final(q).queue@ == Seq::new(n, |i: int| if i == 0 { unit } else if i < n - 1 { q0[i - 1] } else { q0[i] })
        }),
        evicted == (if old(q).queue@.last().entity is Some { Some(old(q).queue@.last()) } else { None }),
{
    let len = q.queue.len();
    let last = q.queue[len - 1];
    let evicted = if last.entity.is_some() { Some(last) } else { None };
    let ghost q0 = old(q).queue@;
    if len >= 2 {
        let mut i: usize = len - 2;
        while i > 0
            invariant
                len == q0.len(),
                len >= 2,
                q.queue@.len() == len,
                q.amount_of_mobs == old(q).amount_of_mobs,
                q.max_amount == old(q).max_amount,
                0 <= i <= len - 2,
                forall|j: int| 0 <= j <= i ==> q.queue@[j] == q0[j],
                forall|j: int| i < j < len - 1 ==> q.queue@[j] == q0[j - 1],
                q.queue@[len - 1] == q0[len - 1],
            decreases i,
        {
            let prev = q.queue[i - 1];
            q.queue.set(i, prev);
            i = i - 1;
        }
    }
    q.queue.set(0, unit);
    assert(q.queue@ =~= Seq::new(len as nat, |i: int| if i == 0 { unit } else if i < len - 1 { q0[i - 1] } else { q0[i] }));
    evicted
}

} // verus!
