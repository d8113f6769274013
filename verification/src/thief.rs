use vstd::prelude::*;
use crate::items::{ItemType, item_from_code, item_from_code_spec, database_index_spec};

verus! {

/// What a thief can pick up.
#[derive(Clone, Copy, Debug, PartialEq, Eq, Structural)]
pub enum ItemPicked {
    HPTank,
    EXPTank,
    Item,
    Obstacle,
}

/// The code a kind of stolen thing carries in the thief's bag.
pub open spec fn kind_code_spec(k: ItemPicked) -> i32 {
    match k {
        ItemPicked::HPTank => 0,
        ItemPicked::EXPTank => 1,
        ItemPicked::Item => 2,
        ItemPicked::Obstacle => 3,
    }
}

/// The code a kind of stolen thing carries in the thief's bag.
pub fn kind_code(k: ItemPicked) -> (c: i32)
    ensures
        c == kind_code_spec(k),
{
    match k {
        ItemPicked::HPTank => 0,
        ItemPicked::EXPTank => 1,
        ItemPicked::Item => 2,
        ItemPicked::Obstacle => 3,
    }
}

/// A stolen thing: its kind and, for items, which item it is.
#[derive(Clone, Copy, Debug, PartialEq, Eq, Structural)]
pub struct PickupItem {
    pub item_type: ItemPicked,
    pub item_name: Option<ItemType>,
}

/// Number of slots in a thief's bag.
pub const BAG_SIZE: usize = 5;

/// Number of obstacles a thief can break before it leaves the level.
pub const OBSTACLE_LIMIT: u8 = 8;

/// A thief's bag: the most recent theft first, empty slots (`None`) at the
/// end; and the number of obstacles it has broken.
pub struct PickupItemQueue {
    pub item_queue: Vec<Option<PickupItem>>,
    pub amount_of_obstacles: u8,
}

/// Number of filled slots before the first empty one.
pub open spec fn leading_count(q: Seq<Option<PickupItem>>) -> nat
    decreases q.len(),
{
    if q.len() == 0 {
        0
    } else if q[0] is None {
        0
    } else {
        1 + leading_count(q.drop_first())
    }
}

/// `k` filled slots followed by an empty one (or the end) is what
/// `leading_count` counts.
pub proof fn lemma_leading_count_is(q: Seq<Option<PickupItem>>, k: nat)
    requires
        k <= q.len(),
        forall|j: int| 0 <= j < k ==> q[j] is Some,
        k == q.len() || q[k as int] is None,
    ensures
        leading_count(q) == k,
    decreases q.len(),
{
    if q.len() == 0 {
    } else if k == 0 {
    } else {
        let r = q.drop_first();
        assert forall|j: int| 0 <= j < k - 1 implies r[j] is Some by {
            assert(r[j] == q[j + 1]);
        }
        if k < q.len() {
            assert(r[k - 1] == q[k as int]);
        }
        lemma_leading_count_is(r, (k - 1) as nat);
    }
}

impl PickupItemQueue {
    /// An empty bag of five slots, no obstacles broken.
    pub fn new() -> (q: PickupItemQueue)
        ensures
            q.item_queue@ == seq![None::<PickupItem>, None, None, None, None],
            q.amount_of_obstacles == 0,
    {
        let q = PickupItemQueue { item_queue: vec![None, None, None, None, None], amount_of_obstacles: 0 };
        assert(q.item_queue@ =~= seq![None::<PickupItem>, None, None, None, None]);
        q
    }

    /// Empties every slot; the bag keeps its size.
    pub fn empty_queue(&mut self)
        ensures
            final(self).item_queue@.len() == old(self).item_queue@.len(),
            forall|i: int| 0 <= i < final(self).item_queue@.len() ==> final(self).item_queue@[i] is None,
            final(self).amount_of_obstacles == old(self).amount_of_obstacles,
    {
        let n = self.item_queue.len();
        let mut i: usize = 0;
        while i < n
            invariant
                n == self.item_queue@.len(),
                n == old(self).item_queue@.len(),
                0 <= i <= n,
                forall|j: int| 0 <= j < i ==> self.item_queue@[j] is None,
                self.amount_of_obstacles == old(self).amount_of_obstacles,
            decreases n - i,
        {
            self.item_queue.set(i, None);
            i = i + 1;
        }
    }

    /// Counts one more broken obstacle; returns whether the thief has now
    /// broken enough to leave.
    pub fn push_obstacle(&mut self) -> (done: bool)
        requires
            old(self).amount_of_obstacles < u8::MAX,
        ensures
            final(self).amount_of_obstacles == old(self).amount_of_obstacles + 1,
            final(self).item_queue@ == old(self).item_queue@,
            done == (final(self).amount_of_obstacles >= OBSTACLE_LIMIT),
    {
        self.amount_of_obstacles = self.amount_of_obstacles + 1;
        self.amount_of_obstacles >= OBSTACLE_LIMIT
    }

    /// Number of filled slots before the first empty one.
    pub fn get_len(&self) -> (n: i32)
        requires
            self.item_queue@.len() <= i32::MAX,
        ensures
            n == leading_count(self.item_queue@),
    {
        let mut n: usize = 0;
        while n < self.item_queue.len()
            invariant
                0 <= n <= self.item_queue@.len(),
                forall|j: int| 0 <= j < n ==> self.item_queue@[j] is Some,
            ensures
                0 <= n <= self.item_queue@.len(),
                forall|j: int| 0 <= j < n ==> self.item_queue@[j] is Some,
                n == self.item_queue@.len() || self.item_queue@[n as int] is None,
            decreases self.item_queue@.len() - n,
        {
            match &self.item_queue[n] {
                None => {
                    break;
                },
                Some(_) => {},
            }
            n = n + 1;
        }
        proof {
            lemma_leading_count_is(self.item_queue@, n as nat);
        }
        n as i32
    }

    /// Puts a stolen thing in the first slot; every other thing moves one
    /// slot back and the thing in the last slot falls out.
    pub fn push_item(&mut self, item: PickupItem)
        requires
            old(self).item_queue@.len() > 0,
        ensures
            final(self).item_queue@ == seq![Some(item)] + old(self).item_queue@.take(
                old(self).item_queue@.len() - 1,
            ),
            final(self).amount_of_obstacles == old(self).amount_of_obstacles,
    {
        let len = self.item_queue.len();
        self.item_queue.set(len - 1, None);
        let ghost q0 = old(self).item_queue@;
        let mut i: usize = len - 1;
        while i > 0
            invariant
                len == self.item_queue@.len(),
                len == q0.len(),
                0 <= i < len,
                forall|j: int| 0 <= j < i ==> self.item_queue@[j] == q0[j],
                forall|j: int| i < j < len ==> self.item_queue@[j] == q0[j - 1],
                self.amount_of_obstacles == old(self).amount_of_obstacles,
            decreases i,
        {
            let prev = self.item_queue[i - 1];
            self.item_queue.set(i, prev);
            i = i - 1;
        }
        self.item_queue.set(0, Some(item));
        assert(self.item_queue@ =~= seq![Some(item)] + q0.take(q0.len() - 1));
    }
}

/// The codes one stolen thing adds to the bag's contents: its kind, then the
/// item's database position for named items.
pub open spec fn entry_codes(e: PickupItem) -> Seq<i32> {
    match e.item_name {
        Some(n) => seq![kind_code_spec(e.item_type), database_index_spec(n) as i32],
        None => seq![kind_code_spec(e.item_type)],
    }
}

/// The codes of the first `n` slots.
pub open spec fn encode_prefix(q: Seq<Option<PickupItem>>, n: nat) -> Seq<i32>
    decreases n,
{
    if n == 0 || n > q.len() {
        Seq::empty()
    } else {
        encode_prefix(q, (n - 1) as nat) + entry_codes(q[n - 1].unwrap())
    }
}

/// The contents of a bag, as the codes a hit thief scatters: the codes of
/// every filled slot before the first empty one.
pub open spec fn bag_codes(q: Seq<Option<PickupItem>>) -> Seq<i32> {
    encode_prefix(q, leading_count(q))
}

/// Lists the contents of a thief's bag as codes (see `bag_codes`).
pub fn encode_bag(bag: &PickupItemQueue) -> (codes: Vec<i32>)
    ensures
        codes@ == bag_codes(bag.item_queue@),
{
    let mut codes: Vec<i32> = Vec::new();
    let mut i: usize = 0;
    let ghost q = bag.item_queue@;
    while i < bag.item_queue.len()
        invariant
            q == bag.item_queue@,
            0 <= i <= q.len(),
            forall|j: int| 0 <= j < i ==> q[j] is Some,
            codes@ == encode_prefix(q, i as nat),
        ensures
            0 <= i <= q.len(),
            forall|j: int| 0 <= j < i ==> q[j] is Some,
            codes@ == encode_prefix(q, i as nat),
            i == q.len() || q[i as int] is None,
        decreases q.len() - i,
    {
        match &bag.item_queue[i] {
            None => {
                break;
            },
            Some(item) => {
                codes.push(kind_code(item.item_type));
                match item.item_name {
                    Some(name) => {
                        codes.push(name.database_index() as i32);
                    },
                    None => {},
                }
                proof {
                    assert(q[i as int] == Some(*item));
                    assert(codes@ =~= encode_prefix(q, (i + 1) as nat));
                }
            },
        }
        i = i + 1;
    }
    proof {
        lemma_leading_count_is(q, i as nat);
    }
    codes
}

/// What a hit thief drops from its bag.
#[derive(Clone, Copy, Debug, PartialEq, Eq, Structural)]
pub enum BagDrop {
    HealthTank(i32),
    ExpTank(u32),
    Item(ItemType),
}

/// Hit points of a health tank dropped from a bag.
pub const BAG_HEALTH_TANK_HP: i32 = 20;

/// Orbs in an experience tank dropped from a bag.
pub const BAG_EXP_TANK_ORBS: u32 = 6;

/// Reading the first `n` codes: the drops so far, each with the slot around
/// the thief where it lands (the code's position plus two), and whether the
/// next code names an item.
pub open spec fn decode_prefix(codes: Seq<i32>, n: nat) -> (Seq<(u32, BagDrop)>, bool)
    decreases n,
{
    if n == 0 || n > codes.len() {
        (Seq::empty(), false)
    } else {
        let (drops, is_item) = decode_prefix(codes, (n - 1) as nat);
        let c = codes[n - 1];
        let slot = (n - 1 + 2) as u32;
        if is_item {
            (drops.push((slot, BagDrop::Item(item_from_code_spec(c)))), false)
        } else if c == 2 {
            (drops, true)
        } else if c == 0 {
            (drops.push((slot, BagDrop::HealthTank(BAG_HEALTH_TANK_HP))), false)
        } else if c == 1 {
            (drops.push((slot, BagDrop::ExpTank(BAG_EXP_TANK_ORBS))), false)
        } else {
            (drops, false)
        }
    }
}

/// The drops the codes of a bag turn into.
pub open spec fn bag_drops_spec(codes: Seq<i32>) -> Seq<(u32, BagDrop)> {
    decode_prefix(codes, codes.len()).0
}

/// Turns the codes scattered by a hit thief into drops: a kind code of an
/// item means the next code is the item, tank codes give tanks, obstacle
/// codes give nothing.
pub fn decode_bag(codes: &Vec<i32>) -> (drops: Vec<(u32, BagDrop)>)
    requires
        codes@.len() + 2 <= u32::MAX,
    ensures
        drops@ == bag_drops_spec(codes@),
{
    let mut drops: Vec<(u32, BagDrop)> = Vec::new();
    let mut is_item = false;
    let mut i: usize = 0;
    while i < codes.len()
        invariant
            0 <= i <= codes@.len(),
            codes@.len() + 2 <= u32::MAX,
            (drops@, is_item) == decode_prefix(codes@, i as nat),
        decreases codes@.len() - i,
    {
        let c = codes[i];
        let slot = (i + 2) as u32;
        if is_item {
            drops.push((slot, BagDrop::Item(item_from_code(c))));
            is_item = false;
        } else if c == 2 {
            is_item = true;
        } else if c == 0 {
            drops.push((slot, BagDrop::HealthTank(BAG_HEALTH_TANK_HP)));
        } else if c == 1 {
            drops.push((slot, BagDrop::ExpTank(BAG_EXP_TANK_ORBS)));
        }
        i = i + 1;
    }
    drops
}

/// A stolen thing carries an item name exactly when it is an item.
pub open spec fn well_formed_entry(e: PickupItem) -> bool {
    (e.item_type == ItemPicked::Item) == (e.item_name is Some)
}

/// What the first `n` slots of a bag drop when the bag is scattered: tanks
/// at their kind code's slot, items at their item code's slot; an item comes
/// back as the item its database position names as a drop code.
pub open spec fn expected_drops(q: Seq<Option<PickupItem>>, n: nat) -> Seq<(u32, BagDrop)>
    decreases n,
{
    if n == 0 || n > q.len() {
        Seq::empty()
    } else {
        let before = expected_drops(q, (n - 1) as nat);
        let base = encode_prefix(q, (n - 1) as nat).len();
        let e = q[n - 1].unwrap();
        match e.item_type {
            ItemPicked::HPTank => before.push(((base + 2) as u32, BagDrop::HealthTank(BAG_HEALTH_TANK_HP))),
            ItemPicked::EXPTank => before.push(((base + 2) as u32, BagDrop::ExpTank(BAG_EXP_TANK_ORBS))),
            ItemPicked::Item => before.push(
                ((base + 3) as u32, BagDrop::Item(item_from_code_spec(database_index_spec(e.item_name.unwrap()) as i32))),
            ),
            ItemPicked::Obstacle => before,
        }
    }
}

/// Reading a prefix of the codes does not look past it.
proof fn lemma_decode_prefix_extend(a: Seq<i32>, b: Seq<i32>, m: nat)
    requires
        m <= a.len(),
    ensures
        decode_prefix(a + b, m) == decode_prefix(a, m),
    decreases m,
{
    if m > 0 {
        lemma_decode_prefix_extend(a, b, (m - 1) as nat);
        assert((a + b)[m - 1] == a[m - 1]);
    }
}

/// The codes of a prefix are the first codes of a longer prefix.
proof fn lemma_encode_prefix_len(q: Seq<Option<PickupItem>>, n: nat)
    requires
        n <= q.len(),
        forall|j: int| 0 <= j < n ==> (q[j] is Some),
    ensures
        encode_prefix(q, n).len() <= 2 * n,
    decreases n,
{
    if n > 0 {
        lemma_encode_prefix_len(q, (n - 1) as nat);
    }
}

proof fn lemma_roundtrip_prefix(q: Seq<Option<PickupItem>>, n: nat)
    requires
        n <= q.len(),
        forall|j: int| #![trigger q[j]] 0 <= j < n ==> (q[j] is Some) && well_formed_entry(q[j].unwrap()),
        2 * q.len() + 3 <= u32::MAX,
    ensures
        decode_prefix(encode_prefix(q, n), encode_prefix(q, n).len()) == (expected_drops(q, n), false),
    decreases n,
{
    if n > 0 {
        let m = (n - 1) as nat;
        lemma_roundtrip_prefix(q, m);
        lemma_encode_prefix_len(q, m);
        let a = encode_prefix(q, m);
        let e = q[m as int].unwrap();
        assert(well_formed_entry(q[m as int].unwrap()));
        let c = entry_codes(e);
        let full = encode_prefix(q, n);
        assert(full == a + c);
        lemma_decode_prefix_extend(a, c, a.len());
        let k = a.len();
        assert(full[k as int] == kind_code_spec(e.item_type));
        if e.item_type == ItemPicked::Item {
            assert(full[(k + 1) as int] == database_index_spec(e.item_name.unwrap()) as i32);
            assert(full.len() == k + 2);
            assert(decode_prefix(full, (k + 1) as nat) == (expected_drops(q, m), true));
        } else {
            assert(full.len() == k + 1);
        }
    }
}

/// Scattering a bag gives back what was stolen: decoding the codes of a bag
/// whose things are well formed yields, slot by slot, a health tank for each
/// stolen health tank, an experience tank for each stolen experience tank,
/// an item for each stolen item (the item whose drop code is the stolen
/// item's database position), and nothing for obstacles.
pub proof fn lemma_bag_roundtrip(q: Seq<Option<PickupItem>>)
    requires
        forall|j: int| #![trigger q[j]] 0 <= j < q.len() && (q[j] is Some) ==> well_formed_entry(q[j].unwrap()),
        2 * q.len() + 3 <= u32::MAX,
    ensures
        bag_drops_spec(bag_codes(q)) == expected_drops(q, leading_count(q)),
{
    let k = leading_count(q);
    lemma_leading_count_facts(q);
    lemma_roundtrip_prefix(q, k);
}

/// The slots counted by `leading_count` exist and are filled.
proof fn lemma_leading_count_facts(q: Seq<Option<PickupItem>>)
    ensures
        leading_count(q) <= q.len(),
        forall|j: int| 0 <= j < leading_count(q) ==> q[j] is Some,
    decreases q.len(),
{
    if q.len() > 0 && q[0] is Some {
        let r = q.drop_first();
        lemma_leading_count_facts(r);
        assert forall|j: int| 0 <= j < leading_count(q) implies q[j] is Some by {
            if j > 0 {
                assert(q[j] == r[j - 1]);
            }
        }
    }
}

/// What a thief ran into.
#[derive(Clone, Copy, Debug, PartialEq, Eq, Structural)]
pub enum TheftTarget {
    HealthTank,
    ExpTank,
    Item(ItemType),
    Obstacle,
}

/// The outcome of a thief's collision: what goes into its bag, and whether
/// it has broken enough obstacles to leave the level.
#[derive(Clone, Copy, Debug, PartialEq, Eq, Structural)]
pub struct TheftOutcome {
    pub stolen: Option<PickupItem>,
    pub leaves: bool,
}

/// The thing a target puts in the bag: tanks and items are taken, obstacles
/// are only broken.
pub open spec fn stolen_spec(target: TheftTarget) -> Option<PickupItem> {
    match target {
        TheftTarget::HealthTank => Some(PickupItem { item_type: ItemPicked::HPTank, item_name: None }),
        TheftTarget::ExpTank => Some(PickupItem { item_type: ItemPicked::EXPTank, item_name: None }),
        TheftTarget::Item(n) => Some(PickupItem { item_type: ItemPicked::Item, item_name: Some(n) }),
        TheftTarget::Obstacle => None,
    }
}

/// The rush markers a thief carries: towards a health tank, an experience
/// tank, an item or an obstacle.
#[derive(Clone, Copy, Debug, PartialEq, Eq, Structural)]
pub struct RushMarks {
    pub hp_tank: bool,
    pub exp_tank: bool,
    pub item: bool,
    pub obstacle: bool,
}

/// `1` when `b` holds, else `0`.
pub open spec fn one_if(b: bool) -> int {
    if b { 1 } else { 0 }
}

/// How many rush markers a thief carries.
pub open spec fn marks_count(m: RushMarks) -> int {
    one_if(m.hp_tank) + one_if(m.exp_tank) + one_if(m.item) + one_if(m.obstacle)
}

/// A thief touches `target` while carrying the rush markers `rushes`: the
/// target is taken (tanks, items) or broken (obstacles); a broken obstacle
/// and each rush marker (which the collision uses up) count one obstacle
/// each, and the thief leaves when, after one was counted, the count has
/// reached the limit.
pub fn thief_collide(bag: &mut PickupItemQueue, target: TheftTarget, rushes: RushMarks) -> (r: TheftOutcome)
    requires
        old(bag).amount_of_obstacles + one_if(target == TheftTarget::Obstacle) + marks_count(rushes) <= u8::MAX,
    ensures
        r.stolen == stolen_spec(target),
        final(bag).item_queue@ == old(bag).item_queue@,
        final(bag).amount_of_obstacles == old(bag).amount_of_obstacles + one_if(target == TheftTarget::Obstacle)
            + marks_count(rushes),
        r.leaves == ((target == TheftTarget::Obstacle || marks_count(rushes) > 0) && final(bag).amount_of_obstacles
            >= OBSTACLE_LIMIT),
{
    let stolen = match target {
        TheftTarget::HealthTank => Some(PickupItem { item_type: ItemPicked::HPTank, item_name: None }),
        TheftTarget::ExpTank => Some(PickupItem { item_type: ItemPicked::EXPTank, item_name: None }),
        TheftTarget::Item(n) => Some(PickupItem { item_type: ItemPicked::Item, item_name: Some(n) }),
        TheftTarget::Obstacle => None,
    };
    let mut check = false;
    if stolen.is_none() {
        check = bag.push_obstacle();
    }
    if rushes.hp_tank {
        check = bag.push_obstacle();
    }
    if rushes.exp_tank {
        check = bag.push_obstacle();
    }
    if rushes.item {
        check = bag.push_obstacle();
    }
    if rushes.obstacle {
        check = bag.push_obstacle();
    }
    TheftOutcome { stolen, leaves: check }
}

/// Puts a stolen thing in the bag; returns whether the bag's first five
/// slots are now filled, upon which the thief leaves with its loot.
pub fn stash(bag: &mut PickupItemQueue, item: PickupItem) -> (full: bool)
    requires
        old(bag).item_queue@.len() > 0,
        old(bag).item_queue@.len() <= i32::MAX,
    ensures
        final(bag).item_queue@ == seq![Some(item)] + old(bag).item_queue@.take(
            old(bag).item_queue@.len() - 1,
        ),
        final(bag).amount_of_obstacles == old(bag).amount_of_obstacles,
        full == (leading_count(final(bag).item_queue@) == BAG_SIZE),
{
    bag.push_item(item);
    bag.get_len() == 5
}

/// What a thief goes for once its target is known:
/// a health tank, else an experience tank, else an item, and anything else
/// counts as an obstacle.
pub fn steal_kind(is_hp_tank: bool, is_exp_tank: bool, is_item: bool) -> (k: ItemPicked)
    ensures
        k == (if is_hp_tank {
            ItemPicked::HPTank
        } else if is_exp_tank {
            ItemPicked::EXPTank
        } else if is_item {
            ItemPicked::Item
        } else {
            ItemPicked::Obstacle
        }),
{
    if is_hp_tank {
        ItemPicked::HPTank
    } else if is_exp_tank {
        ItemPicked::EXPTank
    } else if is_item {
        ItemPicked::Item
    } else {
        ItemPicked::Obstacle
    }
}

} // verus!
