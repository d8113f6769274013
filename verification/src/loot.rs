use vstd::prelude::*;
use crate::dice::roll_below;
use crate::items::{ItemType, random_item};

verus! {

/// What a slain mob leaves behind.
#[derive(Clone, Copy, Debug, PartialEq, Eq, Structural)]
pub enum LootDrop {
    /// A tank that heals this many hit points.
    HealthTank(i32),
    /// A tank that bursts into this many experience orbs.
    ExpTank(u32),
    /// A random item.
    Item,
    Nothing,
}

/// Rolls are drawn from `0..LOOT_ROLL_BOUND`.
pub const LOOT_ROLL_BOUND: u32 = 255;

/// The drop a roll yields: a quarter of the rolls give a health tank of 15,
/// the next 32 an experience tank of 6 orbs, the next 17 an item.
pub open spec fn loot_for_roll_spec(roll: u32) -> LootDrop {
    if roll <= 63 {
        LootDrop::HealthTank(15)
    } else if roll <= 95 {
        LootDrop::ExpTank(6)
    } else if roll <= 112 {
        LootDrop::Item
    } else {
        LootDrop::Nothing
    }
}

/// The drop a loot roll yields.
pub fn loot_for_roll(roll: u32) -> (d: LootDrop)
    ensures
        d == loot_for_roll_spec(roll),
{
    if roll <= 63 {
        LootDrop::HealthTank(15)
    } else if roll <= 95 {
        LootDrop::ExpTank(6)
    } else if roll <= 112 {
        LootDrop::Item
    } else {
        LootDrop::Nothing
    }
}

/// Rolls the loot of a slain mob; an item drop also names the item.
pub fn roll_loot() -> (r: (LootDrop, Option<ItemType>))
    ensures
        exists|roll: u32| roll < LOOT_ROLL_BOUND && r.0 == #[trigger] loot_for_roll_spec(roll),
        (r.0 == LootDrop::Item) == (r.1 is Some),
{
    let roll = roll_below(LOOT_ROLL_BOUND);
    let drop = loot_for_roll(roll);
    assert(drop == loot_for_roll_spec(roll));
    match drop {
        LootDrop::Item => (drop, Some(random_item())),
        _ => (drop, None),
    }
}

} // verus!
