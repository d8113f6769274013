use vstd::prelude::*;
use crate::elements::{ElementType, Spell};
use crate::dice::roll_below;

verus! {

/// Every item of the game. The declaration order is alphabetical: it is the
/// order of the records in the item database.
#[derive(Clone, Copy, Debug, PartialEq, Eq, Structural)]
pub enum ItemType {
    Amulet,
    Aquarius,
    Bacon,
    Blank,
    BlindRage,
    BloodGoblet,
    ElementWheel,
    Fan,
    FieryShard,
    GhostInTheShell,
    Glider,
    Heart,
    LizardTail,
    Mineral,
    NotchedPickaxe,
    Shield,
    SpeedPotion,
    Valve,
    VampireTooth,
    WaterbendingScroll,
    WispInAJar,
}

/// Number of different items.
pub const ITEM_COUNT: u32 = 21;

/// The item a drop index names: the drop table lists items in the order in
/// which they were added to the game; unknown indices name the amulet.
pub open spec fn item_from_index_spec(index: u32) -> ItemType {
    if index == 0 { ItemType::Amulet }
    else if index == 1 { ItemType::Bacon }
    else if index == 2 { ItemType::Heart }
    else if index == 3 { ItemType::LizardTail }
    else if index == 4 { ItemType::SpeedPotion }
    else if index == 5 { ItemType::WispInAJar }
    else if index == 6 { ItemType::WaterbendingScroll }
    else if index == 7 { ItemType::Mineral }
    else if index == 8 { ItemType::Glider }
    else if index == 9 { ItemType::GhostInTheShell }
    else if index == 10 { ItemType::VampireTooth }
    else if index == 11 { ItemType::BloodGoblet }
    else if index == 12 { ItemType::BlindRage }
    else if index == 13 { ItemType::Valve }
    else if index == 14 { ItemType::FieryShard }
    else if index == 15 { ItemType::ElementWheel }
    else if index == 16 { ItemType::NotchedPickaxe }
    else if index == 17 { ItemType::Fan }
    else if index == 18 { ItemType::Shield }
    else if index == 19 { ItemType::Blank }
    else if index == 20 { ItemType::Aquarius }
    else { ItemType::Amulet }
}

/// Position of the item's record in the item database (alphabetical order).
pub open spec fn database_index_spec(item: ItemType) -> nat {
    match item {
        ItemType::Amulet => 0,
        ItemType::Aquarius => 1,
        ItemType::Bacon => 2,
        ItemType::Blank => 3,
        ItemType::BlindRage => 4,
        ItemType::BloodGoblet => 5,
        ItemType::ElementWheel => 6,
        ItemType::Fan => 7,
        ItemType::FieryShard => 8,
        ItemType::GhostInTheShell => 9,
        ItemType::Glider => 10,
        ItemType::Heart => 11,
        ItemType::LizardTail => 12,
        ItemType::Mineral => 13,
        ItemType::NotchedPickaxe => 14,
        ItemType::Shield => 15,
        ItemType::SpeedPotion => 16,
        ItemType::Valve => 17,
        ItemType::VampireTooth => 18,
        ItemType::WaterbendingScroll => 19,
        ItemType::WispInAJar => 20,
    }
}

impl ItemType {
    /// The item a drop index names (see `item_from_index_spec`).
    pub fn from_index(index: u32) -> (item: ItemType)
        ensures
            item == item_from_index_spec(index),
    {
        match index {
            0 => ItemType::Amulet,
            1 => ItemType::Bacon,
            2 => ItemType::Heart,
            3 => ItemType::LizardTail,
            4 => ItemType::SpeedPotion,
            5 => ItemType::WispInAJar,
            6 => ItemType::WaterbendingScroll,
            7 => ItemType::Mineral,
            8 => ItemType::Glider,
            9 => ItemType::GhostInTheShell,
            10 => ItemType::VampireTooth,
            11 => ItemType::BloodGoblet,
            12 => ItemType::BlindRage,
            13 => ItemType::Valve,
            14 => ItemType::FieryShard,
            15 => ItemType::ElementWheel,
            16 => ItemType::NotchedPickaxe,
            17 => ItemType::Fan,
            18 => ItemType::Shield,
            19 => ItemType::Blank,
            20 => ItemType::Aquarius,
            _ => ItemType::Amulet,
        }
    }

    /// Position of the item's record in the item database.
    pub fn database_index(&self) -> (r: usize)
        ensures
            r == database_index_spec(*self),
            r < ITEM_COUNT,
    {
        match self {
            ItemType::Amulet => 0,
            ItemType::Aquarius => 1,
            ItemType::Bacon => 2,
            ItemType::Blank => 3,
            ItemType::BlindRage => 4,
            ItemType::BloodGoblet => 5,
            ItemType::ElementWheel => 6,
            ItemType::Fan => 7,
            ItemType::FieryShard => 8,
            ItemType::GhostInTheShell => 9,
            ItemType::Glider => 10,
            ItemType::Heart => 11,
            ItemType::LizardTail => 12,
            ItemType::Mineral => 13,
            ItemType::NotchedPickaxe => 14,
            ItemType::Shield => 15,
            ItemType::SpeedPotion => 16,
            ItemType::Valve => 17,
            ItemType::VampireTooth => 18,
            ItemType::WaterbendingScroll => 19,
            ItemType::WispInAJar => 20,
        }
    }
}

/// Every item is named by exactly one drop index below 21.
pub proof fn lemma_drop_index_covers_every_item(item: ItemType)
    ensures
        exists|i: u32| i < ITEM_COUNT && #[trigger] item_from_index_spec(i) == item,
{
    let i: u32 = match item {
        ItemType::Amulet => 0,
        ItemType::Bacon => 1,
        ItemType::Heart => 2,
        ItemType::LizardTail => 3,
        ItemType::SpeedPotion => 4,
        ItemType::WispInAJar => 5,
        ItemType::WaterbendingScroll => 6,
        ItemType::Mineral => 7,
        ItemType::Glider => 8,
        ItemType::GhostInTheShell => 9,
        ItemType::VampireTooth => 10,
        ItemType::BloodGoblet => 11,
        ItemType::BlindRage => 12,
        ItemType::Valve => 13,
        ItemType::FieryShard => 14,
        ItemType::ElementWheel => 15,
        ItemType::NotchedPickaxe => 16,
        ItemType::Fan => 17,
        ItemType::Shield => 18,
        ItemType::Blank => 19,
        ItemType::Aquarius => 20,
    };
    assert(item_from_index_spec(i) == item);
}

/// A random item, every item equally likely.
pub fn random_item() -> (item: ItemType)
    ensures
        exists|roll: u32| roll < ITEM_COUNT && item == #[trigger] item_from_index_spec(roll),
{
    let i = roll_below(ITEM_COUNT);
    ItemType::from_index(i)
}

/// The item a stolen-item code stands for: the first thirteen items of the
/// drop table; any other code falls back to the amulet.
pub open spec fn item_from_code_spec(code: i32) -> ItemType {
    if 0 <= code <= 12 {
        item_from_index_spec(code as u32)
    } else {
        ItemType::Amulet
    }
}

/// Decodes an item from the code it carries in a thief's bag.
pub fn item_from_code(code: i32) -> (item: ItemType)
    ensures
        item == item_from_code_spec(code),
{
    if 0 <= code && code <= 12 {
        ItemType::from_index(code as u32)
    } else {
        ItemType::Amulet
    }
}

/// The element against which a resistance item protects.
pub open spec fn resistance_element_spec(item: ItemType) -> Option<ElementType> {
    match item {
        ItemType::WispInAJar => Some(ElementType::Fire),
        ItemType::WaterbendingScroll => Some(ElementType::Water),
        ItemType::Mineral => Some(ElementType::Earth),
        ItemType::Glider => Some(ElementType::Air),
        _ => None,
    }
}

/// Percent of resistance a resistance item adds.
pub const RESISTANCE_ITEM_PERCENT: i16 = 20;

/// The element a picked-up item makes the player resist, if it is a resistance item.
pub fn resistance_element(item: ItemType) -> (e: Option<ElementType>)
    ensures
        e == resistance_element_spec(item),
{
    match item {
        ItemType::WispInAJar => Some(ElementType::Fire),
        ItemType::WaterbendingScroll => Some(ElementType::Water),
        ItemType::Mineral => Some(ElementType::Earth),
        ItemType::Glider => Some(ElementType::Air),
        _ => None,
    }
}

/// The spell an item unlocks.
pub open spec fn unlocked_spell_spec(item: ItemType) -> Option<Spell> {
    match item {
        ItemType::FieryShard => Some(Spell::FireElemental),
        ItemType::Valve => Some(Spell::Steam),
        ItemType::ElementWheel => Some(Spell::BlackHole),
        ItemType::NotchedPickaxe => Some(Spell::EarthElemental),
        ItemType::Fan => Some(Spell::AirElemental),
        ItemType::Shield => Some(Spell::Shield),
        ItemType::Blank => Some(Spell::Blank),
        ItemType::Aquarius => Some(Spell::WaterElemental),
        _ => None,
    }
}

/// The spell a picked-up item unlocks, if it is a spell item.
pub fn unlocked_spell(item: ItemType) -> (s: Option<Spell>)
    ensures
        s == unlocked_spell_spec(item),
{
    match item {
        ItemType::FieryShard => Some(Spell::FireElemental),
        ItemType::Valve => Some(Spell::Steam),
        ItemType::ElementWheel => Some(Spell::BlackHole),
        ItemType::NotchedPickaxe => Some(Spell::EarthElemental),
        ItemType::Fan => Some(Spell::AirElemental),
        ItemType::Shield => Some(Spell::Shield),
        ItemType::Blank => Some(Spell::Blank),
        ItemType::Aquarius => Some(Spell::WaterElemental),
        _ => None,
    }
}

/// The name under which the save file records the spell an item unlocks;
/// empty for items that unlock no spell.
pub fn unlock_save_name(item: ItemType) -> (name: &'static str)
    ensures
        item == ItemType::FieryShard ==> name@ == "fire_elemental"@,
        item == ItemType::Valve ==> name@ == "steam"@,
        item == ItemType::ElementWheel ==> name@ == "black_hole"@,
        item == ItemType::NotchedPickaxe ==> name@ == "earth_elemental"@,
        item == ItemType::Fan ==> name@ == "air_elemental"@,
        item == ItemType::Shield ==> name@ == "shield"@,
        item == ItemType::Blank ==> name@ == "blank"@,
        item == ItemType::Aquarius ==> name@ == "water_elemental"@,
        unlocked_spell_spec(item) is None ==> name@ == ""@,
{
    match item {
        ItemType::FieryShard => "fire_elemental",
        ItemType::Valve => "steam",
        ItemType::ElementWheel => "black_hole",
        ItemType::NotchedPickaxe => "earth_elemental",
        ItemType::Fan => "air_elemental",
        ItemType::Shield => "shield",
        ItemType::Blank => "blank",
        ItemType::Aquarius => "water_elemental",
        _ => "",
    }
}

} // verus!
