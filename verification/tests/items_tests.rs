use dungeon_logic::elements::{ElementType, Spell};
use dungeon_logic::items::{
    item_from_code, random_item, resistance_element, unlock_save_name, unlocked_spell, ItemType,
    ITEM_COUNT,
};
use dungeon_logic::loot::{loot_for_roll, roll_loot, LootDrop};

#[test]
fn drop_indices() {
    assert_eq!(ItemType::from_index(0), ItemType::Amulet);
    assert_eq!(ItemType::from_index(1), ItemType::Bacon);
    assert_eq!(ItemType::from_index(12), ItemType::BlindRage);
    assert_eq!(ItemType::from_index(20), ItemType::Aquarius);
    assert_eq!(ItemType::from_index(21), ItemType::Amulet);
}

#[test]
fn every_item_has_a_drop_index() {
    let mut seen = vec![false; ITEM_COUNT as usize];
    for i in 0..ITEM_COUNT {
        seen[ItemType::from_index(i).database_index()] = true;
    }
    assert!(seen.iter().all(|s| *s));
}

#[test]
fn database_indices_are_alphabetical() {
    assert_eq!(ItemType::Amulet.database_index(), 0);
    assert_eq!(ItemType::Aquarius.database_index(), 1);
    assert_eq!(ItemType::WispInAJar.database_index(), 20);
}

#[test]
fn stolen_item_codes() {
    assert_eq!(item_from_code(0), ItemType::Amulet);
    assert_eq!(item_from_code(12), ItemType::BlindRage);
    assert_eq!(item_from_code(13), ItemType::Amulet);
    assert_eq!(item_from_code(-1), ItemType::Amulet);
}

#[test]
fn resistance_items() {
    assert_eq!(resistance_element(ItemType::WispInAJar), Some(ElementType::Fire));
    assert_eq!(resistance_element(ItemType::WaterbendingScroll), Some(ElementType::Water));
    assert_eq!(resistance_element(ItemType::Mineral), Some(ElementType::Earth));
    assert_eq!(resistance_element(ItemType::Glider), Some(ElementType::Air));
    assert_eq!(resistance_element(ItemType::Heart), None);
}

#[test]
fn spell_unlocking_items() {
    assert_eq!(unlocked_spell(ItemType::Valve), Some(Spell::Steam));
    assert_eq!(unlocked_spell(ItemType::Aquarius), Some(Spell::WaterElemental));
    assert_eq!(unlocked_spell(ItemType::Bacon), None);
    assert_eq!(unlock_save_name(ItemType::ElementWheel), "black_hole");
    assert_eq!(unlock_save_name(ItemType::Fan), "air_elemental");
    assert_eq!(unlock_save_name(ItemType::Bacon), "");
}

#[test]
fn random_items_vary() {
    let mut seen = vec![false; ITEM_COUNT as usize];
    for _ in 0..4000 {
        seen[random_item().database_index()] = true;
    }
    assert!(seen.iter().filter(|s| **s).count() > 10);
}

#[test]
fn loot_table() {
    assert_eq!(loot_for_roll(0), LootDrop::HealthTank(15));
    assert_eq!(loot_for_roll(63), LootDrop::HealthTank(15));
    assert_eq!(loot_for_roll(64), LootDrop::ExpTank(6));
    assert_eq!(loot_for_roll(95), LootDrop::ExpTank(6));
    assert_eq!(loot_for_roll(96), LootDrop::Item);
    assert_eq!(loot_for_roll(112), LootDrop::Item);
    assert_eq!(loot_for_roll(113), LootDrop::Nothing);
    assert_eq!(loot_for_roll(254), LootDrop::Nothing);
}

#[test]
fn rolled_loot_names_items_only_for_item_drops() {
    let mut kinds = [false; 4];
    for _ in 0..3000 {
        let (d, item) = roll_loot();
        assert_eq!(d == LootDrop::Item, item.is_some());
        let k = match d {
            LootDrop::HealthTank(hp) => {
                assert_eq!(hp, 15);
                0
            }
            LootDrop::ExpTank(n) => {
                assert_eq!(n, 6);
                1
            }
            LootDrop::Item => 2,
            LootDrop::Nothing => 3,
        };
        kinds[k] = true;
    }
    assert!(kinds.iter().all(|k| *k));
}
