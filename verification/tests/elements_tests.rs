use dungeon_logic::mobs::MobType;
use dungeon_logic::elements::{
    blank_range, shield_duration, spell_summon, choose_recipe, dominant_element, spell_damage, spell_volley, ElementBar, ElementResistance,
    ElementType, Spell, SpellPool,
};

fn bar(fire: u8, water: u8, earth: u8, air: u8) -> ElementBar {
    ElementBar { fire, water, earth, air, max: 10 }
}

#[test]
fn element_indices_round_trip() {
    for i in 0..5u32 {
        let e = ElementType::from_index(i);
        assert_eq!(e.index(), i as usize);
    }
    assert_eq!(ElementType::from_index(7), ElementType::Fire);
    assert_eq!(ElementType::Steam.index(), 4);
}

#[test]
fn new_pool_has_the_four_elements() {
    let p = SpellPool::new();
    assert_eq!(p.unlocked, vec![Spell::Fire, Spell::Water, Spell::Earth, Spell::Air]);
    assert!(p.is_unlocked(Spell::Air));
    assert!(!p.is_unlocked(Spell::Steam));
}

#[test]
fn unlock_adds_once() {
    let mut p = SpellPool::new();
    p.unlock(Spell::Steam);
    p.unlock(Spell::Steam);
    p.unlock(Spell::Fire);
    assert_eq!(
        p.unlocked,
        vec![Spell::Fire, Spell::Water, Spell::Earth, Spell::Air, Spell::Steam]
    );
}

#[test]
fn bar_respects_capacity() {
    let mut b = ElementBar::new();
    assert_eq!(b.max, 1);
    b.add(ElementType::Fire);
    b.add(ElementType::Water);
    assert_eq!((b.fire, b.water, b.len()), (1, 0, 1));
    b.clear();
    assert_eq!(b.len(), 0);
    assert_eq!(b.max, 1);
}

#[test]
fn steam_cannot_be_added() {
    let mut b = bar(0, 0, 0, 0);
    b.add(ElementType::Steam);
    assert_eq!(b.len(), 0);
    b.add(ElementType::Earth);
    assert_eq!(b.earth, 1);
}

#[test]
fn resistance_add_records_element_once() {
    let mut r = ElementResistance::none();
    assert!(!r.resists(ElementType::Water));
    r.add(ElementType::Water, 20);
    r.add(ElementType::Water, 20);
    assert!(r.resists(ElementType::Water));
    assert_eq!(r.elements, vec![ElementType::Water]);
    assert_eq!(r.resistance_percent, vec![0, 40, 0, 0, 0]);
}

#[test]
fn dominant_element_ties_go_to_fire_first() {
    assert_eq!(dominant_element(&bar(1, 1, 1, 1)), ElementType::Fire);
    assert_eq!(dominant_element(&bar(0, 2, 2, 1)), ElementType::Water);
    assert_eq!(dominant_element(&bar(0, 0, 1, 3)), ElementType::Air);
}

#[test]
fn basic_recipes() {
    let p = SpellPool::new();
    let c = choose_recipe(&bar(2, 1, 0, 0), &p).unwrap();
    assert_eq!(c.spell, Spell::Fire);
    assert_eq!(c.element, ElementType::Fire);
    assert_eq!(choose_recipe(&bar(0, 3, 0, 0), &p).unwrap().spell, Spell::Water);
    assert_eq!(choose_recipe(&bar(1, 0, 2, 0), &p).unwrap().spell, Spell::Earth);
    assert_eq!(choose_recipe(&bar(0, 0, 2, 1), &p).unwrap().spell, Spell::Air);
}

#[test]
fn balanced_fire_and_water_cast_nothing_without_steam() {
    let p = SpellPool::new();
    assert!(choose_recipe(&bar(1, 1, 0, 0), &p).is_none());
    assert!(choose_recipe(&bar(0, 0, 0, 0), &p).is_none());
}

#[test]
fn steam_once_unlocked() {
    let mut p = SpellPool::new();
    p.unlock(Spell::Steam);
    let c = choose_recipe(&bar(1, 1, 0, 0), &p).unwrap();
    assert_eq!(c.spell, Spell::Steam);
    assert_eq!(c.element, ElementType::Steam);
}

#[test]
fn special_recipes_need_unlocking() {
    let mut p = SpellPool::new();
    assert_eq!(choose_recipe(&bar(0, 1, 2, 0), &p).unwrap().spell, Spell::Earth);
    p.unlock(Spell::Shield);
    assert_eq!(choose_recipe(&bar(0, 1, 2, 0), &p).unwrap().spell, Spell::Shield);
    p.unlock(Spell::Blank);
    assert_eq!(choose_recipe(&bar(0, 1, 0, 2), &p).unwrap().spell, Spell::Blank);
    p.unlock(Spell::BlackHole);
    assert_eq!(choose_recipe(&bar(1, 1, 1, 1), &p).unwrap().spell, Spell::BlackHole);
    p.unlock(Spell::FireElemental);
    assert_eq!(choose_recipe(&bar(2, 1, 1, 0), &p).unwrap().spell, Spell::FireElemental);
    p.unlock(Spell::WaterElemental);
    assert_eq!(choose_recipe(&bar(1, 2, 1, 0), &p).unwrap().spell, Spell::WaterElemental);
    p.unlock(Spell::EarthElemental);
    assert_eq!(choose_recipe(&bar(1, 1, 2, 0), &p).unwrap().spell, Spell::EarthElemental);
    p.unlock(Spell::AirElemental);
    assert_eq!(choose_recipe(&bar(1, 1, 0, 2), &p).unwrap().spell, Spell::AirElemental);
}

#[test]
fn any_unbalanced_bar_casts_something() {
    let p = SpellPool::new();
    for f in 0..4u8 {
        for w in 0..4u8 {
            for e in 0..4u8 {
                for a in 0..4u8 {
                    let b = bar(f, w, e, a);
                    let total = f + w + e + a;
                    let balanced = f == w && e == 0 && a == 0;
                    if total > 0 && !balanced {
                        assert!(choose_recipe(&b, &p).is_some());
                    }
                }
            }
        }
    }
}

#[test]
fn damage_scales_with_charges() {
    assert_eq!(spell_damage(20, &bar(1, 1, 1, 0)), 60);
    assert_eq!(spell_damage(7, &bar(0, 0, 0, 0)), 0);
}

#[test]
fn volleys() {
    let v = spell_volley(Spell::Fire, &bar(2, 1, 0, 0), 90).unwrap();
    assert_eq!((v.count, v.damage_each), (6, 45));
    let v = spell_volley(Spell::Water, &bar(0, 3, 0, 0), 100).unwrap();
    assert_eq!((v.count, v.damage_each), (9, 33));
    let v = spell_volley(Spell::Earth, &bar(1, 0, 2, 0), 50).unwrap();
    assert_eq!((v.count, v.damage_each), (9, 50));
    let v = spell_volley(Spell::Air, &bar(0, 0, 0, 2), 40).unwrap();
    assert_eq!((v.count, v.damage_each), (1, 40));
    let v = spell_volley(Spell::Steam, &bar(1, 2, 0, 0), 60).unwrap();
    assert_eq!((v.count, v.damage_each), (9, 20));
    assert!(spell_volley(Spell::Shield, &bar(0, 1, 2, 0), 10).is_none());
}

#[test]
fn elemental_spells_summon_friends() {
    assert_eq!(spell_summon(Spell::FireElemental), Some(MobType::FireElemental));
    assert_eq!(spell_summon(Spell::WaterElemental), Some(MobType::WaterElemental));
    assert_eq!(spell_summon(Spell::EarthElemental), Some(MobType::EarthElemental));
    assert_eq!(spell_summon(Spell::AirElemental), Some(MobType::AirElemental));
    assert_eq!(spell_summon(Spell::Fire), None);
}

#[test]
fn shield_and_blank_sizes() {
    assert_eq!(shield_duration(&bar(0, 1, 3, 0), 2), 8);
    assert_eq!(blank_range(&bar(0, 1, 0, 4), 0), 8);
}
