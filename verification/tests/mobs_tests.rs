use dungeon_logic::elements::ElementType;
use dungeon_logic::mobs::{
    attack_plan, chapter_mob, BodyKind, chapter_pool_size, is_static_mob, mob_profile, mob_unlock_tag,
    mobs_for_chapter, random_chapter_mob, roll_mobs_for_chapter, AttackPlan, AttackType, MobType,
    ProjectileType,
};

#[test]
fn static_mobs() {
    assert!(is_static_mob(MobType::JungleTurret));
    assert!(is_static_mob(MobType::FireMage));
    assert!(is_static_mob(MobType::WaterMage));
    assert!(is_static_mob(MobType::EarthElemental));
    assert!(!is_static_mob(MobType::Knight));
}

#[test]
fn unlock_tags() {
    assert_eq!(mob_unlock_tag(MobType::Knight), "knight.png");
    assert_eq!(mob_unlock_tag(MobType::JungleTurret), "plant.png");
}

#[test]
fn chapter_pools() {
    assert_eq!(chapter_pool_size(1), 5);
    assert_eq!(chapter_pool_size(2), 5);
    assert_eq!(chapter_pool_size(3), 4);
    assert_eq!(chapter_pool_size(4), 6);
    assert_eq!(chapter_mob(1, 0), MobType::Knight);
    assert_eq!(chapter_mob(2, 4), MobType::ClayGolem);
    assert_eq!(chapter_mob(3, 3), MobType::FireElemental);
    assert_eq!(chapter_mob(4, 0), MobType::Mossling);
    assert_eq!(chapter_mob(8, 5), MobType::Necromancer);
}

#[test]
fn random_chapter_mobs_stay_in_the_pool() {
    let pool = [MobType::Necromancer, MobType::FireMage, MobType::Knight, MobType::FireElemental];
    let mut seen = [false; 4];
    for _ in 0..2000 {
        let m = random_chapter_mob(3);
        let k = pool.iter().position(|p| *p == m).unwrap();
        seen[k] = true;
    }
    assert!(seen.iter().all(|s| *s));
}

#[test]
fn mob_amounts_per_chapter() {
    assert_eq!(mobs_for_chapter(1, 0), 6);
    assert_eq!(mobs_for_chapter(1, 3), 9);
    assert_eq!(mobs_for_chapter(2, 2), 13);
    assert_eq!(mobs_for_chapter(4, 3), 1);
    assert_eq!(mobs_for_chapter(8, 0), 2);
    let mut seen = [false; 4];
    for _ in 0..1000 {
        let n = roll_mobs_for_chapter(1);
        assert!((6..=9).contains(&n));
        seen[(n - 6) as usize] = true;
    }
    assert!(seen.iter().all(|s| *s));
}

#[test]
fn mob_profiles() {
    let (p, resisted) = mob_profile(MobType::Knight).unwrap();
    assert_eq!((p.health, p.contact_damage, p.orbs), (100, 20, 3));
    assert_eq!(p.body, BodyKind::Dynamic);
    assert_eq!(p.resistance, [0, 0, 0, 0, 0]);
    assert!(resisted.is_empty());
    let (p, resisted) = mob_profile(MobType::JungleTurret).unwrap();
    assert_eq!((p.health, p.body), (200, BodyKind::Static));
    assert_eq!(p.resistance, [0, 60, 60, 0, 0]);
    assert_eq!(resisted, vec![ElementType::Earth, ElementType::Water]);
    let (p, _) = mob_profile(MobType::Koldun).unwrap();
    assert_eq!((p.health, p.contact_damage, p.orbs), (3000, 40, 100));
    assert!(mob_profile(MobType::SkeletMage).is_none());
}

#[test]
fn attack_plans() {
    match attack_plan(AttackType::Circle, false, None) {
        AttackPlan::Strikes { texture, amount } => {
            assert_eq!(amount, 16);
            assert_eq!(texture, "textures/slash_horisontal_enemy.png");
        }
        _ => panic!("expected strikes"),
    }
    match attack_plan(AttackType::Spear, true, None) {
        AttackPlan::Strikes { texture, amount } => {
            assert_eq!(amount, 1);
            assert_eq!(texture, "textures/pierce.png");
        }
        _ => panic!("expected strikes"),
    }
    match attack_plan(AttackType::Range, false, Some(ProjectileType::Missile)) {
        AttackPlan::Shot { texture, damage } => {
            assert_eq!(damage, 25);
            assert_eq!(texture, "textures/fireball.png");
        }
        _ => panic!("expected a shot"),
    }
    match attack_plan(AttackType::Range, true, Some(ProjectileType::Gatling)) {
        AttackPlan::Shot { damage, .. } => assert_eq!(damage, 10),
        _ => panic!("expected a shot"),
    }
    assert!(matches!(attack_plan(AttackType::Range, false, None), AttackPlan::Nothing));
}
