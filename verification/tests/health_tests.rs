use dungeon_logic::health::{damage_player, take_first_hit, take_hit, Health, HitList};

#[test]
fn new_health_is_full() {
    let h = Health::new(50);
    assert_eq!((h.max, h.current, h.extra_lives), (50, 50, 0));
}

#[test]
fn heal_caps_at_max() {
    let mut h = Health { max: 100, current: 40, extra_lives: 0 };
    h.heal(30);
    assert_eq!(h.current, 70);
    h.heal(50);
    assert_eq!(h.current, 100);
}

#[test]
fn damage_subtracts() {
    let mut h = Health::new(10);
    h.damage(15);
    assert_eq!(h.current, -5);
}

#[test]
fn extra_life_restores_full_health() {
    let mut h = Health { max: 80, current: -3, extra_lives: 1 };
    assert!(h.avoid_death());
    assert_eq!((h.current, h.extra_lives), (77, 0));
    assert!(!h.avoid_death());
    assert_eq!(h.current, 77);
}

#[test]
fn extra_life_heal_is_capped() {
    let mut h = Health { max: 80, current: 10, extra_lives: 2 };
    assert!(h.avoid_death());
    assert_eq!((h.current, h.extra_lives), (80, 1));
}

#[test]
fn spell_fee() {
    let mut h = Health::new(10);
    assert!(!h.pay_spell_fee(0));
    assert_eq!(h.current, 10);
    assert!(!h.pay_spell_fee(4));
    assert_eq!(h.current, 6);
    assert!(h.pay_spell_fee(6));
    assert_eq!(h.current, 0);
}

#[test]
fn health_tank_only_when_hurt() {
    let mut h = Health::new(100);
    assert!(!h.pick_up_tank(20));
    h.damage(30);
    assert!(h.pick_up_tank(20));
    assert_eq!(h.current, 90);
    assert!(h.pick_up_tank(20));
    assert_eq!(h.current, 100);
}

#[test]
fn hits_stun_all_but_bosses() {
    let mut h = Health::new(30);
    let o = take_hit(&mut h, 10, false);
    assert!(o.stunned && !o.died);
    assert_eq!(h.current, 20);
    let o = take_hit(&mut h, 20, true);
    assert!(!o.stunned && o.died);
    assert_eq!(h.current, 0);
}

#[test]
fn only_the_first_hit_of_a_frame_counts() {
    let mut q = vec![7, 3, 9];
    assert_eq!(take_first_hit(&mut q), Some(7));
    assert!(q.is_empty());
    assert_eq!(take_first_hit::<i32>(&mut q), None);
}

#[test]
fn the_player_dies_at_zero_hit_points() {
    let mut h = Health::new(30);
    assert!(!damage_player(&mut h, 29));
    assert_eq!(h.current, 1);
    assert!(damage_player(&mut h, 1));
    assert_eq!(h.current, 0);
}

#[test]
fn an_attack_hits_a_target_once() {
    let mut l = HitList::new();
    assert!(l.id_list.is_empty() && !l.been_punched);
    assert_eq!(l.timer_to_clear.duration_ms, 2000);
    assert!(l.register(42));
    assert!(l.been_punched);
    assert!(!l.register(42));
    assert!(l.register(7));
    assert_eq!(l.id_list, vec![42, 7]);
}

#[test]
fn the_hit_list_empties_after_two_seconds() {
    let mut l = HitList::new();
    l.tick(5000);
    assert_eq!(l.timer_to_clear.elapsed_ms, 0);
    l.register(1);
    l.tick(1500);
    assert_eq!(l.id_list, vec![1]);
    assert_eq!(l.timer_to_clear.elapsed_ms, 1500);
    l.tick(600);
    assert!(l.id_list.is_empty());
    assert!(!l.been_punched);
    assert_eq!(l.timer_to_clear.elapsed_ms, 100);
}
