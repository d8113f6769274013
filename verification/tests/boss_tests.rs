use dungeon_logic::boss::{
    fast_pierce_count, pick_attack, pick_direction, summon_plan, wall_layout, wall_pos,
    BossAttackPlanner, BossAttackType, BossKit, OutOfOrderAttackQueue, PhaseManager, WallDirection, ATTACK_COUNT,
};
use dungeon_logic::boss::{earth_elemental_points, fire_elemental_offsets};
use dungeon_logic::timer::RepeatTimer;
use dungeon_logic::health::Health;
use dungeon_logic::mobs::MobType;
use dungeon_logic::summon::SummonQueue;

#[test]
fn slots_round_trip() {
    for i in 0..ATTACK_COUNT {
        let a = BossAttackType::try_from(i).unwrap();
        assert_eq!(a.slot(), i);
    }
    assert!(BossAttackType::try_from(12).is_err());
}

#[test]
fn largest_weight_wins() {
    assert_eq!(pick_attack(&vec![-5, 3, 10, 2], false), Some(BossAttackType::Radial));
    assert_eq!(pick_attack(&vec![-1, -2], false), None);
    assert_eq!(pick_attack(&vec![0, -2], false), Some(BossAttackType::SpawnEarthElemental));
}

#[test]
fn second_choice_takes_the_runner_up() {
    assert_eq!(pick_attack(&vec![-5, 3, 10, 2], true), Some(BossAttackType::SpawnAirElemental));
    assert_eq!(pick_attack(&vec![10, 3], true), Some(BossAttackType::SpawnEarthElemental));
}

#[test]
fn weights_of_a_fresh_fight_in_the_last_phase() {
    let mut p = BossAttackPlanner::new();
    let q = SummonQueue::new(3);
    let hp = Health::new(3000);
    p.recalculate_weights(&q, &hp, 100, 1);
    assert_eq!(
        p.weight_array,
        vec![5800, 900, -32568, -27468, -32368, 1300, 1400, -32068, -31968, -31868, 1800, -31668]
    );
    assert_eq!(pick_attack(&p.weight_array, false), Some(BossAttackType::SpawnEarthElemental));
}

#[test]
fn weights_fit_in_an_ordinary_fight() {
    let p = BossAttackPlanner::new();
    let q = SummonQueue::new(3);
    assert!(p.weights_fit(&q, &Health::new(3000), 100, 1));
    assert!(p.weights_fit(&q, &Health { max: 3000, current: -500, extra_lives: 0 }, 300, 2));
}

#[test]
fn weights_do_not_fit_with_huge_numbers() {
    let p = BossAttackPlanner::new();
    let q = SummonQueue::new(3);
    let hp = Health { max: i32::MAX, current: i32::MIN, extra_lives: 0 };
    assert!(!p.weights_fit(&q, &hp, 100, 1));
    assert!(p.weights_fit(&q, &Health::new(3000), 5000, 1));
    assert!(!p.weights_fit(&q, &Health::new(3000), 5000, 3));
}

#[test]
fn cooling_attacks_weigh_minus_ten_thousand() {
    let mut p = BossAttackPlanner::new();
    p.start_cooldown(BossAttackType::SpawnAirElemental);
    let q = SummonQueue::new(3);
    let hp = Health::new(3000);
    p.recalculate_weights(&q, &hp, 100, 1);
    assert_eq!(p.weight_array[1], -10000);
    let ticks = p.cooldowns_to_tick(12);
    assert_eq!(ticks.len(), 12);
}

#[test]
fn cooldown_bits_toggle_and_reset() {
    let mut p = BossAttackPlanner::new();
    assert_eq!(p.cooldown_mask, 0xfff);
    p.start_cooldown(BossAttackType::Wall);
    assert_eq!(p.cooldown_mask, 0xfff ^ (1 << 9));
    let mut finished = vec![false; 12];
    finished[9] = true;
    p.mark_ready(&finished);
    assert_eq!(p.cooldown_mask, 0xfff);
}

#[test]
fn defensive_casts_trigger_above_the_threshold() {
    let mut p = BossAttackPlanner::new();
    p.weight_array[8] = 2501;
    p.weight_array[4] = 2500;
    assert!(p.try_cast_blank());
    assert_eq!(p.cooldown_mask, 0xfff ^ (1 << 8));
    assert!(p.try_cast_shield());
    p.weight_array[8] = 2500;
    assert!(!p.try_cast_blank());
}

#[test]
fn koldun_starts_in_its_last_phase() {
    let mut pm = PhaseManager::koldun();
    let mut q = SummonQueue::new(3);
    let hp = Health { max: 3000, current: 10, extra_lives: 0 };
    assert!(pm.switch_phase(&hp, true, &mut q).is_none());
    assert_eq!(pm.current_phase, 3);
}

#[test]
fn phases_change_at_their_threshold() {
    let mut pm = PhaseManager { current_phase: 1, max_phase: 3, phase_change_hp_percent: vec![50, 20] };
    let mut q = SummonQueue::new(3);
    let hp = Health { max: 3000, current: 1501, extra_lives: 0 };
    assert!(pm.switch_phase(&hp, true, &mut q).is_none());
    let hp = Health { max: 3000, current: 1500, extra_lives: 0 };
    let fired = pm.switch_phase(&hp, true, &mut q).unwrap();
    assert_eq!(fired, vec![BossAttackType::Blank; 3]);
    assert_eq!(pm.current_phase, 2);
    assert_eq!((q.queue.len(), q.amount_of_mobs, q.max_amount), (6, 5, 6));
    let hp = Health { max: 3000, current: 600, extra_lives: 0 };
    assert!(pm.switch_phase(&hp, true, &mut q).is_some());
    assert_eq!(pm.current_phase, 3);
    assert_eq!(q.queue.len(), 6);
}

#[test]
fn wall_gaps() {
    let w = wall_layout(12, 15, 1);
    assert_eq!(w.len(), 15);
    assert_eq!(w[0], (9, true, false));
    assert_eq!(w[3], (12, false, false));
    let w = wall_layout(12, 15, 3);
    assert_eq!(w[2], (11, false, false));
    assert_eq!(w[4], (13, false, false));
    assert_eq!(w[6], (15, true, false));
    assert_eq!(w[7], (16, true, true));
}

#[test]
fn wall_directions_follow_the_dice() {
    assert_eq!(pick_direction(true, true, [99, 0, 0, 0]), WallDirection::Right);
    assert_eq!(pick_direction(true, true, [10, 30, 10, 60]), WallDirection::Down);
    assert_eq!(pick_direction(false, false, [50, 50, 50, 50]), WallDirection::Left);
}

#[test]
fn wall_positions() {
    assert_eq!(wall_pos(WallDirection::Down, 3), (96, 736));
    assert_eq!(wall_pos(WallDirection::Up, 3), (96, 288));
    assert_eq!(wall_pos(WallDirection::Left, 2), (736, 64));
    assert_eq!(wall_pos(WallDirection::Right, 2), (288, 64));
}

#[test]
fn summons_and_bolts() {
    assert_eq!(summon_plan(BossAttackType::SpawnClayGolem), Some((MobType::ClayGolem, 2, -64, 128)));
    assert_eq!(summon_plan(BossAttackType::Radial), None);
    assert_eq!(fast_pierce_count(3), 5);
    assert_eq!(fast_pierce_count(1), 2);
}

#[test]
fn out_of_order_attacks_fire_last_first() {
    let mut q = OutOfOrderAttackQueue::new(vec![BossAttackType::Blank, BossAttackType::Wall]);
    assert_eq!(q.next_attack(), Some(BossAttackType::Wall));
    assert_eq!(q.next_attack(), Some(BossAttackType::Blank));
    assert_eq!(q.next_attack(), None);
}

#[test]
fn the_koldun_starts_ready_with_its_cooldowns() {
    let k = BossKit::koldun();
    assert_eq!(k.planner.weight_array, vec![0; 12]);
    assert_eq!(k.planner.cooldown_mask, 4095);
    let d: Vec<u32> = k.cooldowns.iter().map(|t| t.duration_ms).collect();
    assert_eq!(d, vec![4050, 6100, 4050, 6150, 4050, 4050, 4050, 4050, 4050, 4050, 6100, 7500]);
    assert!(k.cooldowns.iter().all(|t| t.elapsed_ms == 0));
    assert_eq!(k.between_attacks, RepeatTimer { duration_ms: 3000, elapsed_ms: 0 });
    assert_eq!(k.teleport_tiles, 5);
    assert_eq!(k.teleport_timer.duration_ms, 5000);
    assert_eq!((k.summons.queue.len(), k.summons.amount_of_mobs, k.summons.max_amount), (20, 0, 20));
    assert_eq!((k.phases.current_phase, k.phases.max_phase), (3, 3));
}

#[test]
fn finished_cooldowns_make_attacks_ready() {
    let mut k = BossKit::koldun();
    k.planner.cooldown_mask = 0;
    k.planner.tick_every_spell_cooldown(&mut k.cooldowns, 4100);
    // every attack of 4.05 s is ready again; the longer ones are not
    assert_eq!(k.planner.cooldown_mask, 0b0011_1111_0101);
    assert_eq!(k.cooldowns[0].elapsed_ms, 50);
    assert_eq!(k.cooldowns[1].elapsed_ms, 4100);
    k.planner.tick_every_spell_cooldown(&mut k.cooldowns, 2000);
    assert_eq!(k.planner.cooldown_mask, 0b0111_1111_0111);
    // the first slot stops while its bit is set; the others always run
    assert_eq!(k.cooldowns[0].elapsed_ms, 50);
    assert_eq!(k.cooldowns[2].elapsed_ms, 2050);
}

#[test]
fn elementals_appear_at_their_places() {
    assert_eq!(earth_elemental_points(), vec![(320, 320), (704, 320), (320, 704), (704, 704)]);
    assert_eq!(fire_elemental_offsets(), vec![(64, 0), (0, 64), (-64, 0), (0, -64)]);
}
