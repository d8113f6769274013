use dungeon_logic::mobs::MobType;
use dungeon_logic::summon::{enlist_summon, first_dead_summon, SummonQueue, SummonUnit};

fn unit(id: u64, m: MobType) -> SummonUnit {
    SummonUnit { entity: Some(id), mob_type: m }
}

fn filler() -> SummonUnit {
    SummonUnit { entity: None, mob_type: MobType::Mossling }
}

#[test]
fn new_queue_is_empty() {
    let q = SummonQueue::new(3);
    assert_eq!(q.queue, vec![filler(); 3]);
    assert_eq!((q.amount_of_mobs, q.max_amount), (0, 3));
    assert!(!q.is_overflowed());
}

#[test]
fn pop_gives_the_oldest() {
    let mut q = SummonQueue::new(3);
    q.push(unit(1, MobType::Knight));
    q.push(unit(2, MobType::ClayGolem));
    assert_eq!(q.queue[0], unit(2, MobType::ClayGolem));
    assert_eq!(q.queue[1], unit(1, MobType::Knight));
    assert_eq!(q.pop(), unit(1, MobType::Knight));
    assert_eq!(q.amount_of_mobs, 1);
}

#[test]
fn push_then_pop_on_an_empty_queue_gives_the_pushed_unit() {
    let mut q = SummonQueue::new(2);
    q.push(unit(9, MobType::FireElemental));
    assert_eq!(q.pop(), unit(9, MobType::FireElemental));
    assert_eq!(q.amount_of_mobs, 0);
}

#[test]
fn overflow_at_the_cap() {
    let mut q = SummonQueue::new(2);
    q.push(unit(1, MobType::Knight));
    q.push(unit(2, MobType::Knight));
    assert!(q.is_overflowed());
    q.resize(5);
    assert!(!q.is_overflowed());
    q.empty();
    assert_eq!(q.amount_of_mobs, 0);
    assert_eq!(q.queue.len(), 2);
}

#[test]
fn shift_removes_a_place() {
    let mut q = SummonQueue::new(3);
    q.push(unit(1, MobType::Knight));
    q.push(unit(2, MobType::ClayGolem));
    q.push(unit(3, MobType::AirElemental));
    q.shift(1);
    assert_eq!(
        q.queue,
        vec![unit(3, MobType::AirElemental), unit(1, MobType::Knight), filler()]
    );
    assert_eq!(q.amount_of_mobs, 2);
}

#[test]
fn reshape_grows_and_shrinks() {
    let mut q = SummonQueue::new(2);
    q.push(unit(1, MobType::Knight));
    q.reshape(4, 1);
    assert_eq!(q.queue, vec![unit(1, MobType::Knight), filler(), filler(), filler()]);
    assert_eq!((q.amount_of_mobs, q.max_amount), (1, 4));
    q.reshape(1, 0);
    assert_eq!(q.queue, vec![unit(1, MobType::Knight)]);
}

#[test]
fn dead_summons_are_found_first_to_last() {
    let mut q = SummonQueue::new(3);
    q.push(unit(1, MobType::Knight));
    q.push(unit(2, MobType::ClayGolem));
    assert_eq!(first_dead_summon(&q, &vec![true, true, false]), None);
    assert_eq!(first_dead_summon(&q, &vec![true, false, false]), Some(1));
    assert_eq!(first_dead_summon(&q, &vec![false, false, false]), Some(0));
}

#[test]
fn enlisting_drops_the_last_unit() {
    let mut q = SummonQueue::new(3);
    q.queue = vec![unit(1, MobType::Knight), unit(2, MobType::Knight), unit(3, MobType::Knight)];
    let evicted = enlist_summon(&mut q, unit(4, MobType::ClayGolem));
    assert_eq!(evicted, Some(unit(3, MobType::Knight)));
    assert_eq!(
        q.queue,
        vec![unit(4, MobType::ClayGolem), unit(1, MobType::Knight), unit(3, MobType::Knight)]
    );
    let mut q = SummonQueue::new(2);
    assert_eq!(enlist_summon(&mut q, unit(5, MobType::Knight)), None);
    assert_eq!(q.queue, vec![unit(5, MobType::Knight), filler()]);
}
