use dungeon_logic::items::ItemType;
use dungeon_logic::thief::{
    decode_bag, encode_bag, kind_code, stash, steal_kind, thief_collide, BagDrop, ItemPicked,
    PickupItem, PickupItemQueue, RushMarks, TheftTarget, BAG_SIZE, OBSTACLE_LIMIT,
};

fn no_rush() -> RushMarks {
    RushMarks { hp_tank: false, exp_tank: false, item: false, obstacle: false }
}

fn tank() -> PickupItem {
    PickupItem { item_type: ItemPicked::HPTank, item_name: None }
}

fn exp() -> PickupItem {
    PickupItem { item_type: ItemPicked::EXPTank, item_name: None }
}

fn item(i: ItemType) -> PickupItem {
    PickupItem { item_type: ItemPicked::Item, item_name: Some(i) }
}

#[test]
fn kind_codes() {
    assert_eq!(kind_code(ItemPicked::HPTank), 0);
    assert_eq!(kind_code(ItemPicked::EXPTank), 1);
    assert_eq!(kind_code(ItemPicked::Item), 2);
    assert_eq!(kind_code(ItemPicked::Obstacle), 3);
}

#[test]
fn new_bag_is_empty() {
    let q = PickupItemQueue::new();
    assert_eq!(q.item_queue.len(), BAG_SIZE);
    assert_eq!(q.get_len(), 0);
    assert_eq!(q.amount_of_obstacles, 0);
}

#[test]
fn items_enter_at_the_front() {
    let mut q = PickupItemQueue::new();
    q.push_item(tank());
    q.push_item(exp());
    assert_eq!(q.item_queue[0], Some(exp()));
    assert_eq!(q.item_queue[1], Some(tank()));
    assert_eq!(q.get_len(), 2);
    q.empty_queue();
    assert_eq!(q.get_len(), 0);
    assert_eq!(q.item_queue.len(), BAG_SIZE);
}

#[test]
fn the_bag_fills_at_five() {
    let mut q = PickupItemQueue::new();
    for k in 0..4 {
        assert!(!stash(&mut q, tank()));
        assert_eq!(q.get_len(), k + 1);
    }
    assert!(stash(&mut q, exp()));
}

#[test]
fn obstacles_count_to_the_limit() {
    let mut q = PickupItemQueue::new();
    for _ in 1..OBSTACLE_LIMIT {
        assert!(!q.push_obstacle());
    }
    assert!(q.push_obstacle());
}

#[test]
fn encode_lists_kinds_and_items() {
    let mut q = PickupItemQueue::new();
    q.push_item(tank());
    q.push_item(item(ItemType::Heart));
    assert_eq!(encode_bag(&q), vec![2, 11, 0]);
}

#[test]
fn decode_turns_codes_into_drops() {
    let drops = decode_bag(&vec![0, 1, 2, 5, 3]);
    assert_eq!(
        drops,
        vec![
            (2, BagDrop::HealthTank(20)),
            (3, BagDrop::ExpTank(6)),
            (5, BagDrop::Item(ItemType::from_index(5))),
        ]
    );
}

#[test]
fn tanks_survive_the_round_trip() {
    let mut q = PickupItemQueue::new();
    q.push_item(exp());
    q.push_item(tank());
    let drops = decode_bag(&encode_bag(&q));
    assert_eq!(drops, vec![(2, BagDrop::HealthTank(20)), (3, BagDrop::ExpTank(6))]);
}

#[test]
fn items_come_back_by_drop_index() {
    let mut q = PickupItemQueue::new();
    q.push_item(item(ItemType::Bacon));
    let drops = decode_bag(&encode_bag(&q));
    assert_eq!(drops, vec![(3, BagDrop::Item(ItemType::from_index(2)))]);
    assert_eq!(ItemType::from_index(2), ItemType::Heart);
}

#[test]
fn thief_takes_tanks_and_breaks_obstacles() {
    let mut q = PickupItemQueue::new();
    let r = thief_collide(&mut q, TheftTarget::HealthTank, no_rush());
    assert_eq!(r.stolen, Some(tank()));
    assert!(!r.leaves);
    let r = thief_collide(&mut q, TheftTarget::Item(ItemType::Fan), no_rush());
    assert_eq!(r.stolen, Some(item(ItemType::Fan)));
    let r = thief_collide(&mut q, TheftTarget::Obstacle, no_rush());
    assert_eq!(r.stolen, None);
    assert_eq!(q.amount_of_obstacles, 1);
}

#[test]
fn steal_priorities() {
    assert_eq!(steal_kind(true, true, true), ItemPicked::HPTank);
    assert_eq!(steal_kind(false, true, true), ItemPicked::EXPTank);
    assert_eq!(steal_kind(false, false, true), ItemPicked::Item);
    assert_eq!(steal_kind(false, false, false), ItemPicked::Obstacle);
}

#[test]
fn every_rush_marker_counts_an_obstacle() {
    let mut q = PickupItemQueue::new();
    let rushes = RushMarks { hp_tank: true, exp_tank: false, item: true, obstacle: true };
    let r = thief_collide(&mut q, TheftTarget::Obstacle, rushes);
    assert_eq!(q.amount_of_obstacles, 4);
    assert!(!r.leaves);
    let r = thief_collide(&mut q, TheftTarget::ExpTank, rushes);
    assert_eq!(q.amount_of_obstacles, 7);
    assert_eq!(r.stolen, Some(exp()));
    assert!(!r.leaves);
    let r = thief_collide(&mut q, TheftTarget::HealthTank, RushMarks { hp_tank: true, ..no_rush() });
    assert_eq!(q.amount_of_obstacles, OBSTACLE_LIMIT);
    assert!(r.leaves);
}
