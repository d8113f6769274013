use dungeon_logic::world::{
    boss_room_bounds, hub_bounds, hub_item_slots, hub_portal_tile, next_frame, orb_spread,
    portal_destination, record_seen_mob, room_tile, ChapterManager, GameState, PortalManager, RoomTile,
};

#[test]
fn portals_lead_from_level_to_hub_to_loading() {
    assert_eq!(portal_destination(GameState::InGame), Some(GameState::Hub));
    assert_eq!(portal_destination(GameState::Hub), Some(GameState::Loading));
    assert_eq!(portal_destination(GameState::MainMenu), None);
}

#[test]
fn portal_opens_when_the_last_counted_mob_dies() {
    let mut pm = PortalManager::new((0, 0));
    pm.set_mobs(2);
    assert!(!pm.mob_died((1, 1), false));
    assert!(!pm.mob_died((2, 2), true));
    assert_eq!(pm.mobs, 1);
    assert!(pm.mob_died((3, 4), false));
    assert_eq!(pm.get_pos(), (3, 4));
    assert!(pm.no_mobs_on_level());
}

#[test]
fn push_and_pop_mobs() {
    let mut pm = PortalManager::new(7u8);
    pm.push_mob();
    pm.push_mob();
    pm.pop_mob();
    assert_eq!(pm.mobs, 1);
    pm.set_pos(9);
    assert_eq!(pm.get_pos(), 9);
}

#[test]
fn chapters_advance_every_two_levels() {
    let mut c = ChapterManager::new();
    assert_eq!((c.get_current_chapter(), c.get_current_level()), (1, 1));
    assert_eq!(c.advance(), None);
    assert_eq!((c.get_current_chapter(), c.get_current_level()), (1, 2));
    assert_eq!(c.advance(), Some(2));
    assert_eq!((c.get_current_chapter(), c.get_current_level()), (2, 1));
    assert_eq!(c.advance(), None);
    assert_eq!(c.advance(), None);
    assert_eq!((c.get_current_chapter(), c.get_current_level()), (2, 1));
}

#[test]
fn room_tiles() {
    assert_eq!(room_tile(12, 12, 12, 20), RoomTile::Wall);
    assert_eq!(room_tile(15, 20, 12, 20), RoomTile::WallTop);
    assert_eq!(room_tile(12, 20, 12, 20), RoomTile::Wall);
    assert_eq!(room_tile(15, 19, 12, 20), RoomTile::ShadowedFloor);
    assert_eq!(room_tile(15, 15, 12, 20), RoomTile::Floor);
}

#[test]
fn hub_layout() {
    assert_eq!(hub_bounds(), (12, 20));
    assert_eq!(boss_room_bounds(), (8, 24));
    assert_eq!(hub_item_slots(12, 20), vec![(14, 17), (16, 17), (18, 17)]);
    assert_eq!(hub_portal_tile(12, 20), (19, 13));
}

#[test]
fn animation_frames_wrap() {
    assert_eq!(next_frame(1, 0, 3), 2);
    assert_eq!(next_frame(3, 0, 3), 0);
}

#[test]
fn orbs_spread_around_the_hit() {
    assert_eq!(orb_spread(3, 2), (-2, 3));
    assert_eq!(orb_spread(4, 0), (-2, 2));
    assert_eq!(orb_spread(0, 0), (0, 0));
}

#[test]
fn seen_mobs_are_recorded_once() {
    let mut seen = vec!["knight.png".to_string()];
    assert!(!record_seen_mob(&mut seen, "knight.png"));
    assert!(record_seen_mob(&mut seen, "plant.png"));
    assert!(!record_seen_mob(&mut seen, "plant.png"));
    assert_eq!(seen, vec!["knight.png".to_string(), "plant.png".to_string()]);
}
