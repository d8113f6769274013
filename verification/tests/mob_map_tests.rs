use dungeon_logic::gamemap::TileType;
use dungeon_logic::mob_map::{first_spawn_mobs, MapCell, MobMap, SPAWN_MARK};
use dungeon_logic::mobs::MobType;

fn open_room_map() -> MobMap {
    let mut cells = vec![vec![MapCell { tiletype: TileType::Wall, mob_count: 0 }; 32]; 32];
    for x in 1..31 {
        for y in 1..31 {
            cells[x][y] = MapCell { tiletype: TileType::Floor, mob_count: 0 };
        }
    }
    MobMap { cells }
}

fn marked(m: &MobMap) -> usize {
    m.cells.iter().flatten().filter(|c| c.mob_count == SPAWN_MARK).count()
}

#[test]
fn spawn_passes_mark_exactly_the_amount() {
    let mut m = open_room_map();
    let mut left: u16 = 12;
    let mut passes = 0;
    while left > 0 {
        let before = marked(&m);
        let l = m.spawn_mobs_location_pass(left);
        assert_eq!(marked(&m) - before, (left - l) as usize);
        left = l;
        passes += 1;
        assert!(passes < 100);
    }
    assert_eq!(marked(&m), 12);
    assert_eq!(m.cells[16][16].mob_count, 0);
    for x in 0..32 {
        assert_ne!(m.cells[x][0].mob_count, SPAWN_MARK);
        assert_ne!(m.cells[x][31].mob_count, SPAWN_MARK);
    }
}

#[test]
fn spawn_pass_with_nothing_left_changes_nothing() {
    let mut m = open_room_map();
    assert_eq!(m.spawn_mobs_location_pass(0), 0);
    assert_eq!(marked(&m), 0);
}

#[test]
fn spawn_points_are_taken_in_order() {
    let mut m = open_room_map();
    m.cells[5][7].mob_count = SPAWN_MARK;
    m.cells[2][9].mob_count = SPAWN_MARK;
    m.cells[5][3].mob_count = SPAWN_MARK;
    m.cells[0][3].mob_count = SPAWN_MARK;
    let p = m.take_spawn_points();
    assert_eq!(p, vec![(2, 9), (5, 3), (5, 7)]);
    assert_eq!(m.cells[5][7].mob_count, 0);
    assert_eq!(m.cells[0][3].mob_count, SPAWN_MARK);
}

#[test]
fn first_spawn_uses_the_chapter_pool() {
    let mut m = open_room_map();
    m.cells[5][7].mob_count = SPAWN_MARK;
    m.cells[6][7].mob_count = SPAWN_MARK;
    let spawns = first_spawn_mobs(&mut m, 3);
    assert_eq!(spawns.len(), 2);
    assert_eq!(spawns[0].0, (5, 7));
    assert_eq!(spawns[1].0, (6, 7));
    let pool = [MobType::Necromancer, MobType::FireMage, MobType::Knight, MobType::FireElemental];
    for (_, mob) in &spawns {
        assert!(pool.contains(mob));
    }
    assert_eq!(marked(&m), 0);
}

#[test]
fn low_rolls_mark_the_first_tiles_scanned() {
    let mut m = open_room_map();
    let left = m.mark_spawns(3, &vec![0; 900]);
    assert_eq!(left, 0);
    assert_eq!(marked(&m), 3);
    assert_eq!(m.cells[1][1].mob_count, SPAWN_MARK);
    assert_eq!(m.cells[1][2].mob_count, SPAWN_MARK);
    assert_eq!(m.cells[1][3].mob_count, SPAWN_MARK);
    assert_eq!(m.cells[1][4].mob_count, 0);
}

#[test]
fn high_rolls_mark_only_the_far_corner() {
    let mut m = open_room_map();
    let left = m.mark_spawns(5, &vec![28; 900]);
    assert_eq!(left, 4);
    assert_eq!(marked(&m), 1);
    assert_eq!(m.cells[1][1].mob_count, SPAWN_MARK);
}

#[test]
fn the_highest_roll_marks_nothing() {
    let mut m = open_room_map();
    assert_eq!(m.mark_spawns(5, &vec![31; 900]), 5);
    assert_eq!(marked(&m), 0);
}

#[test]
fn marked_and_wall_tiles_are_passed_over() {
    let mut m = open_room_map();
    m.cells[1][1].mob_count = SPAWN_MARK;
    m.cells[1][2].tiletype = TileType::Wall;
    let left = m.mark_spawns(2, &vec![0; 900]);
    assert_eq!(left, 0);
    assert_eq!(m.cells[1][2].mob_count, 0);
    assert_eq!(m.cells[1][3].mob_count, SPAWN_MARK);
    assert_eq!(m.cells[1][4].mob_count, SPAWN_MARK);
    assert_eq!(marked(&m), 3);
}

#[test]
fn the_middle_of_the_room_never_takes_a_spawn() {
    let mut m = open_room_map();
    let mut rolls = vec![31; 900];
    // the middle tile (16, 16) and a tile beside it (16, 17)
    rolls[15 * 30 + 15] = 0;
    rolls[15 * 30 + 16] = 0;
    // a tile two steps away (17, 17)
    rolls[16 * 30 + 16] = 0;
    assert_eq!(m.mark_spawns(3, &rolls), 2);
    assert_eq!(m.cells[16][16].mob_count, 0);
    assert_eq!(m.cells[16][17].mob_count, 0);
    assert_eq!(m.cells[17][17].mob_count, SPAWN_MARK);
}

#[test]
fn placing_spawns_marks_exactly_the_amount() {
    let mut m = open_room_map();
    assert_eq!(m.place_spawns(40), 0);
    assert_eq!(marked(&m), 40);
}

#[test]
fn a_level_places_the_mobs_of_its_chapter() {
    let mut m = open_room_map();
    let (amount, left) = m.spawn_mobs_location(1);
    assert!((6..10).contains(&amount));
    assert_eq!(left, 0);
    assert_eq!(marked(&m), amount as usize);
    let mut m = open_room_map();
    assert_eq!(m.spawn_mobs_location(8), (2, 0));
    assert_eq!(marked(&m), 2);
}

#[test]
fn static_mobs_are_counted_on_their_tile() {
    let mut m = open_room_map();
    m.mob_entered_tile((4, 5));
    m.mob_entered_tile((4, 5));
    assert_eq!(m.cells[4][5].mob_count, 2);
    m.mob_left_tile((4, 5));
    assert_eq!(m.cells[4][5].mob_count, 1);
    assert_eq!(m.cells[5][4].mob_count, 0);
}
