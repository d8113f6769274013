use dungeon_logic::gamemap::{
    create_walls, direction_for_roll, number_of_floors, random_direction, remove_single_walls,
    Direction, LevelGenerator, RoundRolls, TileType, Walker,
};

fn grid(w: usize, h: usize, t: TileType) -> Vec<Vec<TileType>> {
    vec![vec![t; h]; w]
}

#[test]
fn walls_surround_floors() {
    let mut g = grid(5, 5, TileType::Empty);
    g[2][2] = TileType::Floor;
    create_walls(&mut g, 5, 5);
    assert_eq!(g[2][1], TileType::Wall);
    assert_eq!(g[2][3], TileType::Wall);
    assert_eq!(g[1][2], TileType::Wall);
    assert_eq!(g[3][2], TileType::Wall);
    assert_eq!(g[1][1], TileType::Empty);
    assert_eq!(g[2][2], TileType::Floor);
}

#[test]
fn floors_in_the_last_column_get_no_walls() {
    let mut g = grid(4, 4, TileType::Empty);
    g[3][2] = TileType::Floor;
    create_walls(&mut g, 4, 4);
    assert_eq!(g, {
        let mut e = grid(4, 4, TileType::Empty);
        e[3][2] = TileType::Floor;
        e
    });
}

#[test]
fn lone_walls_become_floor() {
    let mut g = grid(4, 4, TileType::Floor);
    g[1][1] = TileType::Wall;
    g[2][2] = TileType::Wall;
    g[2][3] = TileType::Empty;
    remove_single_walls(&mut g, 4, 4);
    assert_eq!(g[1][1], TileType::Floor);
    assert_eq!(g[2][2], TileType::Wall);
}

#[test]
fn walls_on_the_last_row_stay() {
    let mut g = grid(3, 3, TileType::Floor);
    g[1][2] = TileType::Wall;
    remove_single_walls(&mut g, 3, 3);
    assert_eq!(g[1][2], TileType::Wall);
}

#[test]
fn floors_are_counted() {
    let mut g = grid(3, 4, TileType::Empty);
    assert_eq!(number_of_floors(&g, 3, 4), 0);
    g[0][0] = TileType::Floor;
    g[2][3] = TileType::Floor;
    g[1][1] = TileType::Wall;
    assert_eq!(number_of_floors(&g, 3, 4), 2);
}

#[test]
fn directions_by_roll() {
    assert_eq!(direction_for_roll(0), Direction::Down);
    assert_eq!(direction_for_roll(1), Direction::Left);
    assert_eq!(direction_for_roll(2), Direction::Up);
    assert_eq!(direction_for_roll(3), Direction::Right);
    let mut seen = [false; 4];
    for _ in 0..400 {
        let k = match random_direction() {
            Direction::Down => 0,
            Direction::Left => 1,
            Direction::Up => 2,
            Direction::Right => 3,
        };
        seen[k] = true;
    }
    assert!(seen.iter().all(|s| *s));
}

#[test]
fn generator_defaults() {
    let g = LevelGenerator::new();
    assert_eq!((g.room_width, g.room_height, g.walkers.len()), (0, 0, 0));
    assert_eq!(
        (g.chance_walker_change_dir, g.chance_walker_spawn, g.chance_walker_destroy),
        (50, 5, 5)
    );
    assert_eq!((g.max_walkers, g.percent_to_fill), (10, 20));
}

#[test]
fn setup_places_a_walker_in_the_middle() {
    let mut g = LevelGenerator::new();
    g.room_width = 7;
    g.room_height = 10;
    g.setup();
    assert_eq!(g.grid, grid(7, 10, TileType::Empty));
    assert_eq!(g.walkers.len(), 1);
    assert_eq!(g.walkers[0].pos, (4, 5));
}

#[test]
fn generated_levels_are_dug_and_walled() {
    let mut g = LevelGenerator::new();
    g.room_width = 30;
    g.room_height = 30;
    g.start();
    assert_eq!(g.grid.len(), 30);
    assert!(g.grid.iter().all(|c| c.len() == 30));
    for y in 0..30 {
        assert_ne!(g.grid[0][y], TileType::Floor);
    }
    for x in 0..30 {
        assert_ne!(g.grid[x][0], TileType::Floor);
    }
    let floors = number_of_floors(&g.grid, 30, 30);
    assert!(floors * 5 > 30 * 30);
    assert!(g.walkers.len() >= 1 && g.walkers.len() <= 10);
    for w in &g.walkers {
        assert!(w.pos.0 >= 1 && w.pos.0 <= 28 && w.pos.1 >= 1 && w.pos.1 <= 28);
    }
    for x in 0..29 {
        for y in 0..29 {
            if g.grid[x][y] == TileType::Floor && x >= 1 && y >= 1 {
                for (a, b) in [(x + 1, y), (x - 1, y), (x, y + 1), (x, y - 1)] {
                    assert_ne!(g.grid[a][b], TileType::Empty);
                }
            }
        }
    }
}

#[test]
fn digging_stops_once_the_room_is_filled_enough() {
    let mut g = LevelGenerator::new();
    g.room_width = 20;
    g.room_height = 16;
    g.setup();
    let rounds = g.create_floors();
    assert!(rounds >= 1 && rounds <= 100000);
    let floors = number_of_floors(&g.grid, 20, 16);
    assert!(floors * 100 > 20 * 20 * 16 || rounds == 100000);
    for x in 0..20 {
        for y in 0..16 {
            if g.grid[x][y] == TileType::Floor {
                assert!(x >= 1 && x <= 18 && y >= 1 && y <= 14);
            }
        }
    }
}

#[test]
fn a_generated_level_reports_its_rounds() {
    let mut g = LevelGenerator::new();
    g.room_width = 12;
    g.room_height = 12;
    let rounds = g.start();
    assert!(rounds >= 1 && rounds <= 100000);
}

#[test]
fn a_round_on_given_dice() {
    let mut g = LevelGenerator::new();
    g.room_width = 6;
    g.room_height = 6;
    g.grid = grid(6, 6, TileType::Empty);
    g.walkers = vec![
        Walker { dir: Direction::Up, pos: (2, 2) },
        Walker { dir: Direction::Right, pos: (3, 3) },
    ];
    let dice = RoundRolls {
        destroy: vec![99, 0],
        turn: vec![0, 0],
        turn_dir: vec![1, 0],
        spawn: vec![0, 0],
        spawn_dir: vec![3, 0],
    };
    g.dig_round(&dice);
    assert_eq!(g.grid[2][2], TileType::Floor);
    assert_eq!(g.grid[3][3], TileType::Floor);
    assert_eq!(number_of_floors(&g.grid, 6, 6), 2);
    assert_eq!(g.walkers.len(), 2);
    assert_eq!((g.walkers[0].dir, g.walkers[0].pos), (Direction::Left, (1, 2)));
    assert_eq!((g.walkers[1].dir, g.walkers[1].pos), (Direction::Right, (3, 2)));
}

#[test]
fn the_last_walker_never_dies_and_steps_stay_off_the_border() {
    let mut g = LevelGenerator::new();
    g.room_width = 5;
    g.room_height = 5;
    g.grid = grid(5, 5, TileType::Empty);
    g.walkers = vec![Walker { dir: Direction::Down, pos: (1, 1) }];
    let dice = RoundRolls { destroy: vec![0], turn: vec![99], turn_dir: vec![0], spawn: vec![99], spawn_dir: vec![0] };
    g.dig_round(&dice);
    assert_eq!(g.walkers.len(), 1);
    assert_eq!(g.walkers[0].pos, (1, 1));
    assert_eq!(g.grid[1][1], TileType::Floor);
}
