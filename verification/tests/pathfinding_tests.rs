use dungeon_logic::gamemap::TileType;
use dungeon_logic::mob_map::{MapCell, MobMap};
use dungeon_logic::pathfinding::{
    create_new_graph, distance, find_path, teleport_target, Graph, Node, TILE_SIZE,
};

/// A `w` by `h` level of walls with floor at the given tiles.
fn level(w: usize, h: usize, floors: &[(usize, usize)]) -> Vec<Vec<TileType>> {
    let mut g = vec![vec![TileType::Wall; h]; w];
    for &(x, y) in floors {
        g[x][y] = TileType::Floor;
    }
    g
}

fn square(lo: usize, hi: usize) -> Vec<(usize, usize)> {
    let mut v = Vec::new();
    for x in lo..=hi {
        for y in lo..=hi {
            v.push((x, y));
        }
    }
    v
}

fn graph_of(g: &Vec<Vec<TileType>>) -> Graph {
    let mut graph = Graph::new();
    create_new_graph(g, &mut graph);
    graph
}

fn at(t: (u16, u16)) -> (u32, u32) {
    (t.0 as u32 * TILE_SIZE, t.1 as u32 * TILE_SIZE)
}

#[test]
fn distances() {
    assert_eq!(distance((0, 0), (3, 4)), 5);
    assert_eq!(distance((0, 0), (1, 1)), 1);
    assert_eq!(distance((10, 7), (10, 7)), 0);
    assert_eq!(distance((64, 0), (0, 64)), 90);
}

#[test]
fn node_new() {
    let n = Node::new(TileType::Floor, (3, 4));
    assert_eq!(n.tile_type, TileType::Floor);
    assert_eq!(n.position, (3, 4));
}

#[test]
fn graph_has_the_inner_floors() {
    let g = level(5, 5, &square(1, 3));
    let graph = graph_of(&g);
    assert_eq!(graph.len(), 9);
    assert!(graph.has_key((2, 2)));
    assert!(!graph.has_key((0, 0)));
    assert!(!graph.has_key((4, 4)));
}

#[test]
fn nearest_tile_of_a_point() {
    let g = level(5, 5, &square(1, 3));
    let graph = graph_of(&g);
    assert_eq!(graph.safe_get_pos((37, 37)), (1, 1));
    assert_eq!(graph.safe_get_pos((96, 90)), (3, 3));
    assert_eq!(Graph::new().safe_get_pos((96, 90)), (0, 0));
}

#[test]
fn node_at_a_point() {
    let g = level(5, 5, &square(1, 3));
    let graph = graph_of(&g);
    assert_eq!(graph.get_node_where_object_is((64, 64)).position, (64, 64));
    assert_eq!(graph.get_node_where_object_is((70, 60)).position, (64, 64));
}

#[test]
fn path_across_a_room() {
    let g = level(5, 5, &square(1, 3));
    let graph = graph_of(&g);
    let p = find_path(&graph, (37, 37), at((3, 3)));
    assert_eq!(p, Some(vec![(2, 2), (3, 3)]));
}

#[test]
fn path_to_the_own_tile_is_empty() {
    let g = level(5, 5, &square(1, 3));
    let graph = graph_of(&g);
    assert_eq!(find_path(&graph, at((2, 2)), at((2, 2))), Some(vec![]));
}

#[test]
fn no_path_between_separate_rooms() {
    let mut floors = square(1, 2);
    floors.extend(vec![(4, 1), (4, 2), (5, 1), (5, 2)]);
    let g = level(7, 4, &floors);
    let graph = graph_of(&g);
    assert_eq!(find_path(&graph, at((1, 1)), at((5, 2))), None);
    assert!(find_path(&graph, at((1, 1)), at((2, 2))).is_some());
}

#[test]
fn paths_go_around_corners() {
    // an L-shaped corridor: (1,1) (1,2) (1,3) (2,3) (3,3)
    let g = level(5, 5, &[(1, 1), (1, 2), (1, 3), (2, 3), (3, 3)]);
    let graph = graph_of(&g);
    let p = find_path(&graph, at((1, 1)), at((3, 3))).unwrap();
    assert_eq!(p, vec![(1, 2), (1, 3), (2, 3), (3, 3)]);
}

fn open_room_map() -> MobMap {
    let mut cells = vec![vec![MapCell { tiletype: TileType::Wall, mob_count: 0 }; 32]; 32];
    for x in 1..31 {
        for y in 1..31 {
            cells[x][y] = MapCell { tiletype: TileType::Floor, mob_count: 0 };
        }
    }
    MobMap { cells }
}

#[test]
fn teleport_to_the_first_free_edge_tile() {
    let g = level(32, 32, &square(1, 30));
    let graph = graph_of(&g);
    let mut map = open_room_map();
    assert_eq!(teleport_target(&graph, &map, at((16, 16)), 2), Some((14, 14)));
    map.cells[14][14].mob_count = 1;
    assert_eq!(teleport_target(&graph, &map, at((16, 16)), 2), Some((14, 15)));
}

#[test]
fn teleport_square_is_clipped_to_the_room() {
    let g = level(32, 32, &square(1, 30));
    let graph = graph_of(&g);
    let map = open_room_map();
    // around (1, 1) the square starts at column and row 0, which are wall;
    // the first free tile on its edge is (1, 3)
    let t = teleport_target(&graph, &map, at((1, 1)), 2).unwrap();
    assert_eq!(t, (1, 3));
}

#[test]
fn no_teleport_without_free_floor() {
    let g = level(32, 32, &square(1, 30));
    let graph = graph_of(&g);
    let mut map = open_room_map();
    for x in 0..32 {
        for y in 0..32 {
            map.cells[x][y].mob_count = 1;
        }
    }
    assert_eq!(teleport_target(&graph, &map, at((16, 16)), 3), None);
}

#[test]
fn moving_a_mob_updates_counts() {
    let mut map = open_room_map();
    map.cells[3][4].mob_count = 2;
    map.move_mob((3, 4), (5, 5));
    assert_eq!(map.cells[3][4].mob_count, 1);
    assert_eq!(map.cells[5][5].mob_count, 1);
    assert!(!map.is_free_floor((5, 5)));
    assert!(map.is_free_floor((6, 6)));
    assert_eq!(map.get((40, 1)), None);
}
