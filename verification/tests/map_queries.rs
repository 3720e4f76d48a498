use roguelike::map::{DIAGONAL_COST, STRAIGHT_COST};
use roguelike::{Coord, Rect, TileMap, TileType};

fn open_map() -> TileMap {
    let mut map = TileMap::new(10, 8);
    assert!(map.add_room(Rect::new(0, 0, 8, 6), true));
    map.populate_blocked();
    map
}

#[test]
fn xy_idx_is_row_major() {
    let map = TileMap::new(10, 8);
    assert_eq!(map.xy_idx(0, 0), 0);
    assert_eq!(map.xy_idx(9, 0), 9);
    assert_eq!(map.xy_idx(0, 1), 10);
    assert_eq!(map.xy_idx(3, 2), 23);
    assert_eq!(map.xy_idx(9, 7), 79);
}

#[test]
fn index_to_point_inverts_xy_idx() {
    let map = TileMap::new(10, 8);
    for y in 0..8 {
        for x in 0..10 {
            assert_eq!(map.index_to_point(map.xy_idx(x, y)), Coord { x, y });
        }
    }
}

#[test]
fn new_map_is_all_wall() {
    let map = TileMap::new(10, 8);
    assert_eq!(map.tiles.len(), 80);
    assert!(map.tiles.iter().all(|t| *t == TileType::Wall));
    assert!(map.revealed_tiles.iter().all(|t| !*t));
    assert!(map.visible_tiles.iter().all(|t| !*t));
    assert!(map.blocked.iter().all(|t| !*t));
    assert!(map.tile_content.iter().all(|t| t.is_empty()));
    assert!(map.rooms.is_empty());
}

#[test]
fn first_room_is_dug_without_a_corridor() {
    let mut map = TileMap::new(10, 8);
    assert!(map.add_room(Rect::new(2, 2, 3, 3), true));
    for y in 0..8 {
        for x in 0..10 {
            let inside = 2 < x && x <= 5 && 2 < y && y <= 5;
            let expected = if inside { TileType::Floor } else { TileType::Wall };
            assert!(map.tiles[map.xy_idx(x, y)] == expected, "tile {} {}", x, y);
        }
    }
}

#[test]
fn vertical_first_corridor_bends_at_the_new_row() {
    let mut map = TileMap::new(20, 20);
    assert!(map.add_room(Rect::new(1, 1, 4, 4), false));
    assert!(map.add_room(Rect::new(10, 10, 4, 4), false));
    // down column 3 from row 3 to row 12, then along row 12 to column 12
    for y in 3..=12 {
        assert!(map.tiles[map.xy_idx(3, y)] == TileType::Floor);
    }
    for x in 3..=12 {
        assert!(map.tiles[map.xy_idx(x, 12)] == TileType::Floor);
    }
    assert!(map.tiles[map.xy_idx(8, 3)] == TileType::Wall);
}

#[test]
fn populate_blocked_follows_the_walls() {
    let map = open_map();
    for i in 0..map.tiles.len() {
        assert_eq!(map.blocked[i], map.tiles[i] == TileType::Wall);
    }
}

#[test]
fn exits_in_the_open_are_all_eight_neighbours() {
    let map = open_map();
    let idx = map.xy_idx(4, 3);
    let exits = map.get_available_exits(idx);
    assert_eq!(
        exits,
        vec![
            (idx - 1, STRAIGHT_COST),
            (idx + 1, STRAIGHT_COST),
            (idx - 10, STRAIGHT_COST),
            (idx + 10, STRAIGHT_COST),
            (idx - 10 - 1, DIAGONAL_COST),
            (idx - 10 + 1, DIAGONAL_COST),
            (idx + 10 - 1, DIAGONAL_COST),
            (idx + 10 + 1, DIAGONAL_COST),
        ]
    );
    assert_eq!(STRAIGHT_COST, 100);
    assert_eq!(DIAGONAL_COST, 145);
}

#[test]
fn exits_leave_out_blocked_neighbours() {
    let mut map = open_map();
    let idx = map.xy_idx(4, 3);
    let west = map.xy_idx(3, 3);
    let south_west = map.xy_idx(3, 4);
    map.blocked[west] = true;
    map.blocked[south_west] = true;
    let exits = map.get_available_exits(idx);
    assert_eq!(
        exits,
        vec![
            (idx + 1, STRAIGHT_COST),
            (idx - 10, STRAIGHT_COST),
            (idx + 10, STRAIGHT_COST),
            (idx - 10 - 1, DIAGONAL_COST),
            (idx - 10 + 1, DIAGONAL_COST),
            (idx + 10 + 1, DIAGONAL_COST),
        ]
    );
}

#[test]
fn south_west_exit_depends_on_the_south_west_tile_alone() {
    let mut map = open_map();
    let idx = map.xy_idx(4, 3);
    let south_east = map.xy_idx(5, 4);
    map.blocked[south_east] = true;
    let exits = map.get_available_exits(idx);
    assert!(exits.contains(&(idx + 10 - 1, DIAGONAL_COST)));
    assert!(!exits.contains(&(idx + 10 + 1, DIAGONAL_COST)));
}

#[test]
fn exits_never_lead_to_the_first_row_or_column() {
    let mut map = TileMap::new(5, 5);
    for i in 0..map.blocked.len() {
        map.blocked[i] = false;
    }
    let exits = map.get_available_exits(map.xy_idx(1, 1));
    let targets: Vec<usize> = exits.iter().map(|e| e.0).collect();
    assert_eq!(targets, vec![map.xy_idx(2, 1), map.xy_idx(1, 2), map.xy_idx(2, 2)]);
}

#[test]
fn exits_of_an_index_off_the_map_are_none() {
    let map = open_map();
    assert!(map.get_available_exits(80).is_empty());
    assert!(map.get_available_exits(usize::MAX).is_empty());
}

#[test]
fn pathing_distance_is_squared() {
    let map = TileMap::new(10, 8);
    assert_eq!(map.pathing_distance_squared(map.xy_idx(1, 1), map.xy_idx(4, 5)), 25);
    assert_eq!(map.pathing_distance_squared(map.xy_idx(4, 5), map.xy_idx(1, 1)), 25);
    assert_eq!(map.pathing_distance_squared(map.xy_idx(2, 2), map.xy_idx(2, 2)), 0);
    assert_eq!(map.pathing_distance_squared(map.xy_idx(0, 0), map.xy_idx(9, 7)), 130);
}

#[test]
fn clear_content_index_empties_every_list() {
    let mut state = roguelike::State::with_player(open_map(), 3, 3);
    let mut indexer = roguelike::MapIndexingSystem {};
    indexer.run(&state.ecs, &mut state.map);
    assert_eq!(state.map.tile_content[state.map.xy_idx(3, 3)].len(), 1);
    state.map.clear_content_index();
    assert_eq!(state.map.tile_content.len(), 80);
    assert!(state.map.tile_content.iter().all(|t| t.is_empty()));
}

#[test]
fn show_marks_visible_and_keeps_revealed() {
    let mut map = TileMap::new(10, 8);
    map.show(&vec![Coord { x: 1, y: 1 }, Coord { x: 2, y: 1 }]);
    map.show(&vec![Coord { x: 2, y: 1 }, Coord { x: 3, y: 1 }]);
    for y in 0..8 {
        for x in 0..10 {
            let i = map.xy_idx(x, y);
            assert_eq!(map.visible_tiles[i], y == 1 && (x == 2 || x == 3));
            assert_eq!(map.revealed_tiles[i], y == 1 && (1..=3).contains(&x));
        }
    }
}

#[test]
fn dimensions_are_width_and_height() {
    let map = TileMap::new(10, 8);
    let size = rltk::Algorithm2D::dimensions(&map);
    assert_eq!(size.x, 10);
    assert_eq!(size.y, 8);
    let wide = TileMap::new(80, 50);
    assert_eq!(rltk::Algorithm2D::dimensions(&wide), rltk::Point::new(80, 50));
}
