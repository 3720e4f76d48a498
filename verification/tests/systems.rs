use roguelike::{
    BlocksTile, Coord, Intent, MapIndexingSystem, MonsterAI, NavigationPath, Position, Rect, RunState, State,
    TileMap, TileType, Viewshed, VisibilitySystem, WantsToMelee,
};
use specs::{Entity, Join, WorldExt};

struct Pathing<'a>(&'a TileMap);

impl<'a> rltk::BaseMap for Pathing<'a> {
    fn is_opaque(&self, idx: usize) -> bool {
        self.0.tiles[idx] == TileType::Wall
    }

    fn get_available_exits(&self, idx: usize) -> rltk::SmallVec<[(usize, f32); 10]> {
        let mut exits = rltk::SmallVec::new();
        for (to, cost) in self.0.get_available_exits(idx) {
            exits.push((to, cost as f32 / 100.0));
        }
        exits
    }

    fn get_pathing_distance(&self, idx1: usize, idx2: usize) -> f32 {
        (self.0.pathing_distance_squared(idx1, idx2) as f32).sqrt()
    }
}

fn search(map: &TileMap, from: usize, to: usize) -> NavigationPath {
    let path = rltk::a_star_search(from, to, &Pathing(map));
    NavigationPath { destination: path.destination, success: path.success, steps: path.steps }
}

fn no_path(_map: &TileMap, _from: usize, to: usize) -> NavigationPath {
    NavigationPath { destination: to, success: false, steps: Vec::new() }
}

fn arena() -> State {
    let mut map = TileMap::new(20, 20);
    assert!(map.add_room(Rect::new(1, 1, 15, 15), true));
    State::with_player(map, 5, 5)
}

fn position(state: &State, e: Entity) -> Position {
    *state.ecs.read_storage::<Position>().get(e).unwrap()
}

fn viewshed(state: &State, e: Entity) -> Viewshed {
    state.ecs.read_storage::<Viewshed>().get(e).unwrap().clone()
}

fn wish(state: &State, e: Entity) -> Option<Entity> {
    state.ecs.read_storage::<WantsToMelee>().get(e).map(|w| w.target)
}

fn look(state: &mut State) {
    let mut vis = VisibilitySystem {};
    vis.run(&mut state.ecs, &mut state.map);
}

fn index(state: &mut State) {
    let mut indexer = MapIndexingSystem {};
    indexer.run(&state.ecs, &mut state.map);
}

#[test]
fn a_dirty_view_is_computed_and_marked_clean() {
    let mut state = arena();
    let player = state.player_entity;
    look(&mut state);
    let v = viewshed(&state, player);
    assert!(!v.dirty);
    assert_eq!(v.range, 8);
    assert!(v.visible_tiles.contains(&Coord { x: 5, y: 5 }));
    assert!(v.visible_tiles.contains(&Coord { x: 6, y: 5 }));
    assert!(v.visible_tiles.contains(&Coord { x: 5, y: 12 }));
    for (i, p) in v.visible_tiles.iter().enumerate() {
        assert!(p.x >= 0 && p.x < 20 && p.y >= 0 && p.y < 20);
        assert!((p.x - 5).abs() <= 8 && (p.y - 5).abs() <= 8);
        assert!(!v.visible_tiles[..i].contains(p));
    }
    assert!(v.visible_tiles.len() <= 17 * 17);
}

#[test]
fn walls_stop_sight() {
    let mut map = TileMap::new(20, 20);
    assert!(map.add_room(Rect::new(1, 1, 5, 5), true));
    let mut state = State::with_player(map, 3, 3);
    let player = state.player_entity;
    look(&mut state);
    let v = viewshed(&state, player);
    // the wall east of the room is seen, what lies behind it is not
    assert!(v.visible_tiles.contains(&Coord { x: 7, y: 3 }));
    assert!(!v.visible_tiles.contains(&Coord { x: 8, y: 3 }));
    assert!(!v.visible_tiles.contains(&Coord { x: 10, y: 3 }));
}

#[test]
fn a_view_near_the_edge_stays_on_the_map() {
    let mut map = TileMap::new(12, 12);
    assert!(map.add_room(Rect::new(0, 0, 11, 11), true));
    let mut state = State::with_player(map, 0, 0);
    let player = state.player_entity;
    look(&mut state);
    let v = viewshed(&state, player);
    assert!(v.visible_tiles.contains(&Coord { x: 0, y: 0 }));
    assert!(v.visible_tiles.iter().all(|p| p.x >= 0 && p.x < 12 && p.y >= 0 && p.y < 12));
}

#[test]
fn the_player_reveals_what_it_sees() {
    let mut state = arena();
    let player = state.player_entity;
    look(&mut state);
    let v = viewshed(&state, player);
    for y in 0..20 {
        for x in 0..20 {
            let i = state.map.xy_idx(x, y);
            let seen = v.visible_tiles.contains(&Coord { x, y });
            assert_eq!(state.map.visible_tiles[i], seen);
            assert_eq!(state.map.revealed_tiles[i], seen);
        }
    }
}

#[test]
fn a_clean_view_is_left_alone() {
    let mut state = arena();
    let player = state.player_entity;
    look(&mut state);
    let first = viewshed(&state, player).visible_tiles;
    let visible = state.map.visible_tiles.clone();
    state.ecs.write_storage::<Position>().insert(player, Position { x: 12, y: 12 }).unwrap();
    look(&mut state);
    let second = viewshed(&state, player);
    assert!(!second.dirty);
    assert_eq!(second.visible_tiles, first);
    assert_eq!(state.map.visible_tiles, visible);
}

#[test]
fn revealed_tiles_stay_revealed() {
    let mut map = TileMap::new(40, 10);
    assert!(map.add_room(Rect::new(1, 1, 37, 7), true));
    let mut state = State::with_player(map, 3, 3);
    let player = state.player_entity;
    look(&mut state);
    let before = state.map.revealed_tiles.clone();
    assert!(before[state.map.xy_idx(3, 3)]);
    state.ecs.write_storage::<Position>().insert(player, Position { x: 35, y: 3 }).unwrap();
    state.ecs.write_storage::<Viewshed>().get_mut(player).unwrap().dirty = true;
    look(&mut state);
    assert!(!state.map.visible_tiles[state.map.xy_idx(3, 3)]);
    assert!(state.map.visible_tiles[state.map.xy_idx(35, 3)]);
    for i in 0..before.len() {
        if before[i] {
            assert!(state.map.revealed_tiles[i]);
        }
    }
}

#[test]
fn a_monster_sees_without_revealing() {
    let mut state = arena();
    let monster = state.spawn_monster(10, 10, 103, "Goblin #0".to_string());
    state.ecs.write_storage::<Viewshed>().get_mut(state.player_entity).unwrap().dirty = false;
    look(&mut state);
    let v = viewshed(&state, monster);
    assert!(!v.dirty);
    assert!(v.visible_tiles.contains(&Coord { x: 10, y: 10 }));
    assert!(state.map.visible_tiles.iter().all(|t| !*t));
    assert!(state.map.revealed_tiles.iter().all(|t| !*t));
}

#[test]
fn indexing_lists_occupants_and_blocks_their_tiles() {
    let mut state = arena();
    let player = state.player_entity;
    let a = state.spawn_monster(6, 5, 103, "Goblin #0".to_string());
    let b = state.spawn_monster(6, 5, 111, "Orc #1".to_string());
    index(&mut state);
    let at_player = state.map.xy_idx(5, 5);
    let at_monsters = state.map.xy_idx(6, 5);
    assert_eq!(state.map.tile_content[at_player], vec![player]);
    assert_eq!(state.map.tile_content[at_monsters], vec![a, b]);
    for i in 0..state.map.tiles.len() {
        let wall = state.map.tiles[i] == TileType::Wall;
        assert_eq!(state.map.blocked[i], wall || i == at_monsters);
        if i != at_player && i != at_monsters {
            assert!(state.map.tile_content[i].is_empty());
        }
    }
    // the player carries no mark that blocks its tile
    assert!(state.ecs.read_storage::<BlocksTile>().get(player).is_none());
    assert!(!state.map.blocked[at_player]);
}

#[test]
fn indexing_twice_changes_nothing() {
    let mut state = arena();
    state.spawn_monster(6, 5, 103, "Goblin #0".to_string());
    state.spawn_monster(9, 9, 111, "Orc #1".to_string());
    index(&mut state);
    let blocked = state.map.blocked.clone();
    let content = state.map.tile_content.clone();
    index(&mut state);
    assert_eq!(state.map.blocked, blocked);
    assert_eq!(state.map.tile_content, content);
}

#[test]
fn indexing_forgets_where_an_entity_stood() {
    let mut state = arena();
    let monster = state.spawn_monster(6, 5, 103, "Goblin #0".to_string());
    index(&mut state);
    state.ecs.write_storage::<Position>().insert(monster, Position { x: 8, y: 8 }).unwrap();
    index(&mut state);
    assert!(!state.map.blocked[state.map.xy_idx(6, 5)]);
    assert!(state.map.tile_content[state.map.xy_idx(6, 5)].is_empty());
    assert!(state.map.blocked[state.map.xy_idx(8, 8)]);
    assert_eq!(state.map.tile_content[state.map.xy_idx(8, 8)], vec![monster]);
}

#[test]
fn decide_rests_without_sight_of_the_player() {
    let v = Viewshed { visible_tiles: vec![Coord { x: 1, y: 1 }], range: 8, dirty: false };
    assert_eq!(MonsterAI::decide(&v, Position { x: 6, y: 5 }, Coord { x: 5, y: 5 }), Intent::Rest);
}

#[test]
fn decide_strikes_within_one_and_a_half_tiles() {
    let player = Coord { x: 5, y: 5 };
    let v = Viewshed { visible_tiles: vec![player], range: 8, dirty: false };
    for (x, y) in [(6, 5), (4, 5), (5, 4), (5, 6), (6, 6), (4, 4), (6, 4), (4, 6), (5, 5)] {
        assert_eq!(MonsterAI::decide(&v, Position { x, y }, player), Intent::Strike);
    }
}

#[test]
fn decide_chases_from_further_off() {
    let player = Coord { x: 5, y: 5 };
    let v = Viewshed { visible_tiles: vec![player], range: 8, dirty: false };
    for (x, y) in [(7, 5), (3, 5), (5, 7), (7, 6), (7, 7), (6, 7), (12, 12)] {
        assert_eq!(MonsterAI::decide(&v, Position { x, y }, player), Intent::Chase);
    }
    let far = Position { x: i32::MAX, y: i32::MIN };
    let v = Viewshed { visible_tiles: vec![Coord { x: i32::MIN, y: i32::MAX }], range: 8, dirty: false };
    assert_eq!(MonsterAI::decide(&v, far, Coord { x: i32::MIN, y: i32::MAX }), Intent::Chase);
}

#[test]
fn monsters_do_nothing_outside_their_turn() {
    let mut state = arena();
    let monster = state.spawn_monster(6, 5, 103, "Goblin #0".to_string());
    look(&mut state);
    index(&mut state);
    let blocked = state.map.blocked.clone();
    for phase in [RunState::PreRun, RunState::AwaitingInput, RunState::PlayerTurn] {
        let mut ai = MonsterAI {};
        ai.run(&mut state.ecs, &mut state.map, state.player_pos, state.player_entity, phase, &search);
        assert_eq!(wish(&state, monster), None);
        assert_eq!(position(&state, monster), Position { x: 6, y: 5 });
        assert_eq!(state.map.blocked, blocked);
    }
}

#[test]
fn an_adjacent_monster_wants_to_strike_the_player() {
    let mut state = arena();
    let player = state.player_entity;
    let monster = state.spawn_monster(6, 6, 103, "Goblin #0".to_string());
    look(&mut state);
    index(&mut state);
    let mut ai = MonsterAI {};
    ai.run(&mut state.ecs, &mut state.map, state.player_pos, player, RunState::MonsterTurn, &search);
    assert_eq!(wish(&state, monster), Some(player));
    assert_eq!(position(&state, monster), Position { x: 6, y: 6 });
    assert!(!viewshed(&state, monster).dirty);
    assert_eq!(wish(&state, player), None);
}

#[test]
fn a_distant_monster_steps_towards_the_player() {
    let mut state = arena();
    let player = state.player_entity;
    let monster = state.spawn_monster(9, 5, 103, "Goblin #0".to_string());
    look(&mut state);
    index(&mut state);
    let mut ai = MonsterAI {};
    ai.run(&mut state.ecs, &mut state.map, state.player_pos, player, RunState::MonsterTurn, &search);
    assert_eq!(wish(&state, monster), None);
    assert_eq!(position(&state, monster), Position { x: 8, y: 5 });
    assert!(viewshed(&state, monster).dirty);
    assert!(!state.map.blocked[state.map.xy_idx(9, 5)]);
    assert!(state.map.blocked[state.map.xy_idx(8, 5)]);
}

#[test]
fn a_monster_that_does_not_see_the_player_stays() {
    let mut map = TileMap::new(30, 10);
    assert!(map.add_room(Rect::new(1, 1, 5, 5), true));
    assert!(map.add_room(Rect::new(20, 1, 5, 5), true));
    let mut state = State::with_player(map, 3, 3);
    let monster = state.spawn_monster(22, 5, 103, "Goblin #0".to_string());
    look(&mut state);
    index(&mut state);
    let mut ai = MonsterAI {};
    ai.run(&mut state.ecs, &mut state.map, state.player_pos, state.player_entity, RunState::MonsterTurn, &search);
    assert_eq!(wish(&state, monster), None);
    assert_eq!(position(&state, monster), Position { x: 22, y: 5 });
    assert!(!viewshed(&state, monster).dirty);
}

#[test]
fn a_monster_without_a_path_stays() {
    let mut state = arena();
    let monster = state.spawn_monster(9, 5, 103, "Goblin #0".to_string());
    look(&mut state);
    index(&mut state);
    let blocked = state.map.blocked.clone();
    let mut ai = MonsterAI {};
    ai.run(&mut state.ecs, &mut state.map, state.player_pos, state.player_entity, RunState::MonsterTurn, &no_path);
    assert_eq!(position(&state, monster), Position { x: 9, y: 5 });
    assert!(!viewshed(&state, monster).dirty);
    assert_eq!(state.map.blocked, blocked);
}

#[test]
fn follow_goes_to_the_second_step() {
    let mut state = arena();
    let monster = state.spawn_monster(9, 5, 103, "Goblin #0".to_string());
    index(&mut state);
    let here = state.map.xy_idx(9, 5);
    let there = state.map.xy_idx(8, 6);
    let path = NavigationPath { destination: 0, success: true, steps: vec![here, there, 0] };
    let v = viewshed(&state, monster);
    let p = position(&state, monster);
    assert!(MonsterAI::follow(&mut state.ecs, &mut state.map, monster, p, v, &path));
    assert_eq!(position(&state, monster), Position { x: 8, y: 6 });
    assert!(viewshed(&state, monster).dirty);
    assert!(!state.map.blocked[here]);
    assert!(state.map.blocked[there]);
}

#[test]
fn follow_ignores_a_failed_or_single_step_path() {
    let mut state = arena();
    let monster = state.spawn_monster(9, 5, 103, "Goblin #0".to_string());
    state.ecs.write_storage::<Viewshed>().get_mut(monster).unwrap().dirty = false;
    index(&mut state);
    let here = state.map.xy_idx(9, 5);
    let there = state.map.xy_idx(8, 6);
    let blocked = state.map.blocked.clone();
    for path in [
        NavigationPath { destination: there, success: false, steps: vec![here, there] },
        NavigationPath { destination: here, success: true, steps: vec![here] },
        NavigationPath { destination: here, success: true, steps: vec![] },
    ] {
        let v = viewshed(&state, monster);
        let p = position(&state, monster);
        assert!(!MonsterAI::follow(&mut state.ecs, &mut state.map, monster, p, v, &path));
        assert_eq!(position(&state, monster), Position { x: 9, y: 5 });
        assert!(!viewshed(&state, monster).dirty);
        assert_eq!(state.map.blocked, blocked);
    }
}

#[test]
fn entities_are_walked_in_a_stable_order() {
    let mut state = arena();
    let a = state.spawn_monster(6, 5, 103, "Goblin #0".to_string());
    let b = state.spawn_monster(7, 5, 111, "Orc #1".to_string());
    let first: Vec<Entity> = state.ecs.entities().join().collect();
    let second: Vec<Entity> = state.ecs.entities().join().collect();
    assert_eq!(first, second);
    assert_eq!(first, vec![state.player_entity, a, b]);
}

#[test]
fn a_found_path_goes_by_open_neighbours_from_start_to_goal() {
    let mut state = arena();
    state.spawn_monster(8, 5, 103, "Goblin #0".to_string());
    state.spawn_monster(8, 6, 111, "Orc #1".to_string());
    state.spawn_monster(8, 4, 111, "Orc #2".to_string());
    index(&mut state);
    let from = state.map.xy_idx(10, 5);
    let to = state.map.xy_idx(5, 5);
    let path = search(&state.map, from, to);
    assert!(path.success);
    assert_eq!(path.destination, to);
    assert_eq!(path.steps[0], from);
    assert_eq!(*path.steps.last().unwrap(), to);
    for pair in path.steps.windows(2) {
        let exits = state.map.get_available_exits(pair[0]);
        assert!(exits.iter().any(|e| e.0 == pair[1]));
        assert!(!state.map.blocked[pair[1]]);
        let a = state.map.index_to_point(pair[0]);
        let b = state.map.index_to_point(pair[1]);
        assert!((a.x - b.x).abs() <= 1 && (a.y - b.y).abs() <= 1);
    }
}

#[test]
fn no_path_leads_into_a_closed_room() {
    let mut map = TileMap::new(30, 10);
    assert!(map.add_room(Rect::new(1, 1, 5, 5), true));
    let mut state = State::with_player(map, 3, 3);
    index(&mut state);
    let from = state.map.xy_idx(20, 5);
    let to = state.map.xy_idx(3, 3);
    let path = search(&state.map, from, to);
    assert!(!path.success);
}

#[test]
fn a_view_of_range_nought_holds_the_own_tile_alone() {
    let mut state = arena();
    let player = state.player_entity;
    state.ecs.write_storage::<Viewshed>().get_mut(player).unwrap().range = 0;
    look(&mut state);
    let v = viewshed(&state, player);
    assert_eq!(v.visible_tiles, vec![Coord { x: 5, y: 5 }]);
    assert!(!v.dirty);
}

#[test]
fn a_negative_range_reaches_as_far_as_its_size() {
    let mut state = arena();
    let player = state.player_entity;
    look(&mut state);
    let mut plain = viewshed(&state, player).visible_tiles;
    {
        let mut views = state.ecs.write_storage::<Viewshed>();
        let v = views.get_mut(player).unwrap();
        v.range = -8;
        v.dirty = true;
    }
    look(&mut state);
    let mut mirrored = viewshed(&state, player).visible_tiles;
    plain.sort_by_key(|p| (p.y, p.x));
    mirrored.sort_by_key(|p| (p.y, p.x));
    assert_eq!(plain, mirrored);
}

#[test]
fn a_wide_view_is_kept_to_the_map() {
    let mut map = TileMap::new(30, 12);
    assert!(map.add_room(Rect::new(0, 0, 28, 10), true));
    let mut state = State::with_player(map, 14, 5);
    let player = state.player_entity;
    state.ecs.write_storage::<Viewshed>().get_mut(player).unwrap().range = 1024;
    look(&mut state);
    let v = viewshed(&state, player);
    assert!(v.visible_tiles.iter().all(|p| p.x >= 0 && p.x < 30 && p.y >= 0 && p.y < 12));
    assert!(v.visible_tiles.contains(&Coord { x: 1, y: 1 }));
    assert!(v.visible_tiles.contains(&Coord { x: 28, y: 10 }));
}

fn open_field() -> State {
    let map = TileMap::new(80, 50);
    let mut state = State::with_player(map, 5, 5);
    let monster_tile = state.map.xy_idx(7, 5);
    state.map.blocked[monster_tile] = true;
    state
}

fn set_view(state: &mut State, e: Entity, tiles: Vec<Coord>) {
    let mut views = state.ecs.write_storage::<Viewshed>();
    let v = views.get_mut(e).unwrap();
    v.visible_tiles = tiles;
    v.dirty = false;
}

#[test]
fn a_chasing_monster_goes_to_the_second_step_of_the_answer() {
    let mut state = open_field();
    let monster = state.spawn_monster(7, 5, 103, "Goblin #0".to_string());
    set_view(&mut state, monster, vec![Coord { x: 5, y: 5 }]);
    let answer = |_map: &TileMap, from: usize, to: usize| {
        assert_eq!((from, to), (407, 405));
        NavigationPath { destination: to, success: true, steps: vec![407, 406, 405] }
    };
    let mut ai = MonsterAI {};
    ai.run(&mut state.ecs, &mut state.map, state.player_pos, state.player_entity, RunState::MonsterTurn, &answer);
    assert_eq!(wish(&state, monster), None);
    assert_eq!(position(&state, monster), Position { x: 6, y: 5 });
    assert!(viewshed(&state, monster).dirty);
    assert!(!state.map.blocked[407]);
    assert!(state.map.blocked[406]);
    for i in 0..state.map.blocked.len() {
        if i != 406 {
            assert!(!state.map.blocked[i]);
        }
    }
}

#[test]
fn a_chasing_monster_whose_search_fails_keeps_view_and_tile() {
    let mut state = open_field();
    let monster = state.spawn_monster(7, 5, 103, "Goblin #0".to_string());
    set_view(&mut state, monster, vec![Coord { x: 5, y: 5 }]);
    let mut ai = MonsterAI {};
    ai.run(&mut state.ecs, &mut state.map, state.player_pos, state.player_entity, RunState::MonsterTurn, &no_path);
    assert_eq!(wish(&state, monster), None);
    assert_eq!(position(&state, monster), Position { x: 7, y: 5 });
    assert!(!viewshed(&state, monster).dirty);
    assert!(state.map.blocked[407]);
    let single = |_map: &TileMap, from: usize, to: usize| NavigationPath {
        destination: to,
        success: true,
        steps: vec![from],
    };
    ai.run(&mut state.ecs, &mut state.map, state.player_pos, state.player_entity, RunState::MonsterTurn, &single);
    assert_eq!(position(&state, monster), Position { x: 7, y: 5 });
    assert!(!viewshed(&state, monster).dirty);
    assert!(state.map.blocked[407]);
}

#[test]
fn a_later_monster_is_asked_on_the_map_the_earlier_left() {
    let mut state = open_field();
    let first = state.spawn_monster(7, 5, 103, "Goblin #0".to_string());
    let second = state.spawn_monster(9, 5, 111, "Orc #1".to_string());
    set_view(&mut state, first, vec![Coord { x: 5, y: 5 }]);
    set_view(&mut state, second, vec![Coord { x: 5, y: 5 }]);
    let answer = |map: &TileMap, from: usize, to: usize| {
        if from == 409 {
            // the first monster has moved from 407 to 406 by now
            assert!(!map.blocked[407]);
            assert!(map.blocked[406]);
        }
        NavigationPath { destination: to, success: true, steps: vec![from, from - 1] }
    };
    let mut ai = MonsterAI {};
    ai.run(&mut state.ecs, &mut state.map, state.player_pos, state.player_entity, RunState::MonsterTurn, &answer);
    assert_eq!(position(&state, first), Position { x: 6, y: 5 });
    assert_eq!(position(&state, second), Position { x: 8, y: 5 });
    assert!(state.map.blocked[406] && state.map.blocked[408]);
    assert!(!state.map.blocked[407] && !state.map.blocked[409]);
}
