use roguelike::damage_system::delete_the_dead;
use roguelike::{
    BlocksTile, CombatStats, Coord, DamageSystem, MapIndexingSystem, MeleeCombatSystem, Monster, MonsterAI, Name,
    NavigationPath, Player, Position, Rect, Renderable, RunState, State, SufferDamage, TileMap, TileType, Viewshed,
    VisibilitySystem, WantsToMelee,
};
use specs::{Entity, Join, WorldExt};

struct Pathing<'a>(&'a TileMap);

impl<'a> rltk::BaseMap for Pathing<'a> {
    fn is_opaque(&self, idx: usize) -> bool {
        self.0.tiles[idx] == TileType::Wall
    }

    fn get_available_exits(&self, idx: usize) -> rltk::SmallVec<[(usize, f32); 10]> {
        let mut exits = rltk::SmallVec::new();
        for (to, cost) in self.0.get_available_exits(idx) {
            exits.push((to, cost as f32 / 100.0));
        }
        exits
    }

    fn get_pathing_distance(&self, idx1: usize, idx2: usize) -> f32 {
        (self.0.pathing_distance_squared(idx1, idx2) as f32).sqrt()
    }
}

fn search(map: &TileMap, from: usize, to: usize) -> NavigationPath {
    let path = rltk::a_star_search(from, to, &Pathing(map));
    NavigationPath { destination: path.destination, success: path.success, steps: path.steps }
}

fn arena() -> State {
    let mut map = TileMap::new(20, 20);
    assert!(map.add_room(Rect::new(1, 1, 15, 15), true));
    State::with_player(map, 5, 5)
}

fn stats(state: &State, e: Entity) -> CombatStats {
    *state.ecs.read_storage::<CombatStats>().get(e).unwrap()
}

fn position(state: &State, e: Entity) -> Position {
    *state.ecs.read_storage::<Position>().get(e).unwrap()
}

fn dirty(state: &State, e: Entity) -> bool {
    state.ecs.read_storage::<Viewshed>().get(e).unwrap().dirty
}

#[test]
fn the_phases_follow_one_another() {
    let mut state = arena();
    assert!(state.runstate == RunState::PreRun);
    state.tick(None, &search);
    assert!(state.runstate == RunState::AwaitingInput);
    state.tick(None, &search);
    assert!(state.runstate == RunState::AwaitingInput);
    state.tick(Some((1, 0)), &search);
    assert!(state.runstate == RunState::PlayerTurn);
    state.tick(None, &search);
    assert!(state.runstate == RunState::MonsterTurn);
    state.tick(None, &search);
    assert!(state.runstate == RunState::AwaitingInput);
}

#[test]
fn a_command_is_ignored_outside_the_wait_for_input() {
    let mut state = arena();
    let player = state.player_entity;
    state.tick(Some((1, 0)), &search);
    assert!(state.runstate == RunState::AwaitingInput);
    assert_eq!(position(&state, player), Position { x: 5, y: 5 });
    state.runstate = RunState::PlayerTurn;
    state.tick(Some((1, 0)), &search);
    assert!(state.runstate == RunState::MonsterTurn);
    assert_eq!(position(&state, player), Position { x: 5, y: 5 });
}

#[test]
fn the_first_pass_computes_sight_and_occupancy() {
    let mut state = arena();
    let player = state.player_entity;
    let monster = state.spawn_monster(9, 9, 103, "Goblin #0".to_string());
    state.tick(None, &search);
    assert!(!dirty(&state, player));
    assert!(!dirty(&state, monster));
    assert!(state.map.visible_tiles[state.map.xy_idx(5, 5)]);
    assert!(state.map.revealed_tiles[state.map.xy_idx(5, 5)]);
    assert!(state.map.blocked[state.map.xy_idx(9, 9)]);
    assert_eq!(state.map.tile_content[state.map.xy_idx(9, 9)], vec![monster]);
    assert_eq!(position(&state, monster), Position { x: 9, y: 9 });
}

#[test]
fn the_player_moves_onto_a_free_tile() {
    let mut state = arena();
    let player = state.player_entity;
    state.tick(None, &search);
    state.try_move_player(1, -1);
    assert_eq!(position(&state, player), Position { x: 6, y: 4 });
    assert_eq!(state.player_pos, Coord { x: 6, y: 4 });
    assert!(dirty(&state, player));
}

#[test]
fn the_player_does_not_move_onto_a_blocked_tile() {
    let mut state = arena();
    let player = state.player_entity;
    state.spawn_monster(6, 5, 103, "Goblin #0".to_string());
    state.tick(None, &search);
    state.try_move_player(1, 0);
    assert_eq!(position(&state, player), Position { x: 5, y: 5 });
    assert_eq!(state.player_pos, Coord { x: 5, y: 5 });
    assert!(!dirty(&state, player));
}

#[test]
fn the_player_does_not_walk_into_a_wall() {
    let mut map = TileMap::new(20, 20);
    assert!(map.add_room(Rect::new(1, 1, 15, 15), true));
    let mut state = State::with_player(map, 2, 2);
    let player = state.player_entity;
    state.tick(None, &search);
    state.try_move_player(-1, 0);
    assert_eq!(position(&state, player), Position { x: 2, y: 2 });
    state.try_move_player(0, -1);
    assert_eq!(position(&state, player), Position { x: 2, y: 2 });
}

#[test]
fn a_move_beyond_the_edge_ends_on_the_edge() {
    let mut map = TileMap::new(10, 10);
    assert!(map.add_room(Rect::new(0, 0, 9, 9), true));
    let mut state = State::with_player(map, 8, 8);
    let player = state.player_entity;
    let mut indexer = MapIndexingSystem {};
    indexer.run(&state.ecs, &mut state.map);
    state.try_move_player(5, 0);
    assert_eq!(position(&state, player), Position { x: 9, y: 8 });
    state.try_move_player(0, i32::MAX);
    assert_eq!(position(&state, player), Position { x: 9, y: 9 });
    assert_eq!(state.player_pos, Coord { x: 9, y: 9 });
    state.try_move_player(i32::MIN, i32::MIN);
    // the corner tile of index 0 is a wall
    assert_eq!(position(&state, player), Position { x: 9, y: 9 });
}

#[test]
fn a_player_without_a_viewshed_does_not_move() {
    let mut state = arena();
    let player = state.player_entity;
    state.tick(None, &search);
    state.ecs.write_storage::<Viewshed>().remove(player);
    state.try_move_player(1, 0);
    assert_eq!(position(&state, player), Position { x: 5, y: 5 });
    assert_eq!(state.player_pos, Coord { x: 5, y: 5 });
}

#[test]
fn a_monster_next_to_the_player_hurts_it_on_its_turn() {
    let mut state = arena();
    let player = state.player_entity;
    let monster = state.spawn_monster(6, 5, 103, "Goblin #0".to_string());
    assert_eq!(stats(&state, player), CombatStats { max_hp: 30, hp: 30, defense: 2, power: 5 });
    assert_eq!(stats(&state, monster), CombatStats { max_hp: 16, hp: 16, defense: 1, power: 4 });

    let mut vis = VisibilitySystem {};
    vis.run(&mut state.ecs, &mut state.map);
    let mut ai = MonsterAI {};
    ai.run(&mut state.ecs, &mut state.map, state.player_pos, player, RunState::MonsterTurn, &search);
    assert!(state.ecs.read_storage::<WantsToMelee>().get(monster).unwrap().target == player);
    assert_eq!(position(&state, monster), Position { x: 6, y: 5 });

    let mut indexer = MapIndexingSystem {};
    indexer.run(&state.ecs, &mut state.map);
    let mut melee = MeleeCombatSystem {};
    melee.run(&mut state.ecs);
    assert_eq!(state.ecs.read_storage::<SufferDamage>().get(player).unwrap().amount, vec![2]);
    assert!(state.ecs.read_storage::<WantsToMelee>().get(monster).is_none());

    let mut damage = DamageSystem {};
    damage.run(&mut state.ecs);
    assert_eq!(stats(&state, player).hp, 28);
    assert!(state.ecs.read_storage::<SufferDamage>().get(player).is_none());

    state.ecs.maintain();
    delete_the_dead(&mut state.ecs);
    state.ecs.maintain();
    assert!(state.ecs.is_alive(player));
    assert!(state.ecs.is_alive(monster));
    assert_eq!(stats(&state, monster).hp, 16);
}

#[test]
fn a_tick_of_the_monsters_turn_hurts_the_player() {
    let mut state = arena();
    let player = state.player_entity;
    let monster = state.spawn_monster(6, 5, 103, "Goblin #0".to_string());
    state.runstate = RunState::MonsterTurn;
    let struck = state.tick(None, &search);
    assert_eq!(struck.len(), 1);
    assert!(struck[0].attacker == monster && struck[0].target == player && struck[0].damage == 2);
    assert!(state.runstate == RunState::AwaitingInput);
    assert_eq!(stats(&state, player).hp, 28);
    assert_eq!(state.ecs.read_storage::<SufferDamage>().join().count(), 0);
    assert_eq!(state.ecs.read_storage::<WantsToMelee>().join().count(), 0);
    assert!(state.ecs.is_alive(player));
    assert!(state.ecs.is_alive(monster));
}

#[test]
fn monsters_hold_still_on_the_players_turn() {
    let mut state = arena();
    let player = state.player_entity;
    let monster = state.spawn_monster(6, 5, 103, "Goblin #0".to_string());
    state.runstate = RunState::PlayerTurn;
    state.tick(None, &search);
    assert!(state.runstate == RunState::MonsterTurn);
    assert_eq!(stats(&state, player).hp, 30);
    assert_eq!(position(&state, monster), Position { x: 6, y: 5 });
}

#[test]
fn a_monster_comes_closer_turn_by_turn() {
    let mut state = arena();
    let monster = state.spawn_monster(9, 5, 103, "Goblin #0".to_string());
    state.tick(None, &search);
    state.runstate = RunState::MonsterTurn;
    state.tick(None, &search);
    assert_eq!(position(&state, monster), Position { x: 8, y: 5 });
    state.runstate = RunState::MonsterTurn;
    state.tick(None, &search);
    assert_eq!(position(&state, monster), Position { x: 7, y: 5 });
    assert!(state.map.blocked[state.map.xy_idx(7, 5)]);
    assert!(!state.map.blocked[state.map.xy_idx(8, 5)]);
    assert!(!state.map.blocked[state.map.xy_idx(9, 5)]);
}

#[test]
fn the_slain_leave_the_world_a_tick_later() {
    let mut state = arena();
    let monster = state.spawn_monster(9, 9, 103, "Goblin #0".to_string());
    state.tick(None, &search);
    SufferDamage::new_damage(&mut state.ecs, monster, 16);
    state.runstate = RunState::PlayerTurn;
    state.tick(None, &search);
    // health is spent and the removal is queued, but the entity is still there
    assert_eq!(stats(&state, monster).hp, 0);
    assert!(state.ecs.is_alive(monster));
    state.tick(None, &search);
    assert!(!state.ecs.is_alive(monster));
    assert!(state.ecs.read_storage::<Position>().get(monster).is_none());
    assert!(state.ecs.read_storage::<CombatStats>().get(monster).is_none());
    assert!(!state.map.blocked[state.map.xy_idx(9, 9)]);
    assert!(state.map.tile_content[state.map.xy_idx(9, 9)].is_empty());
    assert!(state.ecs.is_alive(state.player_entity));
}

#[test]
fn revealed_tiles_survive_every_tick() {
    let mut state = arena();
    state.spawn_monster(9, 5, 103, "Goblin #0".to_string());
    state.tick(None, &search);
    let mut seen = state.map.revealed_tiles.clone();
    for command in [Some((1, 0)), None, None, Some((0, 1)), None, None, Some((1, 1)), None, None] {
        state.tick(command, &search);
        for i in 0..seen.len() {
            if seen[i] {
                assert!(state.map.revealed_tiles[i]);
            }
        }
        seen = state.map.revealed_tiles.clone();
    }
}

#[test]
fn the_player_is_armed_until_it_is_removed() {
    let mut state = arena();
    let player = state.player_entity;
    assert!(state.is_player_armed());
    SufferDamage::new_damage(&mut state.ecs, player, 40);
    state.tick(None, &search);
    assert!(state.is_player_armed());
    assert_eq!(stats(&state, player).hp, -10);
    state.runstate = RunState::PlayerTurn;
    state.tick(None, &search);
    assert!(!state.is_player_armed());
    assert!(!state.ecs.is_alive(player));
}

#[test]
fn with_player_sets_up_the_player_alone() {
    let state = arena();
    let player = state.player_entity;
    let all: Vec<Entity> = state.ecs.entities().join().collect();
    assert_eq!(all, vec![player]);
    assert!(state.runstate == RunState::PreRun);
    assert_eq!(state.player_pos, Coord { x: 5, y: 5 });
    assert_eq!(position(&state, player), Position { x: 5, y: 5 });
    assert!(state.ecs.read_storage::<Player>().get(player).is_some());
    assert!(state.ecs.read_storage::<Monster>().get(player).is_none());
    assert!(state.ecs.read_storage::<BlocksTile>().get(player).is_none());
    assert_eq!(state.ecs.read_storage::<Name>().get(player).unwrap().name, "Player");
    assert_eq!(
        *state.ecs.read_storage::<Renderable>().get(player).unwrap(),
        Renderable { glyph: 64, fg: (255, 255, 0), bg: (0, 0, 0) }
    );
    let v = state.ecs.read_storage::<Viewshed>().get(player).unwrap().clone();
    assert!(v.visible_tiles.is_empty());
    assert_eq!(v.range, 8);
    assert!(v.dirty);
}

#[test]
fn spawn_monster_adds_a_blocking_monster() {
    let mut state = arena();
    let monster = state.spawn_monster(7, 8, 111, "Orc #3".to_string());
    assert!(monster != state.player_entity);
    assert_eq!(position(&state, monster), Position { x: 7, y: 8 });
    assert!(state.ecs.read_storage::<Monster>().get(monster).is_some());
    assert!(state.ecs.read_storage::<BlocksTile>().get(monster).is_some());
    assert!(state.ecs.read_storage::<Player>().get(monster).is_none());
    assert_eq!(state.ecs.read_storage::<Name>().get(monster).unwrap().name, "Orc #3");
    assert_eq!(
        *state.ecs.read_storage::<Renderable>().get(monster).unwrap(),
        Renderable { glyph: 111, fg: (255, 0, 0), bg: (0, 0, 0) }
    );
    assert_eq!(stats(&state, monster), CombatStats { max_hp: 16, hp: 16, defense: 1, power: 4 });
    assert!(dirty(&state, monster));
}

#[test]
fn a_new_game_has_the_player_and_a_monster_per_further_room() {
    for _ in 0..10 {
        let state = State::new();
        let player = state.player_entity;
        assert!(state.runstate == RunState::PreRun);
        let (px, py) = state.map.rooms[0].center();
        assert_eq!(state.player_pos, Coord { x: px, y: py });
        assert_eq!(position(&state, player), Position { x: px, y: py });
        assert_eq!(stats(&state, player), CombatStats { max_hp: 30, hp: 30, defense: 2, power: 5 });
        let all: Vec<Entity> = state.ecs.entities().join().collect();
        assert_eq!(all.len(), state.map.rooms.len());
        assert_eq!(all[0], player);
        for (i, e) in all.iter().skip(1).enumerate() {
            let (x, y) = state.map.rooms[i + 1].center();
            assert_eq!(position(&state, *e), Position { x, y });
            assert!(state.ecs.read_storage::<Monster>().get(*e).is_some());
            assert!(state.ecs.read_storage::<BlocksTile>().get(*e).is_some());
            assert_eq!(stats(&state, *e), CombatStats { max_hp: 16, hp: 16, defense: 1, power: 4 });
            let r = *state.ecs.read_storage::<Renderable>().get(*e).unwrap();
            let name = state.ecs.read_storage::<Name>().get(*e).unwrap().name.clone();
            if r.glyph == 103 {
                assert_eq!(name, format!("Goblin #{}", i));
            } else {
                assert_eq!(r.glyph, 111);
                assert_eq!(name, format!("Orc #{}", i));
            }
            assert_eq!(r.fg, (255, 0, 0));
            assert_eq!(r.bg, (0, 0, 0));
        }
    }
}

#[test]
fn a_new_game_can_be_played() {
    let mut state = State::new();
    let commands = [Some((1, 0)), Some((0, 1)), Some((-1, 0)), Some((0, -1)), None];
    for round in 0..60 {
        if !state.is_player_armed() {
            break;
        }
        state.tick(commands[round % commands.len()], &search);
    }
    let p = state.player_pos;
    assert!(p.x >= 0 && p.x < 80 && p.y >= 0 && p.y < 50);
}

#[test]
fn monsters_are_numbered_from_zero_in_base_ten() {
    let mut longest = 0;
    for _ in 0..20 {
        let state = State::new();
        let all: Vec<Entity> = state.ecs.entities().join().collect();
        let names = state.ecs.read_storage::<Name>();
        if all.len() > 1 {
            let first = names.get(all[1]).unwrap().name.clone();
            assert!(first == "Goblin #0" || first == "Orc #0", "{}", first);
        }
        if all.len() > 11 {
            let eleventh = names.get(all[11]).unwrap().name.clone();
            assert!(eleventh == "Goblin #10" || eleventh == "Orc #10", "{}", eleventh);
        }
        longest = longest.max(all.len());
    }
    assert!(longest > 2);
}

#[test]
fn a_tick_without_a_pass_hands_back_no_blow() {
    let mut state = arena();
    state.spawn_monster(6, 5, 103, "Goblin #0".to_string());
    assert!(state.tick(None, &search).is_empty());
    assert!(state.runstate == RunState::AwaitingInput);
    assert!(state.tick(None, &search).is_empty());
    assert!(state.tick(Some((0, 1)), &search).is_empty());
}
