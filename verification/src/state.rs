//! The turn state machine and the world it drives.

use vstd::prelude::*;
use crate::components::{
    glyph_of, to_cp437, BlocksTile, CombatStats, Coord, Monster, Name, Player, Position, Renderable, Viewshed,
    ViewshedView,
};
use crate::random::{new_generator, roll_dice};
use crate::damage_system::{after_damage, delete_the_dead, with_dead_doomed, DamageSystem};
use crate::map::{lemma_index_in_range, TileMap};
use crate::map_indexing_system::{indexed, positions_on_map, MapIndexingSystem};
use crate::melee_combat_system::{
    after_melee, attacks, blows_struck, lemma_damage_keeps_wf, targets_armed, Blow, MeleeCombatSystem,
};
use crate::monster_ai_system::{
    chases_settled, fit_search, monsters_moved, monsters_turn, MonsterAI, NavigationPath,
};
use crate::store::{attach, contents, fetch, lemma_purged_wf, maintain, new_world, ready, spawn, Store};
use crate::visibility_system::{ranges_ok, watched, VisibilitySystem};

verus! {

/// The phase of the turn cycle.
#[derive(Clone, Copy, Debug, PartialEq, Eq, Structural)]
pub enum RunState {
    PreRun,
    AwaitingInput,
    PlayerTurn,
    MonsterTurn,
}

/// The phase that follows `current`. The first pass leads to waiting for
/// input. Waiting ends when the player has given a command. The player's
/// turn is followed by the monsters', and theirs by waiting again.
pub open spec fn next_state(current: RunState, commanded: bool) -> RunState {
    match current {
        RunState::PreRun => RunState::AwaitingInput,
        RunState::AwaitingInput => if commanded {
            RunState::PlayerTurn
        } else {
            RunState::AwaitingInput
        },
        RunState::PlayerTurn => RunState::MonsterTurn,
        RunState::MonsterTurn => RunState::AwaitingInput,
    }
}

/// Whether the monsters' part of a pass leads from the world `s1` and the
/// map `m1` to `s2` and `m2`: outside the monsters' turn nothing changes.
pub open spec fn monsters_acted<F: Fn(&TileMap, usize, usize) -> NavigationPath>(
    search: &F,
    s1: Store,
    m1: &TileMap,
    player_pos: Coord,
    player: specs::Entity,
    runstate: RunState,
    s2: Store,
    m2: &TileMap,
) -> bool {
    &&& m2.same_but_blocked(m1)
    &&& if runstate == RunState::MonsterTurn {
        &&& monsters_turn(search, s1, m1, player_pos, player, s2, m2)
        &&& monsters_moved(s1, m1, s1.roster, player_pos, player, s2)
        &&& chases_settled(search, s1, m1, s1.roster, player_pos, s2)
    } else {
        s2 == s1 && *m2 == *m1
    }
}

/// Whether a pass of the systems leads from `s0` and `m0` to `s3` and `m3`
/// by way of the given worlds and maps, with the blows `struck`: sight is
/// computed, the monsters act, the map is indexed, melee is resolved, damage
/// is applied, and the queued removals are carried out, in this order.
pub open spec fn piped_through<F: Fn(&TileMap, usize, usize) -> NavigationPath>(
    search: &F,
    s0: Store,
    m0: &TileMap,
    player_pos: Coord,
    player: specs::Entity,
    runstate: RunState,
    s1: Store,
    m1: TileMap,
    s2: Store,
    m2: TileMap,
    s3: Store,
    m3: &TileMap,
    struck: Seq<Blow>,
) -> bool {
    &&& watched(s0, m0, s1, &m1)
    &&& monsters_acted(search, s1, &m1, player_pos, player, runstate, s2, &m2)
    &&& indexed(&m2, m3, s2)
    &&& struck == blows_struck(s2, s2.roster)
    &&& s3 == after_damage(after_melee(s2)).purged()
}

/// Whether a pass of the systems can lead from `s0` and `m0` to `s3` and
/// `m3`, with the blows `struck`.
pub open spec fn piped<F: Fn(&TileMap, usize, usize) -> NavigationPath>(
    search: &F,
    s0: Store,
    m0: &TileMap,
    player_pos: Coord,
    player: specs::Entity,
    runstate: RunState,
    s3: Store,
    m3: &TileMap,
    struck: Seq<Blow>,
) -> bool {
    exists|s1: Store, m1: TileMap, s2: Store, m2: TileMap| #[trigger]
        piped_through(search, s0, m0, player_pos, player, runstate, s1, m1, s2, m2, s3, m3, struck)
}

/// `v` moved by `delta` and kept within `0..=last`.
pub open spec fn clamped(v: i32, delta: i32, last: i32) -> i32 {
    if v + delta < 0 {
        0
    } else if v + delta > last {
        last
    } else {
        (v + delta) as i32
    }
}

/// The world: entities and their components, the map, where the player
/// stands, which entity the player is, and the phase of the turn cycle.
pub struct State {
    pub ecs: specs::World,
    pub map: TileMap,
    pub player_pos: Coord,
    pub player_entity: specs::Entity,
    pub runstate: RunState,
}

impl State {
    /// The world is in working order, the map well formed, every position
    /// and the player's place are on the map, every range of sight is
    /// within the limit, and whoever is to be struck has combat stats.
    pub open spec fn wf(&self) -> bool {
        &&& ready(self.ecs)
        &&& self.map.wf()
        &&& positions_on_map(contents(self.ecs), &self.map)
        &&& ranges_ok(contents(self.ecs))
        &&& targets_armed(contents(self.ecs))
        &&& self.map.in_bounds(self.player_pos.x as int, self.player_pos.y as int)
    }

    /// Whether the player has combat stats, so that it can be struck.
    pub open spec fn player_armed(&self) -> bool {
        contents(self.ecs).combat_stats.dom().contains(self.player_entity)
    }

    /// Whether the player can be moved: the player's entity is marked as
    /// player and has a position and a viewshed.
    pub open spec fn player_steers(&self) -> bool {
        &&& contents(self.ecs).players.dom().contains(self.player_entity)
        &&& contents(self.ecs).positions.dom().contains(self.player_entity)
        &&& contents(self.ecs).viewsheds.dom().contains(self.player_entity)
    }

    /// Where a move by `(dx, dy)` takes the player: the tile that far from
    /// where it stands, or the nearest tile of the map.
    pub open spec fn destination(&self, dx: i32, dy: i32) -> Coord {
        let at = contents(self.ecs).positions[self.player_entity];
        Coord { x: clamped(at.x, dx, (self.map.width - 1) as i32), y: clamped(at.y, dy, (self.map.height - 1) as i32) }
    }

    /// Whether a move by `(dx, dy)` succeeds: the player can be moved and
    /// the tile it would go to is not blocked.
    pub open spec fn can_move(&self, dx: i32, dy: i32) -> bool {
        self.player_steers() && !self.map.blocked@[self.map.idx(
            self.destination(dx, dy).x as int,
            self.destination(dx, dy).y as int,
        )]
    }

    /// Whether `after` is this world once the player has tried to move by
    /// `(dx, dy)`: on success the player stands on its destination, its view
    /// is dirty, and the player's place is updated; otherwise nothing has
    /// changed.
    pub open spec fn player_moved(&self, dx: i32, dy: i32, after: &State) -> bool {
        &&& after.map == self.map
        &&& after.player_entity == self.player_entity
        &&& after.runstate == self.runstate
        &&& if self.can_move(dx, dy) {
            let s = contents(self.ecs);
            let to = self.destination(dx, dy);
            &&& after.player_pos == to
            &&& contents(after.ecs) == (Store {
                positions: s.positions.insert(self.player_entity, Position { x: to.x, y: to.y }),
                viewsheds: s.viewsheds.insert(
                    self.player_entity,
                    ViewshedView { dirty: true, ..s.viewsheds[self.player_entity] },
                ),
                ..s
            })
        } else {
            after.player_pos == self.player_pos && contents(after.ecs) == contents(self.ecs)
        }
    }

    /// The world `s` with the entity `e` added as the player at `(x, y)`:
    /// marked as player, drawn as a yellow `@` on black, called "Player",
    /// seeing 8 tiles far with a view yet to be computed, and with 30
    /// health, defense 2 and power 5.
    pub open spec fn with_player_at(s: Store, roster: Seq<specs::Entity>, e: specs::Entity, x: i32, y: i32) -> Store {
        Store {
            roster,
            positions: s.positions.insert(e, Position { x, y }),
            renderables: s.renderables.insert(
                e,
                Renderable { glyph: glyph_of('@'), fg: (255, 255, 0), bg: (0, 0, 0) },
            ),
            players: s.players.insert(e, Player {  }),
            viewsheds: s.viewsheds.insert(e, ViewshedView { visible_tiles: Seq::empty(), range: 8, dirty: true }),
            names: s.names.insert(e, "Player"@),
            combat_stats: s.combat_stats.insert(e, CombatStats { max_hp: 30, hp: 30, defense: 2, power: 5 }),
            ..s
        }
    }

    /// The world `s` with the entity `e` added as a monster at `(x, y)`:
    /// marked as monster, drawn as the given glyph in red on black, with the
    /// given name, blocking its tile, seeing 8 tiles far with a view yet to
    /// be computed, and with 16 health, defense 1 and power 4.
    pub open spec fn with_monster_at(
        s: Store,
        roster: Seq<specs::Entity>,
        e: specs::Entity,
        x: i32,
        y: i32,
        glyph: u16,
        name: Seq<char>,
    ) -> Store {
        Store {
            roster,
            positions: s.positions.insert(e, Position { x, y }),
            renderables: s.renderables.insert(e, Renderable { glyph, fg: (255, 0, 0), bg: (0, 0, 0) }),
            viewsheds: s.viewsheds.insert(e, ViewshedView { visible_tiles: Seq::empty(), range: 8, dirty: true }),
            monsters: s.monsters.insert(e, Monster {  }),
            names: s.names.insert(e, name),
            blockers: s.blockers.insert(e, BlocksTile {  }),
            combat_stats: s.combat_stats.insert(e, CombatStats { max_hp: 16, hp: 16, defense: 1, power: 4 }),
            ..s
        }
    }

    /// A world on `map` whose only entity is the player, standing at
    /// `(x, y)`, before the first pass of the systems.
    pub fn with_player(map: TileMap, x: i32, y: i32) -> (state: State)
        requires
            map.wf(),
            map.in_bounds(x as int, y as int),
        ensures
            state.wf(),
            state.player_armed(),
            state.map == map,
            state.player_pos == (Coord { x, y }),
            state.runstate == RunState::PreRun,
            contents(state.ecs) == State::with_player_at(
                Store::empty(),
                seq![state.player_entity],
                state.player_entity,
                x,
                y,
            ),
    {
        let mut ecs = new_world();
        let player_entity = spawn(&mut ecs);
        let ghost listed = contents(ecs).roster;
        proof {
            assert forall|i: int| 0 <= i < listed.len() implies listed[i] == player_entity by {
                assert(contents(ecs).has(listed[i]));
                if listed[i] != player_entity {
                    assert(Store::empty().has(listed[i]));
                }
            }
            assert(listed.len() >= 1);
            if listed.len() > 1 {
                assert(listed[0] == listed[1]);
            }
            assert(listed =~= seq![player_entity]);
        }
        attach(&mut ecs, player_entity, Position { x, y });
        attach(&mut ecs, player_entity, Renderable { glyph: to_cp437('@'), fg: (255, 255, 0), bg: (0, 0, 0) });
        attach(&mut ecs, player_entity, Player {  });
        attach(&mut ecs, player_entity, Viewshed { visible_tiles: Vec::new(), range: 8, dirty: true });
        attach(&mut ecs, player_entity, Name { name: "Player".to_string() });
        attach(&mut ecs, player_entity, CombatStats { max_hp: 30, hp: 30, defense: 2, power: 5 });
        State { ecs, map, player_pos: Coord { x, y }, player_entity, runstate: RunState::PreRun }
    }

    /// Adds a monster at `(x, y)`, with the given glyph and name.
    pub fn spawn_monster(&mut self, x: i32, y: i32, glyph: u16, name: String) -> (monster: specs::Entity)
        requires
            old(self).wf(),
            old(self).map.in_bounds(x as int, y as int),
        ensures
            final(self).wf(),
            final(self).map == old(self).map,
            final(self).player_pos == old(self).player_pos,
            final(self).player_entity == old(self).player_entity,
            final(self).runstate == old(self).runstate,
            old(self).player_armed() ==> final(self).player_armed(),
            !contents(old(self).ecs).has(monster),
            forall|e: specs::Entity|
                contents(final(self).ecs).has(e) <==> e == monster || contents(old(self).ecs).has(e),
            contents(final(self).ecs) == State::with_monster_at(
                contents(old(self).ecs),
                contents(final(self).ecs).roster,
                monster,
                x,
                y,
                glyph,
                name@,
            ),
    {
        let ghost s = contents(self.ecs);
        let monster = spawn(&mut self.ecs);
        attach(&mut self.ecs, monster, Position { x, y });
        attach(&mut self.ecs, monster, Renderable { glyph, fg: (255, 0, 0), bg: (0, 0, 0) });
        attach(&mut self.ecs, monster, Viewshed { visible_tiles: Vec::new(), range: 8, dirty: true });
        attach(&mut self.ecs, monster, Monster {  });
        attach(&mut self.ecs, monster, Name { name });
        attach(&mut self.ecs, monster, BlocksTile {  });
        attach(&mut self.ecs, monster, CombatStats { max_hp: 16, hp: 16, defense: 1, power: 4 });
        proof {
            let t = contents(self.ecs);
            assert forall|a: specs::Entity| #[trigger] attacks(t, a) implies t.combat_stats.dom().contains(
                t.wants_to_melee[a].target,
            ) by {
                assert(attacks(s, a));
            }
        }
        monster
    }

    /// Whether `e` is a monster as the world is first peopled with: marked
    /// as monster, blocking its tile, drawn in red on black, seeing 8 tiles
    /// far with a view yet to be computed, with 16 health, defense 1 and
    /// power 4, and standing at the centre of one of the rooms `1..rooms`
    /// of the map, as the goblin or orc numbered one less than the room.
    pub open spec fn garrison(s: Store, map: &TileMap, e: specs::Entity, rooms: int) -> bool {
        &&& s.monsters.dom().contains(e)
        &&& s.blockers.dom().contains(e)
        &&& s.names.dom().contains(e)
        &&& s.renderables.dom().contains(e)
        &&& s.renderables[e].fg == (255u8, 0u8, 0u8)
        &&& s.renderables[e].bg == (0u8, 0u8, 0u8)
        &&& s.viewsheds.dom().contains(e)
        &&& s.viewsheds[e] == (ViewshedView { visible_tiles: Seq::empty(), range: 8, dirty: true })
        &&& s.combat_stats.dom().contains(e)
        &&& s.combat_stats[e] == (CombatStats { max_hp: 16, hp: 16, defense: 1, power: 4 })
        &&& !s.players.dom().contains(e)
        &&& exists|j: int| 1 <= j < rooms && #[trigger] State::stands_in(s, map, e, j) && State::styled(s, e, j - 1)
    }

    /// Whether `e` looks and is called like the monster of the given
    /// number: a goblin, drawn `g`, or an orc, drawn `o`, with the name of
    /// its kind followed by the number.
    pub open spec fn styled(s: Store, e: specs::Entity, number: int) -> bool {
        ||| (s.renderables[e].glyph == glyph_of('g') && s.names[e] == numbered_name("Goblin"@, number as nat))
        ||| (s.renderables[e].glyph == glyph_of('o') && s.names[e] == numbered_name("Orc"@, number as nat))
    }

    /// Whether `e` stands at the centre of room `j` of the map.
    pub open spec fn stands_in(s: Store, map: &TileMap, e: specs::Entity, j: int) -> bool {
        &&& s.positions.dom().contains(e)
        &&& s.positions[e].x == map.rooms@[j].center_spec().0
        &&& s.positions[e].y == map.rooms@[j].center_spec().1
    }

    /// Whether someone other than the player stands at the centre of room
    /// `j` of the map.
    pub open spec fn manned(s: Store, map: &TileMap, player: specs::Entity, j: int) -> bool {
        exists|e: specs::Entity| s.has(e) && e != player && #[trigger] State::stands_in(s, map, e, j)
    }

    /// Whether the world holds the player as it is first set up, at the
    /// centre of the first room.
    pub open spec fn player_placed(s: Store, map: &TileMap, player: specs::Entity) -> bool {
        &&& s.has(player)
        &&& s.players.dom().contains(player)
        &&& State::stands_in(s, map, player, 0)
        &&& s.renderables.dom().contains(player)
        &&& s.renderables[player] == (Renderable { glyph: glyph_of('@'), fg: (255, 255, 0), bg: (0, 0, 0) })
        &&& s.viewsheds.dom().contains(player)
        &&& s.viewsheds[player] == (ViewshedView { visible_tiles: Seq::empty(), range: 8, dirty: true })
        &&& s.names.dom().contains(player)
        &&& s.names[player] == "Player"@
        &&& s.combat_stats.dom().contains(player)
        &&& s.combat_stats[player] == (CombatStats { max_hp: 30, hp: 30, defense: 2, power: 5 })
        &&& !s.monsters.dom().contains(player)
        &&& !s.blockers.dom().contains(player)
    }

    /// Whether the world is peopled for the rooms `0..rooms` of the map:
    /// the player in the first, one monster in each of the others, and
    /// nobody else; nobody wants to strike and no damage is pending.
    pub open spec fn peopled(s: Store, map: &TileMap, player: specs::Entity, rooms: int) -> bool {
        &&& State::player_placed(s, map, player)
        &&& forall|e: specs::Entity| s.has(e) && e != player ==> #[trigger] State::garrison(s, map, e, rooms)
        &&& forall|j: int| 1 <= j < rooms ==> #[trigger] State::manned(s, map, player, j)
        &&& s.wants_to_melee == Map::<specs::Entity, crate::components::WantsToMelee>::empty()
        &&& s.suffer_damage == Map::<specs::Entity, Seq<i32>>::empty()
        &&& s.doomed == Set::<specs::Entity>::empty()
    }

    /// A new game: a generated map, the player at the centre of its first
    /// room, and at the centre of every other room a monster, which is by
    /// chance a goblin, drawn `g`, or an orc, drawn `o`. The turn cycle is
    /// before its first pass.
    pub fn new() -> (state: State)
        ensures
            state.wf(),
            state.player_armed(),
            state.runstate == RunState::PreRun,
            state.map.generated(),
            state.player_pos.x == state.map.rooms@[0].center_spec().0,
            state.player_pos.y == state.map.rooms@[0].center_spec().1,
            State::peopled(contents(state.ecs), &state.map, state.player_entity, state.map.rooms@.len() as int),
    {
        let map = TileMap::new_map_rooms_and_corridors();
        assert(map.fits(map.rooms@[0]));
        let (player_x, player_y) = map.rooms[0].center();
        let mut state = State::with_player(map, player_x, player_y);
        let mut rng = new_generator();
        let mut i: usize = 0;
        while i + 1 < state.map.rooms.len()
            invariant
                state.wf(),
                state.player_armed(),
                state.runstate == RunState::PreRun,
                state.map == map,
                map.generated(),
                state.player_pos == (Coord { x: player_x, y: player_y }),
                player_x == map.rooms@[0].center_spec().0,
                player_y == map.rooms@[0].center_spec().1,
                i + 1 <= map.rooms@.len(),
                State::peopled(contents(state.ecs), &map, state.player_entity, i + 1),
            decreases map.rooms@.len() - i,
        {
            assert(map.fits(map.rooms@[i + 1]));
            let (x, y) = state.map.rooms[i + 1].center();
            let roll: i32 = roll_dice(&mut rng, 1, 2);
            let glyph: u16;
            let name: String;
            if roll == 1 {
                glyph = to_cp437('g');
                name = numbered("Goblin", i);
            } else {
                glyph = to_cp437('o');
                name = numbered("Orc", i);
            }
            let ghost s = contents(state.ecs);
            let monster = state.spawn_monster(x, y, glyph, name);
            proof {
                let t = contents(state.ecs);
                let player = state.player_entity;
                assert(monster != player);
                assert(State::stands_in(t, &map, monster, i + 1));
                assert forall|e: specs::Entity| t.has(e) && e != player implies #[trigger] State::garrison(
                    t,
                    &map,
                    e,
                    i + 2,
                ) by {
                    if e != monster {
                        assert(State::garrison(s, &map, e, i + 1));
                        let j = choose|j: int|
                            1 <= j < i + 1 && #[trigger] State::stands_in(s, &map, e, j) && State::styled(s, e, j - 1);
                        assert(State::stands_in(t, &map, e, j) && State::styled(t, e, j - 1));
                    } else {
                        assert(State::stands_in(t, &map, e, i + 1) && State::styled(t, e, i as int));
                    }
                }
                assert forall|j: int| 1 <= j < i + 2 implies #[trigger] State::manned(t, &map, player, j) by {
                    if j < i + 1 {
                        assert(State::manned(s, &map, player, j));
                        let e = choose|e: specs::Entity|
                            s.has(e) && e != player && #[trigger] State::stands_in(s, &map, e, j);
                        assert(t.has(e) && e != player && State::stands_in(t, &map, e, j));
                    } else {
                        assert(t.has(monster) && monster != player && State::stands_in(t, &map, monster, j));
                    }
                }
                assert(t.wants_to_melee == Map::<specs::Entity, crate::components::WantsToMelee>::empty());
                assert(t.suffer_damage == Map::<specs::Entity, Seq<i32>>::empty());
                assert(t.doomed == Set::<specs::Entity>::empty());
                assert(State::peopled(t, &map, player, i + 2));
            }
            i += 1;
        }
        state
    }

    /// Whether the player has combat stats.
    pub fn is_player_armed(&self) -> (armed: bool)
        requires
            ready(self.ecs),
        ensures
            armed == self.player_armed(),
    {
        let stats: Option<CombatStats> = fetch(&self.ecs, self.player_entity);
        stats.is_some()
    }

    /// Tries to move the player by `(dx, dy)`. The destination is kept on
    /// the map. If it is blocked, or the player's entity lacks the player
    /// mark, a position or a viewshed, nothing happens.
    pub fn try_move_player(&mut self, dx: i32, dy: i32)
        requires
            old(self).wf(),
        ensures
            final(self).wf(),
            old(self).player_moved(dx, dy, final(self)),
    {
        let marked: Option<Player> = fetch(&self.ecs, self.player_entity);
        let position: Option<Position> = fetch(&self.ecs, self.player_entity);
        let viewshed: Option<Viewshed> = fetch(&self.ecs, self.player_entity);
        if let (Some(_), Some(position), Some(mut viewshed)) = (marked, position, viewshed) {
            let x: i32 = clamp_step(position.x, dx, self.map.width - 1);
            let y: i32 = clamp_step(position.y, dy, self.map.height - 1);
            proof {
                self.map.lemma_size_bounded();
                lemma_index_in_range(self.map.width as int, self.map.height as int, x as int, y as int);
            }
            let destination_idx: usize = self.map.xy_idx(x, y);
            if !self.map.blocked[destination_idx] {
                let ghost s = contents(self.ecs);
                viewshed.dirty = true;
                attach(&mut self.ecs, self.player_entity, Position { x, y });
                attach(&mut self.ecs, self.player_entity, viewshed);
                self.player_pos = Coord { x, y };
                proof {
                    let t = contents(self.ecs);
                    assert forall|a: specs::Entity| #[trigger] attacks(t, a) implies t.combat_stats.dom().contains(
                        t.wants_to_melee[a].target,
                    ) by {
                        assert(attacks(s, a));
                    }
                }
            }
        }
    }

    /// One pass of the systems, in their fixed order: visibility, monsters,
    /// map indexing, melee, damage. Then the queued removals are carried
    /// out. The blows of the melee are handed back.
    pub fn run_systems<F: Fn(&TileMap, usize, usize) -> NavigationPath>(&mut self, search: &F) -> (struck: Vec<Blow>)
        requires
            old(self).wf(),
            old(self).runstate == RunState::MonsterTurn ==> old(self).player_armed(),
            fit_search(search),
        ensures
            final(self).wf(),
            final(self).player_pos == old(self).player_pos,
            final(self).player_entity == old(self).player_entity,
            final(self).runstate == old(self).runstate,
            piped(
                search,
                contents(old(self).ecs),
                &old(self).map,
                old(self).player_pos,
                old(self).player_entity,
                old(self).runstate,
                contents(final(self).ecs),
                &final(self).map,
                struck@,
            ),
            forall|i: int|
                0 <= i < old(self).map.size() && old(self).map.revealed_tiles@[i] ==> final(self).map.revealed_tiles@[i],
    {
        let ghost s0 = contents(self.ecs);
        let ghost m0 = self.map;

        let mut vis = VisibilitySystem {  };
        vis.run(&mut self.ecs, &mut self.map);
        let ghost s1 = contents(self.ecs);
        let ghost m1 = self.map;
        proof {
            assert(targets_armed(s1)) by {
                assert forall|a: specs::Entity| #[trigger] attacks(s1, a) implies s1.combat_stats.dom().contains(
                    s1.wants_to_melee[a].target,
                ) by {
                    assert(attacks(s0, a));
                }
            }
        }

        let mut mob = MonsterAI {  };
        mob.run(&mut self.ecs, &mut self.map, self.player_pos, self.player_entity, self.runstate, search);
        let ghost s2 = contents(self.ecs);
        let ghost m2 = self.map;
        proof {
            assert(targets_armed(s2)) by {
                assert forall|a: specs::Entity| #[trigger] attacks(s2, a) implies s2.combat_stats.dom().contains(
                    s2.wants_to_melee[a].target,
                ) by {
                    if s2.wants_to_melee[a].target != self.player_entity {
                        assert(attacks(s1, a));
                    }
                }
            }
        }

        let mut mapindex = MapIndexingSystem {  };
        mapindex.run(&self.ecs, &mut self.map);

        let mut melee = MeleeCombatSystem {  };
        let struck = melee.run(&mut self.ecs);
        proof {
            lemma_damage_keeps_wf(s2, s2.roster);
        }

        let mut damage = DamageSystem {  };
        damage.run(&mut self.ecs);
        proof {
            lemma_purged_wf(contents(self.ecs));
        }

        maintain(&mut self.ecs);
        proof {
            let s3 = contents(self.ecs);
            assert(piped_through(
                search,
                s0,
                &m0,
                self.player_pos,
                self.player_entity,
                self.runstate,
                s1,
                m1,
                s2,
                m2,
                s3,
                &self.map,
                struck@,
            ));
        }
        struck
    }

    /// One tick of the turn cycle. In the phases `PreRun`, `PlayerTurn` and
    /// `MonsterTurn` the systems run once. While input is awaited, a command
    /// moves the player by the given step and starts the player's turn;
    /// without one the wait goes on. Then the phase advances, and the
    /// removal of whoever has no health left is queued. The blows struck in
    /// this tick are handed back.
    pub fn tick<F: Fn(&TileMap, usize, usize) -> NavigationPath>(
        &mut self,
        command: Option<(i32, i32)>,
        search: &F,
    ) -> (struck: Vec<Blow>)
        requires
            old(self).wf(),
            old(self).runstate == RunState::MonsterTurn ==> old(self).player_armed(),
            fit_search(search),
        ensures
            final(self).wf(),
            final(self).player_entity == old(self).player_entity,
            final(self).runstate == next_state(old(self).runstate, command.is_some()),
            old(self).ticked(search, command, final(self), struck@),
            forall|i: int|
                0 <= i < old(self).map.size() && old(self).map.revealed_tiles@[i] ==> final(self).map.revealed_tiles@[i],
    {
        let newrunstate: RunState;
        let mut struck: Vec<Blow> = Vec::new();
        let ghost before = *self;
        match self.runstate {
            RunState::PreRun => {
                struck = self.run_systems(search);
                newrunstate = RunState::AwaitingInput;
            },
            RunState::AwaitingInput => {
                match command {
                    Some((dx, dy)) => {
                        self.try_move_player(dx, dy);
                        newrunstate = RunState::PlayerTurn;
                    },
                    None => {
                        newrunstate = RunState::AwaitingInput;
                    },
                }
            },
            RunState::PlayerTurn => {
                struck = self.run_systems(search);
                newrunstate = RunState::MonsterTurn;
            },
            RunState::MonsterTurn => {
                struck = self.run_systems(search);
                newrunstate = RunState::AwaitingInput;
            },
        }
        self.runstate = newrunstate;
        let ghost mid = *self;
        delete_the_dead(&mut self.ecs);
        proof {
            let s = contents(mid.ecs);
            assert(targets_armed(with_dead_doomed(s))) by {
                assert forall|a: specs::Entity| #[trigger] attacks(with_dead_doomed(s), a) implies with_dead_doomed(
                    s,
                ).combat_stats.dom().contains(with_dead_doomed(s).wants_to_melee[a].target) by {
                    assert(attacks(s, a));
                }
            }
            assert(before.stepped(search, command, &mid, struck@));
        }
        struck
    }

    /// Whether `after` is this world after the part of a tick that depends
    /// on the phase, with the old phase still in place in `after`: a pass
    /// of the systems, with the blows `struck`, or, while input is awaited
    /// and nobody strikes, the player's move if there is a command.
    pub open spec fn stepped<F: Fn(&TileMap, usize, usize) -> NavigationPath>(
        &self,
        search: &F,
        command: Option<(i32, i32)>,
        after: &State,
        struck: Seq<Blow>,
    ) -> bool {
        &&& after.player_entity == self.player_entity
        &&& match self.runstate {
            RunState::AwaitingInput => struck.len() == 0 && match command {
                Some((dx, dy)) => self.player_moved(dx, dy, &State { runstate: self.runstate, ..*after }),
                None => after.map == self.map && after.player_pos == self.player_pos && contents(after.ecs)
                    == contents(self.ecs),
            },
            _ => after.player_pos == self.player_pos && piped(
                search,
                contents(self.ecs),
                &self.map,
                self.player_pos,
                self.player_entity,
                self.runstate,
                contents(after.ecs),
                &after.map,
                struck,
            ),
        }
    }

    /// Whether `after` is this world one tick later: some world `mid`
    /// follows from this one by the part of the tick that depends on the
    /// phase, with the blows `struck`, and `after` is `mid` in the next
    /// phase, with the removal of the dead queued.
    pub open spec fn ticked<F: Fn(&TileMap, usize, usize) -> NavigationPath>(
        &self,
        search: &F,
        command: Option<(i32, i32)>,
        after: &State,
        struck: Seq<Blow>,
    ) -> bool {
        exists|mid: State| #[trigger]
            self.stepped(search, command, &mid, struck) && after.map == mid.map && after.player_pos == mid.player_pos && contents(
                after.ecs,
            ) == with_dead_doomed(contents(mid.ecs))
    }
}

/// The digits of `n` in base ten, without leading zeros.
pub open spec fn decimal(n: nat) -> Seq<char>
    decreases n,
{
    let digits = seq!['0', '1', '2', '3', '4', '5', '6', '7', '8', '9'];
    if n < 10 {
        seq![digits[n as int]]
    } else {
        decimal(n / 10).push(digits[(n % 10) as int])
    }
}

/// The name of the `number`-th monster of a kind: the name of the kind, a
/// space, a hash sign, and the number.
pub open spec fn numbered_name(kind: Seq<char>, number: nat) -> Seq<char> {
    kind + seq![' ', '#'] + decimal(number)
}

/// `format!` with a string and a number: the string as it is, a space, a
/// hash sign, and the number in base ten.
#[verifier::external_body]
fn numbered(kind: &str, number: usize) -> (name: String)
    ensures
        name@ == numbered_name(kind@, number as nat),
{
    format!("{} #{}", kind, number)
}

/// `v` moved by `delta` and kept within `0..=last`.
fn clamp_step(v: i32, delta: i32, last: i32) -> (r: i32)
    requires
        last >= 0,
    ensures
        r == clamped(v, delta, last),
{
    let moved: i64 = v as i64 + delta as i64;
    if moved < 0 {
        0
    } else if moved > last as i64 {
        last
    } else {
        moved as i32
    }
}

} // verus!
