//! Lets the monsters act: one that sees the player strikes if it stands
//! next to the player, and otherwise takes a step along a path towards the
//! player.

use vstd::prelude::*;
use crate::components::{Coord, Monster, Position, Viewshed, ViewshedView, WantsToMelee};
use crate::map::{lemma_index_in_range, TileMap};
use crate::map_indexing_system::positions_on_map;
use crate::state::RunState;
use crate::store::{attach, contents, fetch, ready, roster, Store};
use crate::visibility_system::ranges_ok;

verus! {

/// The outcome of a search for a path: whether the goal was reached, the
/// goal, and the tile indices of the path, the first of them the start.
#[derive(Clone, Debug)]
pub struct NavigationPath {
    pub destination: usize,
    pub success: bool,
    pub steps: Vec<usize>,
}

/// What a monster does on its turn.
#[derive(Clone, Copy, Debug, PartialEq, Eq, Structural)]
pub enum Intent {
    /// It does not see the player and stays where it is.
    Rest,
    /// It stands next to the player and strikes.
    Strike,
    /// It sees the player from further off and goes after it.
    Chase,
}

/// Whether two tiles are less than one and a half tiles apart on a straight
/// line: the square of their distance, `dx * dx + dy * dy`, is below 2.25.
pub open spec fn adjacent(ax: int, ay: int, bx: int, by: int) -> bool {
    4 * ((ax - bx) * (ax - bx) + (ay - by) * (ay - by)) < 9
}

/// Tiles are less than one and a half tiles apart exactly when they are the
/// same tile or neighbours, diagonal ones included.
pub proof fn lemma_adjacent_is_neighbour(ax: int, ay: int, bx: int, by: int)
    ensures
        adjacent(ax, ay, bx, by) <==> (-1 <= ax - bx <= 1 && -1 <= ay - by <= 1),
{
    let dx = ax - bx;
    let dy = ay - by;
    assert(dx * dx >= 0 && dy * dy >= 0) by (nonlinear_arith);
    if dx >= 2 || dx <= -2 {
        assert(dx * dx >= 4) by (nonlinear_arith)
            requires
                dx >= 2 || dx <= -2,
        ;
    } else {
        assert(dx * dx <= 1) by (nonlinear_arith)
            requires
                -1 <= dx <= 1,
        ;
    }
    if dy >= 2 || dy <= -2 {
        assert(dy * dy >= 4) by (nonlinear_arith)
            requires
                dy >= 2 || dy <= -2,
        ;
    } else {
        assert(dy * dy <= 1) by (nonlinear_arith)
            requires
                -1 <= dy <= 1,
        ;
    }
}

/// What a monster with the given view does when it stands at `position`
/// and the player at `player_pos`.
pub open spec fn intent(view: ViewshedView, position: Position, player_pos: Coord) -> Intent {
    if !view.visible_tiles.contains(player_pos) {
        Intent::Rest
    } else if adjacent(position.x as int, position.y as int, player_pos.x as int, player_pos.y as int) {
        Intent::Strike
    } else {
        Intent::Chase
    }
}

/// Whether `e` is a monster that can act: it has a viewshed and a position.
pub open spec fn acts(s: Store, e: specs::Entity) -> bool {
    s.monsters.dom().contains(e) && s.viewsheds.dom().contains(e) && s.positions.dom().contains(e)
}

/// Whether `e` is a monster that strikes the player this turn.
pub open spec fn assails(s: Store, e: specs::Entity, player_pos: Coord) -> bool {
    acts(s, e) && intent(s.viewsheds[e], s.positions[e], player_pos) == Intent::Strike
}

/// Whether `e` is a monster that goes after the player this turn.
pub open spec fn hunts(s: Store, e: specs::Entity, player_pos: Coord) -> bool {
    acts(s, e) && intent(s.viewsheds[e], s.positions[e], player_pos) == Intent::Chase
}

/// The wishes to strike once the monsters of `done` have acted: each of
/// them that stands next to the player it sees wants to strike the player,
/// whatever it wanted before, and nothing else changes.
pub open spec fn wishes_after(
    s: Store,
    done: Seq<specs::Entity>,
    player_pos: Coord,
    player: specs::Entity,
) -> Map<specs::Entity, WantsToMelee> {
    Map::new(
        |e: specs::Entity| s.wants_to_melee.dom().contains(e) || (done.contains(e) && assails(s, e, player_pos)),
        |e: specs::Entity|
            if done.contains(e) && assails(s, e, player_pos) {
                WantsToMelee { target: player }
            } else {
                s.wants_to_melee[e]
            },
    )
}

/// Whether the positions and viewsheds of `t` are those of `s` but for the
/// monsters of `done` that went after the player: each of these either
/// stayed as it was, or stands on another tile of the map with its view
/// marked dirty.
pub open spec fn chased(s: Store, map: &TileMap, done: Seq<specs::Entity>, player_pos: Coord, t: Store) -> bool {
    &&& t.positions.dom() == s.positions.dom()
    &&& t.viewsheds.dom() == s.viewsheds.dom()
    &&& forall|e: specs::Entity| #[trigger]
        s.positions.dom().contains(e) ==> {
            ||| t.positions[e] == s.positions[e]
            ||| (done.contains(e) && hunts(s, e, player_pos) && map.in_bounds(
                t.positions[e].x as int,
                t.positions[e].y as int,
            ) && t.viewsheds[e] == (ViewshedView { dirty: true, ..s.viewsheds[e] }))
        }
    &&& forall|e: specs::Entity| #[trigger]
        s.viewsheds.dom().contains(e) ==> {
            ||| t.viewsheds[e] == s.viewsheds[e]
            ||| (done.contains(e) && hunts(s, e, player_pos) && t.viewsheds[e] == (ViewshedView {
                dirty: true,
                ..s.viewsheds[e]
            }))
        }
}

/// Whether the world `t` is what the monsters' turn makes of the world `s`
/// once the entities of `done` have had their turn.
pub open spec fn monsters_moved(
    s: Store,
    map: &TileMap,
    done: Seq<specs::Entity>,
    player_pos: Coord,
    player: specs::Entity,
    t: Store,
) -> bool {
    &&& t == (Store {
        positions: t.positions,
        viewsheds: t.viewsheds,
        wants_to_melee: wishes_after(s, done, player_pos, player),
        ..s
    })
    &&& chased(s, map, done, player_pos, t)
}

/// Whether `t` and `after` are what following `path` makes of the world
/// `s` and the map `map` for the monster `e`: where the path reached its
/// goal and has more than one step, the monster's tile is freed, the
/// monster stands on the second step, that tile is blocked, and the
/// monster's view is dirty; any other path changes nothing.
pub open spec fn followed(
    s: Store,
    map: &TileMap,
    e: specs::Entity,
    path: NavigationPath,
    t: Store,
    after: &TileMap,
) -> bool {
    if path.success && path.steps@.len() > 1 {
        &&& stepped(map, s.positions[e], path.steps@[1] as int, after)
        &&& t == (Store {
            positions: s.positions.insert(
                e,
                Position { x: map.point_at(path.steps@[1] as int).x, y: map.point_at(path.steps@[1] as int).y },
            ),
            viewsheds: s.viewsheds.insert(e, ViewshedView { dirty: true, ..s.viewsheds[e] }),
            ..s
        })
    } else {
        t == s && *after == *map
    }
}

/// Whether `search`, asked on `map` for a path from the tile of `e` to the
/// player's, gave an answer that, followed, leads from `s` and `map` to `t`
/// and `after`.
pub open spec fn pursued<F: Fn(&TileMap, usize, usize) -> NavigationPath>(
    search: &F,
    s: Store,
    map: &TileMap,
    e: specs::Entity,
    player_pos: Coord,
    t: Store,
    after: &TileMap,
) -> bool {
    exists|path: NavigationPath| #[trigger]
        call_ensures(
            search,
            (
                map,
                map.idx(s.positions[e].x as int, s.positions[e].y as int) as usize,
                map.idx(player_pos.x as int, player_pos.y as int) as usize,
            ),
            path,
        ) && followed(s, map, e, path, t, after)
}

/// Whether `t` and `after` are what the turn of the entity `e` makes of the
/// world `s` and the map `map`. An entity that is no monster with a
/// viewshed and a position, and a monster that does not see the player,
/// change nothing. A monster next to the player it sees wants to strike
/// it. Any other monster asks `search` for a path to the player and
/// follows it.
pub open spec fn turn_taken<F: Fn(&TileMap, usize, usize) -> NavigationPath>(
    search: &F,
    s: Store,
    map: &TileMap,
    e: specs::Entity,
    player_pos: Coord,
    player: specs::Entity,
    t: Store,
    after: &TileMap,
) -> bool {
    if assails(s, e, player_pos) {
        t == (Store { wants_to_melee: s.wants_to_melee.insert(e, WantsToMelee { target: player }), ..s }) && *after
            == *map
    } else if hunts(s, e, player_pos) {
        pursued(search, s, map, e, player_pos, t, after)
    } else {
        t == s && *after == *map
    }
}

/// Whether the turn of the `k`-th entity of `roster` leads from the `k`-th
/// of the worlds and maps to the next.
pub open spec fn turn_at<F: Fn(&TileMap, usize, usize) -> NavigationPath>(
    search: &F,
    roster: Seq<specs::Entity>,
    player_pos: Coord,
    player: specs::Entity,
    worlds: Seq<Store>,
    maps: Seq<TileMap>,
    k: int,
) -> bool {
    turn_taken(search, worlds[k], &maps[k], roster[k], player_pos, player, worlds[k + 1], &maps[k + 1])
}

/// Whether `worlds` and `maps` are the worlds and maps that the entities of
/// `roster` pass through when they take their turns one after the other:
/// one world and one map before the first turn and after every turn.
pub open spec fn turns_taken<F: Fn(&TileMap, usize, usize) -> NavigationPath>(
    search: &F,
    roster: Seq<specs::Entity>,
    player_pos: Coord,
    player: specs::Entity,
    worlds: Seq<Store>,
    maps: Seq<TileMap>,
) -> bool {
    &&& worlds.len() == roster.len() + 1
    &&& maps.len() == roster.len() + 1
    &&& forall|k: int| 0 <= k < roster.len() ==> #[trigger] turn_at(search, roster, player_pos, player, worlds, maps, k)
}

/// Whether the monsters' turn leads from the world `s` and the map `map`
/// to `t` and `after`: the entities take their turns in the order of the
/// world's list, each on the world and the map that the turns before it
/// left.
pub open spec fn monsters_turn<F: Fn(&TileMap, usize, usize) -> NavigationPath>(
    search: &F,
    s: Store,
    map: &TileMap,
    player_pos: Coord,
    player: specs::Entity,
    t: Store,
    after: &TileMap,
) -> bool {
    exists|worlds: Seq<Store>, maps: Seq<TileMap>| #[trigger]
        turns_taken(search, s.roster, player_pos, player, worlds, maps) && worlds[0] == s && maps[0] == *map
            && worlds.last() == t && maps.last() == *after
}

/// Whether the monster `e`, which goes after the player, ends in `t` as the
/// answer of `search` has it. The search was asked on a map that differs
/// from `map` at most in what is blocked, for a path from the tile of `e`
/// to the player's. Where its path reached the goal and has more than one
/// step, `e` stands on the second step with its view dirty; otherwise its
/// position and its view are as they were.
pub open spec fn settled<F: Fn(&TileMap, usize, usize) -> NavigationPath>(
    search: &F,
    s: Store,
    map: &TileMap,
    e: specs::Entity,
    player_pos: Coord,
    t: Store,
) -> bool {
    exists|asked: TileMap, path: NavigationPath| #[trigger]
        call_ensures(
            search,
            (
                &asked,
                map.idx(s.positions[e].x as int, s.positions[e].y as int) as usize,
                map.idx(player_pos.x as int, player_pos.y as int) as usize,
            ),
            path,
        ) && asked.same_but_blocked(map) && if path.success && path.steps@.len() > 1 {
            &&& t.positions[e].x == map.point_at(path.steps@[1] as int).x
            &&& t.positions[e].y == map.point_at(path.steps@[1] as int).y
            &&& t.viewsheds[e] == (ViewshedView { dirty: true, ..s.viewsheds[e] })
        } else {
            t.positions[e] == s.positions[e] && t.viewsheds[e] == s.viewsheds[e]
        }
}

/// Whether every monster of `done` that goes after the player ends in `t`
/// as the answer of `search` has it.
pub open spec fn chases_settled<F: Fn(&TileMap, usize, usize) -> NavigationPath>(
    search: &F,
    s: Store,
    map: &TileMap,
    done: Seq<specs::Entity>,
    player_pos: Coord,
    t: Store,
) -> bool {
    forall|e: specs::Entity| #[trigger] hunts(s, e, player_pos) && done.contains(e) ==> settled(search, s, map, e, player_pos, t)
}

/// Whether a path may be followed on `map`: where it reached its goal and
/// has a second step, that step is a tile of the map.
pub open spec fn leads_on(path: NavigationPath, map: &TileMap) -> bool {
    path.success && path.steps@.len() > 1 ==> path.steps@[1] < map.size()
}

/// Whether `search` can be asked for a path between any two tiles of any
/// well-formed map, and answers only with paths that may be followed on it.
pub open spec fn fit_search<F: Fn(&TileMap, usize, usize) -> NavigationPath>(search: &F) -> bool {
    &&& forall|m: &TileMap, from: usize, to: usize|
        m.wf() && from < m.size() && to < m.size() ==> call_requires(search, (m, from, to))
    &&& forall|m: &TileMap, from: usize, to: usize, path: NavigationPath|
        call_ensures(search, (m, from, to), path) ==> leads_on(path, m)
}

/// Whether the tile of index `i` is one that a monster of `done` which went
/// after the player stood on before or stands on in `t`.
pub open spec fn trodden(s: Store, map: &TileMap, done: Seq<specs::Entity>, player_pos: Coord, t: Store, i: int) -> bool {
    exists|e: specs::Entity|
        done.contains(e) && #[trigger] hunts(s, e, player_pos) && (map.idx(
            s.positions[e].x as int,
            s.positions[e].y as int,
        ) == i || map.idx(t.positions[e].x as int, t.positions[e].y as int) == i)
}

/// Whether the blocked flags of `after` differ from those of `map` only on
/// tiles that a chasing monster of `done` left or stands on.
pub open spec fn blocked_where_trodden(
    s: Store,
    map: &TileMap,
    done: Seq<specs::Entity>,
    player_pos: Coord,
    t: Store,
    after: &TileMap,
) -> bool {
    forall|i: int|
        0 <= i < map.size() && after.blocked@[i] != map.blocked@[i] ==> #[trigger] trodden(
            s,
            map,
            done,
            player_pos,
            t,
            i,
        )
}

/// The map after a monster has gone from `position` to the tile of index
/// `target`: the tile it left is free and the tile it stands on is blocked.
pub open spec fn stepped(map: &TileMap, position: Position, target: int, after: &TileMap) -> bool {
    &&& after.same_but_blocked(map)
    &&& after.blocked@ == map.blocked@.update(map.idx(position.x as int, position.y as int), false).update(
        target,
        true,
    )
}

/// Whether `tiles` holds `p`.
fn holds(tiles: &Vec<Coord>, p: Coord) -> (found: bool)
    ensures
        found == tiles@.contains(p),
{
    let mut i: usize = 0;
    while i < tiles.len()
        invariant
            i <= tiles@.len(),
            forall|j: int| 0 <= j < i ==> tiles@[j] != p,
        decreases tiles@.len() - i,
    {
        if tiles[i] == p {
            return true;
        }
        i += 1;
    }
    false
}

/// The system that lets the monsters act.
pub struct MonsterAI {}

impl MonsterAI {
    /// What a monster does: nothing unless the tile of the player is among
    /// those it sees; a strike if the player is less than one and a half
    /// tiles away; a chase otherwise.
    pub fn decide(viewshed: &Viewshed, position: Position, player_pos: Coord) -> (choice: Intent)
        ensures
            choice == intent(viewshed@, position, player_pos),
    {
        if !holds(&viewshed.visible_tiles, player_pos) {
            return Intent::Rest;
        }
        let dx: i64 = position.x as i64 - player_pos.x as i64;
        let dy: i64 = position.y as i64 - player_pos.y as i64;
        proof {
            lemma_adjacent_is_neighbour(
                position.x as int,
                position.y as int,
                player_pos.x as int,
                player_pos.y as int,
            );
        }
        if -1 <= dx && dx <= 1 && -1 <= dy && dy <= 1 {
            Intent::Strike
        } else {
            Intent::Chase
        }
    }

    /// Moves a monster along `path`. Where the path reached its goal and
    /// has more than one step, the monster's tile is freed, the monster goes
    /// to the second step of the path, the first being where it stands,
    /// that tile is blocked, and the monster's view is marked dirty. Any
    /// other path leaves the monster where it is.
    pub fn follow(
        ecs: &mut specs::World,
        map: &mut TileMap,
        entity: specs::Entity,
        position: Position,
        viewshed: Viewshed,
        path: &NavigationPath,
    ) -> (moved: bool)
        requires
            ready(*old(ecs)),
            contents(*old(ecs)).has(entity),
            old(map).wf(),
            old(map).in_bounds(position.x as int, position.y as int),
            leads_on(*path, old(map)),
        ensures
            ready(*final(ecs)),
            final(map).wf(),
            moved == (path.success && path.steps@.len() > 1),
            !moved ==> contents(*final(ecs)) == contents(*old(ecs)) && *final(map) == *old(map),
            moved ==> stepped(old(map), position, path.steps@[1] as int, final(map)),
            moved ==> contents(*final(ecs)) == (Store {
                positions: contents(*old(ecs)).positions.insert(
                    entity,
                    Position {
                        x: old(map).point_at(path.steps@[1] as int).x,
                        y: old(map).point_at(path.steps@[1] as int).y,
                    },
                ),
                viewsheds: contents(*old(ecs)).viewsheds.insert(entity, ViewshedView { dirty: true, ..viewshed@ }),
                ..contents(*old(ecs))
            }),
    {
        if !(path.success && path.steps.len() > 1) {
            return false;
        }
        proof {
            map.lemma_size_bounded();
            lemma_index_in_range(map.width as int, map.height as int, position.x as int, position.y as int);
        }
        let from: usize = map.xy_idx(position.x, position.y);
        map.blocked[from] = false;
        let target: usize = path.steps[1];
        let place = map.index_to_point(target);
        let to: usize = map.xy_idx(place.x, place.y);
        map.blocked[to] = true;
        let mut viewshed = viewshed;
        viewshed.dirty = true;
        attach(ecs, entity, Position { x: place.x, y: place.y });
        attach(ecs, entity, viewshed);
        true
    }

    /// The monsters' turn. Outside the phase `MonsterTurn` nothing happens.
    /// In it, every entity that is a monster with a viewshed and a position
    /// acts in turn: it rests, or wants to strike the player, or asks
    /// `search` for a path from its tile to the player's and follows it.
    pub fn run<F: Fn(&TileMap, usize, usize) -> NavigationPath>(
        &mut self,
        ecs: &mut specs::World,
        map: &mut TileMap,
        player_pos: Coord,
        player: specs::Entity,
        runstate: RunState,
        search: &F,
    )
        requires
            ready(*old(ecs)),
            old(map).wf(),
            positions_on_map(contents(*old(ecs)), old(map)),
            old(map).in_bounds(player_pos.x as int, player_pos.y as int),
            fit_search(search),
        ensures
            ready(*final(ecs)),
            final(map).wf(),
            final(map).same_but_blocked(old(map)),
            blocked_where_trodden(
                contents(*old(ecs)),
                old(map),
                contents(*old(ecs)).roster,
                player_pos,
                contents(*final(ecs)),
                final(map),
            ),
            runstate != RunState::MonsterTurn ==> contents(*final(ecs)) == contents(*old(ecs)) && *final(map) == *old(
                map,
            ),
            runstate == RunState::MonsterTurn ==> monsters_moved(
                contents(*old(ecs)),
                old(map),
                contents(*old(ecs)).roster,
                player_pos,
                player,
                contents(*final(ecs)),
            ),
            runstate == RunState::MonsterTurn ==> monsters_turn(
                search,
                contents(*old(ecs)),
                old(map),
                player_pos,
                player,
                contents(*final(ecs)),
                final(map),
            ),
            runstate == RunState::MonsterTurn ==> chases_settled(
                search,
                contents(*old(ecs)),
                old(map),
                contents(*old(ecs)).roster,
                player_pos,
                contents(*final(ecs)),
            ),
            positions_on_map(contents(*final(ecs)), final(map)),
            ranges_ok(contents(*old(ecs))) ==> ranges_ok(contents(*final(ecs))),
    {
        if runstate != RunState::MonsterTurn {
            return;
        }
        let ghost s = contents(*ecs);
        let ghost before = *map;
        let list = roster(ecs);
        let ghost mut worlds: Seq<Store> = seq![s];
        let ghost mut maps: Seq<TileMap> = seq![before];
        proof {
            assert(list@.take(0) =~= Seq::<specs::Entity>::empty());
            assert(wishes_after(s, list@.take(0), player_pos, player) =~= s.wants_to_melee);
        }
        let mut k: usize = 0;
        while k < list.len()
            invariant
                ready(*ecs),
                s.wf(),
                before.wf(),
                map.wf(),
                map.same_but_blocked(&before),
                before.in_bounds(player_pos.x as int, player_pos.y as int),
                positions_on_map(s, &before),
                list@ == s.roster,
                k <= list@.len(),
                fit_search(search),
                blocked_where_trodden(s, &before, list@.take(k as int), player_pos, contents(*ecs), map),
                monsters_moved(s, &before, list@.take(k as int), player_pos, player, contents(*ecs)),
                chases_settled(search, s, &before, list@.take(k as int), player_pos, contents(*ecs)),
                worlds.len() == k + 1,
                maps.len() == k + 1,
                worlds[0] == s,
                maps[0] == before,
                worlds.last() == contents(*ecs),
                maps.last() == *map,
                forall|j: int| 0 <= j < k ==> #[trigger] turn_at(search, list@, player_pos, player, worlds, maps, j),
            decreases list@.len() - k,
        {
            let entity = list[k];
            let ghost so_far = list@.take(k as int);
            let ghost now = contents(*ecs);
            let ghost map_then = *map;
            proof {
                assert(list@.take(k + 1) =~= so_far.push(entity));
                assert(!so_far.contains(entity));
                assert forall|x: specs::Entity| #[trigger] so_far.push(entity).contains(x) <==> so_far.contains(x) || x
                    == entity by {
                    vstd::seq_lib::lemma_seq_contains_after_push(so_far, entity, x);
                }
            }
            let viewshed: Option<Viewshed> = fetch(ecs, entity);
            let monster: Option<Monster> = fetch(ecs, entity);
            let position: Option<Position> = fetch(ecs, entity);
            let ghost mut struck: bool = false;
            if let (Some(viewshed), Some(_), Some(position)) = (viewshed, monster, position) {
                assert(acts(s, entity));
                assert(now.positions[entity] == s.positions[entity]);
                assert(now.viewsheds[entity] == s.viewsheds[entity]);
                match MonsterAI::decide(&viewshed, position, player_pos) {
                    Intent::Rest => {},
                    Intent::Strike => {
                        attach(ecs, entity, WantsToMelee { target: player });
                        proof {
                            struck = true;
                        }
                    },
                    Intent::Chase => {
                        proof {
                            map.lemma_size_bounded();
                            lemma_index_in_range(
                                map.width as int,
                                map.height as int,
                                position.x as int,
                                position.y as int,
                            );
                            lemma_index_in_range(
                                map.width as int,
                                map.height as int,
                                player_pos.x as int,
                                player_pos.y as int,
                            );
                        }
                        let from: usize = map.xy_idx(position.x, position.y);
                        let to: usize = map.xy_idx(player_pos.x, player_pos.y);
                        let path = search(map, from, to);
                        let ghost target: int = if path.steps@.len() > 1 {
                            path.steps@[1] as int
                        } else {
                            0
                        };
                        let ghost earlier = *map;
                        let moved = MonsterAI::follow(ecs, map, entity, position, viewshed, &path);
                        proof {
                            if moved {
                                earlier.lemma_point_at(target);
                            }
                            let here = s.positions[entity];
                            assert(call_ensures(
                                search,
                                (
                                    &earlier,
                                    earlier.idx(here.x as int, here.y as int) as usize,
                                    earlier.idx(player_pos.x as int, player_pos.y as int) as usize,
                                ),
                                path,
                            ));
                            assert(followed(now, &earlier, entity, path, contents(*ecs), map));
                            assert(pursued(search, now, &earlier, entity, player_pos, contents(*ecs), map));
                            assert(call_ensures(
                                search,
                                (
                                    &earlier,
                                    before.idx(here.x as int, here.y as int) as usize,
                                    before.idx(player_pos.x as int, player_pos.y as int) as usize,
                                ),
                                path,
                            ));
                            assert(settled(search, s, &before, entity, player_pos, contents(*ecs)));
                        }
                    },
                }
            }
            proof {
                let later = contents(*ecs);
                if struck {
                    assert(wishes_after(s, so_far.push(entity), player_pos, player) =~= wishes_after(
                        s,
                        so_far,
                        player_pos,
                        player,
                    ).insert(entity, WantsToMelee { target: player }));
                } else {
                    assert(wishes_after(s, so_far.push(entity), player_pos, player) =~= wishes_after(
                        s,
                        so_far,
                        player_pos,
                        player,
                    ));
                }
                assert(later.positions.dom() =~= s.positions.dom());
                assert(later.viewsheds.dom() =~= s.viewsheds.dom());
                assert(assails(now, entity, player_pos) == assails(s, entity, player_pos));
                assert(hunts(now, entity, player_pos) == hunts(s, entity, player_pos));
                assert(turn_taken(search, now, &map_then, entity, player_pos, player, later, map));
                let worlds_then = worlds;
                let maps_then = maps;
                worlds = worlds.push(later);
                maps = maps.push(*map);
                assert forall|j: int| 0 <= j < k + 1 implies #[trigger] turn_at(
                    search,
                    list@,
                    player_pos,
                    player,
                    worlds,
                    maps,
                    j,
                ) by {
                    if j < k {
                        assert(turn_at(search, list@, player_pos, player, worlds_then, maps_then, j));
                    }
                }
                assert forall|e: specs::Entity| #[trigger]
                    hunts(s, e, player_pos) && so_far.push(entity).contains(e) implies settled(
                    search,
                    s,
                    &before,
                    e,
                    player_pos,
                    later,
                ) by {
                    if e != entity {
                        assert(settled(search, s, &before, e, player_pos, now));
                        assert(later.positions[e] == now.positions[e]);
                        assert(later.viewsheds[e] == now.viewsheds[e]);
                    }
                }
                assert forall|i: int| 0 <= i < before.size() && map.blocked@[i] != before.blocked@[i] implies #[trigger] trodden(
                    s,
                    &before,
                    so_far.push(entity),
                    player_pos,
                    later,
                    i,
                ) by {
                    if map_then.blocked@[i] != before.blocked@[i] {
                        assert(trodden(s, &before, so_far, player_pos, now, i));
                        let e = choose|e: specs::Entity|
                            so_far.contains(e) && #[trigger] hunts(s, e, player_pos) && (before.idx(
                                s.positions[e].x as int,
                                s.positions[e].y as int,
                            ) == i || before.idx(now.positions[e].x as int, now.positions[e].y as int) == i);
                        assert(later.positions[e] == now.positions[e]);
                        assert(so_far.push(entity).contains(e) && hunts(s, e, player_pos));
                    } else {
                        assert(so_far.push(entity).contains(entity) && hunts(s, entity, player_pos));
                    }
                }
            }
            k += 1;
        }
        proof {
            assert(list@.take(k as int) =~= list@);
            assert(turns_taken(search, s.roster, player_pos, player, worlds, maps));
            assert(contents(*ecs).wf());
        }
    }
}

} // verus!
