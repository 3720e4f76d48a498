//! Rebuilds, from the positions of the entities, which tiles are blocked and
//! who stands on each tile.

use vstd::prelude::*;
use crate::components::{BlocksTile, Position};
use crate::map::{lemma_index_in_range, TileMap, TileType};
use crate::store::{contents, fetch, ready, roster, Store};

verus! {

/// Whether every entity with a position stands on a tile of `map`.
pub open spec fn positions_on_map(s: Store, map: &TileMap) -> bool {
    forall|e: specs::Entity| #[trigger]
        s.positions.dom().contains(e) ==> map.in_bounds(s.positions[e].x as int, s.positions[e].y as int)
}

/// Whether `e` stands on the tile of index `i`.
pub open spec fn stands_on(s: Store, map: &TileMap, e: specs::Entity, i: int) -> bool {
    s.positions.dom().contains(e) && map.idx(s.positions[e].x as int, s.positions[e].y as int) == i
}

/// The entities that stand on the tile of index `i`, in the order of the
/// world's list.
pub open spec fn occupants(s: Store, map: &TileMap, i: int) -> Seq<specs::Entity> {
    s.roster.filter(|e: specs::Entity| stands_on(s, map, e, i))
}

/// Whether the tile of index `i` is a wall or holds an entity that blocks
/// its tile.
pub open spec fn obstructed(s: Store, map: &TileMap, i: int) -> bool {
    map.tiles@[i] == TileType::Wall || exists|e: specs::Entity|
        s.blockers.dom().contains(e) && #[trigger] stands_on(s, map, e, i)
}

/// Whether `after` is `before` with its blocked flags and occupant lists
/// rebuilt from the world `s`, and nothing else changed.
pub open spec fn indexed(before: &TileMap, after: &TileMap, s: Store) -> bool {
    &&& after.tiles == before.tiles
    &&& after.rooms == before.rooms
    &&& after.width == before.width
    &&& after.height == before.height
    &&& after.revealed_tiles == before.revealed_tiles
    &&& after.visible_tiles == before.visible_tiles
    &&& after.blocked@.len() == before.size()
    &&& after.tile_content@.len() == before.size()
    &&& forall|i: int| 0 <= i < before.size() ==> after.blocked@[i] == obstructed(s, before, i)
    &&& forall|i: int| 0 <= i < before.size() ==> (#[trigger] after.tile_content@[i])@ == occupants(s, before, i)
}

/// The system that keeps the map's record of occupancy.
pub struct MapIndexingSystem {}

impl MapIndexingSystem {
    /// Marks the walls as blocked, then visits every entity that has a
    /// position: the entity is listed on its tile, and the tile is blocked
    /// if the entity blocks its tile.
    pub fn run(&mut self, ecs: &specs::World, map: &mut TileMap)
        requires
            ready(*ecs),
            old(map).wf(),
            positions_on_map(contents(*ecs), old(map)),
        ensures
            final(map).wf(),
            indexed(old(map), final(map), contents(*ecs)),
    {
        let ghost s = contents(*ecs);
        let ghost before = *map;
        map.populate_blocked();
        map.clear_content_index();
        let list = roster(ecs);
        proof {
            assert forall|j: int| 0 <= j < before.size() implies (#[trigger] map.tile_content@[j])@ == list@.take(0).filter(
                |e: specs::Entity| stands_on(s, &before, e, j),
            ) by {
                reveal(Seq::filter);
                assert(list@.take(0).len() == 0);
                assert(map.tile_content@[j]@ =~= Seq::<specs::Entity>::empty());
            }
        }
        let mut k: usize = 0;
        while k < list.len()
            invariant
                ready(*ecs),
                s == contents(*ecs),
                list@ == s.roster,
                before.wf(),
                positions_on_map(s, &before),
                k <= list@.len(),
                map.tiles == before.tiles,
                map.rooms == before.rooms,
                map.width == before.width,
                map.height == before.height,
                map.revealed_tiles == before.revealed_tiles,
                map.visible_tiles == before.visible_tiles,
                map.blocked@.len() == before.size(),
                map.tile_content@.len() == before.size(),
                forall|j: int|
                    0 <= j < before.size() ==> map.blocked@[j] == (before.tiles@[j] == TileType::Wall || exists|n: int|
                        0 <= n < k && s.blockers.dom().contains(list@[n]) && #[trigger] stands_on(
                            s,
                            &before,
                            list@[n],
                            j,
                        )),
                forall|j: int|
                    0 <= j < before.size() ==> (#[trigger] map.tile_content@[j])@ == list@.take(k as int).filter(
                        |e: specs::Entity| stands_on(s, &before, e, j),
                    ),
            decreases list@.len() - k,
        {
            let entity = list[k];
            let ghost earlier = *map;
            let position: Option<Position> = fetch(ecs, entity);
            let ghost mut at: int = -1;
            if let Some(position) = position {
                proof {
                    before.lemma_size_bounded();
                    lemma_index_in_range(
                        before.width as int,
                        before.height as int,
                        position.x as int,
                        position.y as int,
                    );
                }
                let idx: usize = map.xy_idx(position.x, position.y);
                proof {
                    at = idx as int;
                }
                let blocker: Option<BlocksTile> = fetch(ecs, entity);
                if blocker.is_some() {
                    map.blocked[idx] = true;
                }
                map.tile_content[idx].push(entity);
            }
            proof {
                assert(list@.take(k + 1) =~= list@.take(k as int).push(entity));
                assert forall|j: int| 0 <= j < before.size() implies (#[trigger] map.tile_content@[j])@ == list@.take(
                    k + 1,
                ).filter(|e: specs::Entity| stands_on(s, &before, e, j)) by {
                    let pred = |e: specs::Entity| stands_on(s, &before, e, j);
                    list@.take(k as int).lemma_filter_push(entity, pred);
                    assert(pred(entity) == (j == at));
                    assert(earlier.tile_content@[j]@ == list@.take(k as int).filter(pred));
                }
                assert forall|j: int| 0 <= j < before.size() implies map.blocked@[j] == (before.tiles@[j]
                    == TileType::Wall || exists|n: int|
                    0 <= n < k + 1 && s.blockers.dom().contains(list@[n]) && #[trigger] stands_on(
                        s,
                        &before,
                        list@[n],
                        j,
                    )) by {
                    let old_some = exists|n: int|
                        0 <= n < k && s.blockers.dom().contains(list@[n]) && #[trigger] stands_on(
                            s,
                            &before,
                            list@[n],
                            j,
                        );
                    let new_some = exists|n: int|
                        0 <= n < k + 1 && s.blockers.dom().contains(list@[n]) && #[trigger] stands_on(
                            s,
                            &before,
                            list@[n],
                            j,
                        );
                    let here = s.blockers.dom().contains(entity) && stands_on(s, &before, entity, j);
                    assert(earlier.blocked@[j] == (before.tiles@[j] == TileType::Wall || old_some));
                    if here {
                        assert(s.blockers.dom().contains(list@[k as int]) && stands_on(s, &before, list@[k as int], j));
                    }
                    if new_some && !old_some {
                        let n = choose|n: int|
                            0 <= n < k + 1 && s.blockers.dom().contains(list@[n]) && #[trigger] stands_on(
                                s,
                                &before,
                                list@[n],
                                j,
                            );
                        assert(n == k);
                    }
                    assert(new_some == (old_some || here));
                }
            }
            k += 1;
        }
        proof {
            assert(list@.take(k as int) =~= list@);
            assert forall|j: int| 0 <= j < before.size() implies map.blocked@[j] == obstructed(s, &before, j) by {
                let by_index = exists|n: int|
                    0 <= n < k && s.blockers.dom().contains(list@[n]) && #[trigger] stands_on(s, &before, list@[n], j);
                let by_entity = exists|e: specs::Entity|
                    s.blockers.dom().contains(e) && #[trigger] stands_on(s, &before, e, j);
                if by_entity {
                    let e = choose|e: specs::Entity|
                        s.blockers.dom().contains(e) && #[trigger] stands_on(s, &before, e, j);
                    assert(s.has(e));
                    let n = choose|n: int| 0 <= n < s.roster.len() && s.roster[n] == e;
                    assert(s.blockers.dom().contains(list@[n]) && stands_on(s, &before, list@[n], j));
                }
                if by_index {
                    let n = choose|n: int|
                        0 <= n < k && s.blockers.dom().contains(list@[n]) && #[trigger] stands_on(
                            s,
                            &before,
                            list@[n],
                            j,
                        );
                    assert(s.blockers.dom().contains(list@[n]) && stands_on(s, &before, list@[n], j));
                }
            }
        }
    }
}

/// Indexing the same world twice gives the same blocked flags and the same
/// occupants on every tile: the second pass changes nothing.
pub proof fn lemma_indexing_idempotent(m0: &TileMap, m1: &TileMap, m2: &TileMap, s: Store)
    requires
        indexed(m0, m1, s),
        indexed(m1, m2, s),
    ensures
        m2.blocked@ == m1.blocked@,
        m2.tile_content@.len() == m1.tile_content@.len(),
        forall|i: int| 0 <= i < m1.tile_content@.len() ==> (#[trigger] m2.tile_content@[i])@ == m1.tile_content@[i]@,
{
    assert(m1.size() == m0.size());
    assert forall|i: int| 0 <= i < m0.size() implies m2.blocked@[i] == m1.blocked@[i] by {
        assert(obstructed(s, m1, i) == obstructed(s, m0, i)) by {
            assert forall|e: specs::Entity| stands_on(s, m1, e, i) == stands_on(s, m0, e, i) by {}
        }
    }
    assert(m2.blocked@ =~= m1.blocked@);
    assert forall|i: int| 0 <= i < m1.tile_content@.len() implies (#[trigger] m2.tile_content@[i])@
        == m1.tile_content@[i]@ by {
        assert((|e: specs::Entity| stands_on(s, m1, e, i)) =~= (|e: specs::Entity| stands_on(s, m0, e, i)));
    }
}

} // verus!
