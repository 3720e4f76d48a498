//! Computes what every entity sees, and what the player has seen of the map.

use vstd::prelude::*;
use crate::components::{Coord, Player, Position, Viewshed, ViewshedView};
use crate::map::{field_of_view, reach, TileMap, MAX_VIEW_RANGE};
use crate::map_indexing_system::positions_on_map;
use crate::store::{attach, contents, fetch, lemma_filter_no_duplicates, ready, roster, Store};

verus! {

/// Whether every range of sight is within the limit.
pub open spec fn ranges_ok(s: Store) -> bool {
    forall|e: specs::Entity| #[trigger]
        s.viewsheds.dom().contains(e) ==> -MAX_VIEW_RANGE <= s.viewsheds[e].range <= MAX_VIEW_RANGE
}

/// Whether the view of `e` is to be computed afresh: `e` has a viewshed
/// that is dirty, and a position to look from.
pub open spec fn refreshes(s: Store, e: specs::Entity) -> bool {
    s.viewsheds.dom().contains(e) && s.positions.dom().contains(e) && s.viewsheds[e].dirty
}

/// Whether `e` is a player whose view is computed afresh.
pub open spec fn looks(s: Store, e: specs::Entity) -> bool {
    refreshes(s, e) && s.players.dom().contains(e)
}

/// The tiles of the map that `e` sees from where it stands.
pub open spec fn sight(s: Store, map: &TileMap, e: specs::Entity) -> Set<Coord> {
    Set::new(
        |p: Coord|
            map.seen_from(Coord { x: s.positions[e].x, y: s.positions[e].y }, s.viewsheds[e].range).contains(p)
                && map.in_bounds(p.x as int, p.y as int),
    )
}

/// Whether `tile` lies no further from `(x, y)` along an axis than a sight
/// of the given range reaches.
pub open spec fn within_reach(tile: Coord, x: int, y: int, range: int) -> bool {
    -reach(range) <= tile.x - x <= reach(range) && -reach(range) <= tile.y - y <= reach(range)
}

/// Whether `v` is the view of `e` computed afresh: the same range, not
/// dirty, and holding exactly the tiles that `e` sees, each once, all on
/// the map and within reach.
pub open spec fn fresh(s: Store, map: &TileMap, e: specs::Entity, v: ViewshedView) -> bool {
    &&& v.range == s.viewsheds[e].range
    &&& !v.dirty
    &&& v.visible_tiles.no_duplicates()
    &&& v.visible_tiles.to_set() == sight(s, map, e)
    &&& forall|i: int|
        0 <= i < v.visible_tiles.len() ==> within_reach(
            #[trigger] v.visible_tiles[i],
            s.positions[e].x as int,
            s.positions[e].y as int,
            s.viewsheds[e].range as int,
        )
}

/// Whether the viewsheds `after` are those of `s` with the view of every
/// entity of `done` that is due computed afresh, and the others as they
/// were.
pub open spec fn views_refreshed(
    s: Store,
    map: &TileMap,
    done: Seq<specs::Entity>,
    after: Map<specs::Entity, ViewshedView>,
) -> bool {
    &&& after.dom() == s.viewsheds.dom()
    &&& forall|e: specs::Entity| #[trigger]
        s.viewsheds.dom().contains(e) ==> if refreshes(s, e) && done.contains(e) {
            fresh(s, map, e, after[e])
        } else {
            after[e] == s.viewsheds[e]
        }
}

/// Whether some player among `lookers` sees the tile `(x, y)`.
pub open spec fn seen_by_some(s: Store, map: &TileMap, lookers: Seq<specs::Entity>, x: int, y: int) -> bool {
    exists|i: int|
        0 <= i < lookers.len() && #[trigger] sight(s, map, lookers[i]).contains(Coord { x: x as i32, y: y as i32 })
}

/// Whether `after` is the map `before` once the players of `lookers` have
/// looked in turn: what the last of them sees is what is visible, and what
/// any of them sees counts as seen from now on. With no player looking,
/// nothing changes.
pub open spec fn sight_recorded(s: Store, before: &TileMap, lookers: Seq<specs::Entity>, after: &TileMap) -> bool {
    &&& after.same_but_sight(before)
    &&& lookers.len() == 0 ==> after.visible_tiles == before.visible_tiles && after.revealed_tiles
        == before.revealed_tiles
    &&& lookers.len() > 0 ==> forall|x: int, y: int|
        before.in_bounds(x, y) ==> #[trigger] after.visible_at(x, y) == sight(s, before, lookers.last()).contains(
            Coord { x: x as i32, y: y as i32 },
        )
    &&& lookers.len() > 0 ==> forall|x: int, y: int|
        before.in_bounds(x, y) ==> #[trigger] after.revealed_at(x, y) == (before.revealed_at(x, y) || seen_by_some(
            s,
            before,
            lookers,
            x,
            y,
        ))
    &&& forall|i: int| 0 <= i < before.size() && before.revealed_tiles@[i] ==> after.revealed_tiles@[i]
}

/// Whether the world `t` and the map `after` are what a pass of the
/// visibility system makes of the world `s` and the map `before`.
pub open spec fn watched(s: Store, before: &TileMap, t: Store, after: &TileMap) -> bool {
    &&& t == (Store { viewsheds: t.viewsheds, ..s })
    &&& views_refreshed(s, before, s.roster, t.viewsheds)
    &&& sight_recorded(s, before, s.roster.filter(|e: specs::Entity| looks(s, e)), after)
}

impl Viewshed {
    /// Takes `seen` as what is visible now, less any tile that is not on
    /// the map, and marks the view as up to date.
    pub fn refresh(&mut self, seen: Vec<Coord>, map: &TileMap)
        ensures
            final(self).visible_tiles@ == seen@.filter(|p: Coord| map.in_bounds(p.x as int, p.y as int)),
            final(self).range == old(self).range,
            !final(self).dirty,
    {
        self.dirty = false;
        self.visible_tiles.clear();
        let ghost on_map = |p: Coord| map.in_bounds(p.x as int, p.y as int);
        let mut kept: Vec<Coord> = Vec::new();
        let mut i: usize = 0;
        proof {
            reveal(Seq::filter);
            assert(seen@.take(0) =~= Seq::<Coord>::empty());
        }
        while i < seen.len()
            invariant
                i <= seen@.len(),
                on_map == |p: Coord| map.in_bounds(p.x as int, p.y as int),
                kept@ == seen@.take(i as int).filter(on_map),
            decreases seen@.len() - i,
        {
            let p = seen[i];
            proof {
                assert(seen@.take(i + 1) =~= seen@.take(i as int).push(p));
                seen@.take(i as int).lemma_filter_push(p, on_map);
            }
            if p.x >= 0 && p.x < map.width && p.y >= 0 && p.y < map.height {
                kept.push(p);
            }
            i += 1;
        }
        proof {
            assert(seen@.take(i as int) =~= seen@);
        }
        self.visible_tiles = kept;
    }
}

/// The tiles of `seen` that lie on the map are the tiles that the looker
/// sees, each once and all within reach.
proof fn lemma_filtered_is_fresh(s: Store, map: &TileMap, e: specs::Entity, seen: Seq<Coord>, v: ViewshedView)
    requires
        seen.to_set() == map.seen_from(Coord { x: s.positions[e].x, y: s.positions[e].y }, s.viewsheds[e].range),
        seen.no_duplicates(),
        forall|i: int|
            0 <= i < seen.len() ==> within_reach(
                #[trigger] seen[i],
                s.positions[e].x as int,
                s.positions[e].y as int,
                s.viewsheds[e].range as int,
            ),
        v.visible_tiles == seen.filter(|p: Coord| map.in_bounds(p.x as int, p.y as int)),
        v.range == s.viewsheds[e].range,
        !v.dirty,
    ensures
        fresh(s, map, e, v),
{
    let on_map = |p: Coord| map.in_bounds(p.x as int, p.y as int);
    let kept = seen.filter(on_map);
    lemma_filter_no_duplicates(seen, on_map);
    assert forall|p: Coord| kept.to_set().contains(p) <==> sight(s, map, e).contains(p) by {
        if kept.contains(p) {
            let i = choose|i: int| 0 <= i < kept.len() && kept[i] == p;
            seen.lemma_filter_pred(on_map, i);
            seen.lemma_filter_contains_rev(on_map, p);
            assert(seen.to_set().contains(p));
        }
        if sight(s, map, e).contains(p) {
            assert(seen.to_set().contains(p));
            let i = choose|i: int| 0 <= i < seen.len() && seen[i] == p;
            seen.lemma_filter_contains(on_map, i);
        }
    }
    assert(kept.to_set() =~= sight(s, map, e));
    assert forall|i: int| 0 <= i < kept.len() implies within_reach(
        #[trigger] kept[i],
        s.positions[e].x as int,
        s.positions[e].y as int,
        s.viewsheds[e].range as int,
    ) by {
        assert(kept.contains(kept[i]));
        seen.lemma_filter_contains_rev(on_map, kept[i]);
        let j = choose|j: int| 0 <= j < seen.len() && seen[j] == kept[i];
        assert(within_reach(seen[j], s.positions[e].x as int, s.positions[e].y as int, s.viewsheds[e].range as int));
    }
}

/// The number of a tile within the square of side `2 * r + 1` around
/// `(x, y)`, counted row by row.
spec fn place_in_square(tile: Coord, x: int, y: int, r: int) -> int {
    (tile.y - y + r) * (2 * r + 1) + (tile.x - x + r)
}

/// A view computed afresh holds, each once, tiles of the map that lie in
/// the square of side `2 * r + 1` around the looker, `r` being how far its
/// sight reaches: so it holds no more tiles than that square has.
pub proof fn lemma_fresh_view_is_bounded(s: Store, map: &TileMap, e: specs::Entity, v: ViewshedView)
    requires
        fresh(s, map, e, v),
    ensures
        !v.dirty,
        forall|i: int|
            0 <= i < v.visible_tiles.len() ==> map.in_bounds(
                #[trigger] v.visible_tiles[i].x as int,
                v.visible_tiles[i].y as int,
            ),
        v.visible_tiles.len() <= (2 * reach(s.viewsheds[e].range as int) + 1) * (2 * reach(
            s.viewsheds[e].range as int,
        ) + 1),
{
    let tiles = v.visible_tiles;
    let x = s.positions[e].x as int;
    let y = s.positions[e].y as int;
    let r = reach(s.viewsheds[e].range as int);
    let side = 2 * r + 1;
    assert forall|i: int| 0 <= i < tiles.len() implies map.in_bounds(#[trigger] tiles[i].x as int, tiles[i].y as int) by {
        assert(tiles.to_set().contains(tiles[i]));
    }
    let codes = tiles.map_values(|t: Coord| place_in_square(t, x, y, r));
    assert forall|i: int, j: int| 0 <= i < codes.len() && 0 <= j < codes.len() && i != j implies codes[i]
        != codes[j] by {
        assert(within_reach(tiles[i], x, y, s.viewsheds[e].range as int));
        assert(within_reach(tiles[j], x, y, s.viewsheds[e].range as int));
        if codes[i] == codes[j] {
            crate::map::lemma_index_injective(
                side,
                tiles[i].x - x + r,
                tiles[i].y - y + r,
                tiles[j].x - x + r,
                tiles[j].y - y + r,
            );
            assert(tiles[i] == tiles[j]);
        }
    }
    assert(codes.no_duplicates());
    codes.unique_seq_to_set();
    assert(side * side >= 0) by (nonlinear_arith)
        requires
            side >= 0,
    ;
    vstd::set_lib::lemma_int_range(0, side * side);
    assert forall|c: int| codes.to_set().contains(c) implies vstd::set_lib::set_int_range(0, side * side).contains(
        c,
    ) by {
        let i = choose|i: int| 0 <= i < codes.len() && codes[i] == c;
        assert(within_reach(tiles[i], x, y, s.viewsheds[e].range as int));
        crate::map::lemma_index_in_range(side, side, tiles[i].x - x + r, tiles[i].y - y + r);
    }
    vstd::set_lib::lemma_len_subset(codes.to_set(), vstd::set_lib::set_int_range(0, side * side));
}

/// The system that keeps the viewsheds and the map's record of sight.
pub struct VisibilitySystem {}

impl VisibilitySystem {
    /// Visits every entity that has a viewshed and a position. A view that
    /// is not dirty is left alone. A dirty one is computed afresh from where
    /// the entity stands, walls stopping sight, kept to the tiles of the
    /// map, and marked up to date. Where the entity is a player, the map
    /// then shows exactly those tiles as visible, and remembers them as
    /// seen.
    pub fn run(&mut self, ecs: &mut specs::World, map: &mut TileMap)
        requires
            ready(*old(ecs)),
            old(map).wf(),
            positions_on_map(contents(*old(ecs)), old(map)),
            ranges_ok(contents(*old(ecs))),
        ensures
            ready(*final(ecs)),
            final(map).wf(),
            watched(contents(*old(ecs)), old(map), contents(*final(ecs)), final(map)),
    {
        let ghost s = contents(*ecs);
        let ghost before = *map;
        let ghost is_looker = |e: specs::Entity| looks(s, e);
        let list = roster(ecs);
        proof {
            reveal(Seq::filter);
            assert(list@.take(0) =~= Seq::<specs::Entity>::empty());
            assert(list@.take(0).filter(is_looker).len() == 0);
        }
        let mut k: usize = 0;
        while k < list.len()
            invariant
                ready(*ecs),
                s.wf(),
                before.wf(),
                map.wf(),
                positions_on_map(s, &before),
                ranges_ok(s),
                list@ == s.roster,
                k <= list@.len(),
                is_looker == |e: specs::Entity| looks(s, e),
                contents(*ecs) == (Store { viewsheds: contents(*ecs).viewsheds, ..s }),
                views_refreshed(s, &before, list@.take(k as int), contents(*ecs).viewsheds),
                sight_recorded(s, &before, list@.take(k as int).filter(is_looker), map),
            decreases list@.len() - k,
        {
            let entity = list[k];
            let ghost so_far = list@.take(k as int);
            let ghost now = contents(*ecs);
            let ghost earlier = *map;
            proof {
                assert(list@.take(k + 1) =~= so_far.push(entity));
                assert(!so_far.contains(entity));
                so_far.lemma_filter_push(entity, is_looker);
                assert forall|x: specs::Entity| #[trigger] so_far.push(entity).contains(x) <==> so_far.contains(x) || x
                    == entity by {
                    vstd::seq_lib::lemma_seq_contains_after_push(so_far, entity, x);
                }
            }
            let viewshed: Option<Viewshed> = fetch(ecs, entity);
            let position: Option<Position> = fetch(ecs, entity);
            let ghost mut refreshed: bool = false;
            if let (Some(mut viewshed), Some(position)) = (viewshed, position) {
                if viewshed.dirty {
                    assert(refreshes(s, entity));
                    let start = Coord { x: position.x, y: position.y };
                    let seen = field_of_view(start, viewshed.range, map);
                    viewshed.refresh(seen, map);
                    proof {
                        assert(map.walls() =~= before.walls());
                        assert((|p: Coord| map.in_bounds(p.x as int, p.y as int)) =~= (|p: Coord|
                            before.in_bounds(p.x as int, p.y as int)));
                        lemma_filtered_is_fresh(s, &before, entity, seen@, viewshed@);
                    }
                    let player: Option<Player> = fetch(ecs, entity);
                    if player.is_some() {
                        proof {
                            assert forall|i: int| 0 <= i < viewshed.visible_tiles@.len() implies map.in_bounds(
                                #[trigger] viewshed.visible_tiles@[i].x as int,
                                viewshed.visible_tiles@[i].y as int,
                            ) by {
                                assert(viewshed.visible_tiles@.to_set().contains(viewshed.visible_tiles@[i]));
                            }
                        }
                        map.show(&viewshed.visible_tiles);
                        proof {
                            let lookers = so_far.filter(is_looker);
                            let next = lookers.push(entity);
                            assert(next.last() == entity);
                            assert forall|x: int, y: int| before.in_bounds(x, y) implies #[trigger] map.revealed_at(
                                x,
                                y,
                            ) == (before.revealed_at(x, y) || seen_by_some(s, &before, next, x, y)) by {
                                let c = Coord { x: x as i32, y: y as i32 };
                                let here = sight(s, &before, entity).contains(c);
                                assert(viewshed.visible_tiles@.contains(c) == here) by {
                                    assert(viewshed.visible_tiles@.to_set().contains(c) == here);
                                }
                                crate::map::lemma_index_in_range(before.width as int, before.height as int, x, y);
                                if lookers.len() == 0 {
                                    assert(earlier.revealed_at(x, y) == before.revealed_at(x, y));
                                }
                                if seen_by_some(s, &before, lookers, x, y) {
                                    let i = choose|i: int|
                                        0 <= i < lookers.len() && #[trigger] sight(s, &before, lookers[i]).contains(c);
                                    assert(sight(s, &before, next[i]).contains(c));
                                }
                                if here {
                                    assert(sight(s, &before, next[lookers.len() as int]).contains(c));
                                }
                                if seen_by_some(s, &before, next, x, y) {
                                    let i = choose|i: int|
                                        0 <= i < next.len() && #[trigger] sight(s, &before, next[i]).contains(c);
                                    if i < lookers.len() {
                                        assert(sight(s, &before, lookers[i]).contains(c));
                                    }
                                }
                            }
                            assert forall|x: int, y: int| before.in_bounds(x, y) implies #[trigger] map.visible_at(
                                x,
                                y,
                            ) == sight(s, &before, next.last()).contains(Coord { x: x as i32, y: y as i32 }) by {
                                let c = Coord { x: x as i32, y: y as i32 };
                                assert(viewshed.visible_tiles@.to_set().contains(c) == sight(s, &before, entity).contains(
                                    c,
                                ));
                            }
                        }
                    }
                    attach(ecs, entity, viewshed);
                    proof {
                        refreshed = true;
                    }
                }
            }
            proof {
                if !refreshed {
                    assert(contents(*ecs) == now);
                }
                assert(contents(*ecs).viewsheds.dom() =~= s.viewsheds.dom());
            }
            k += 1;
        }
        proof {
            assert(list@.take(k as int) =~= list@);
            assert(contents(*ecs).wf());
        }
    }
}

} // verus!
