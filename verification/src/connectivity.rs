//! The floor of a generated map is of one piece: from the centre of the
//! first room one can walk to every floor tile over floor, by steps along
//! the axes.

use vstd::prelude::*;
use crate::map::{drawable, in_room, TileMap, TileType, MAP_HEIGHT, MAP_WIDTH};

verus! {

/// Whether two tiles lie next to one another along an axis.
pub open spec fn beside(a: (int, int), b: (int, int)) -> bool {
    (a.0 == b.0 && (a.1 - b.1 == 1 || b.1 - a.1 == 1)) || (a.1 == b.1 && (a.0 - b.0 == 1 || b.0 - a.0 == 1))
}

/// Whether `p` is a floor tile of the map.
pub open spec fn floor_at(map: &TileMap, p: (int, int)) -> bool {
    map.in_bounds(p.0, p.1) && map.tile_at(p.0, p.1) == TileType::Floor
}

/// Whether `path` is a walk over floor: it has a tile, all its tiles are
/// floor, and each lies beside the one before it.
pub open spec fn walk(map: &TileMap, path: Seq<(int, int)>) -> bool {
    &&& path.len() >= 1
    &&& forall|k: int| 0 <= k < path.len() ==> floor_at(map, #[trigger] path[k])
    &&& forall|k: int| 0 <= k < path.len() - 1 ==> beside(#[trigger] path[k], path[k + 1])
}

/// Whether one can walk over floor from `a` to `b`.
pub open spec fn linked(map: &TileMap, a: (int, int), b: (int, int)) -> bool {
    exists|path: Seq<(int, int)>| #[trigger] walk(map, path) && path[0] == a && path.last() == b
}

/// The centre of room `i`.
pub open spec fn centre(map: &TileMap, i: int) -> (int, int) {
    map.rooms@[i].center_spec()
}

/// Whether the map has the generator's sides and rooms it may draw, and
/// its floor is exactly what was dug for them with the given bends.
pub open spec fn laid(map: &TileMap, bends: Seq<bool>) -> bool {
    &&& map.wf()
    &&& map.width == MAP_WIDTH
    &&& map.height == MAP_HEIGHT
    &&& map.rooms@.len() >= 1
    &&& forall|i: int| 0 <= i < map.rooms@.len() ==> drawable(#[trigger] map.rooms@[i])
    &&& map.floored(bends)
}

/// A floor tile is linked to itself.
proof fn lemma_linked_to_itself(map: &TileMap, a: (int, int))
    requires
        floor_at(map, a),
    ensures
        linked(map, a, a),
{
    let path = seq![a];
    assert(walk(map, path));
    assert(path[0] == a && path.last() == a);
}

/// A walk can be taken one step further.
proof fn lemma_linked_step(map: &TileMap, a: (int, int), b: (int, int), c: (int, int))
    requires
        linked(map, a, b),
        floor_at(map, c),
        beside(b, c),
    ensures
        linked(map, a, c),
{
    let path = choose|path: Seq<(int, int)>| #[trigger] walk(map, path) && path[0] == a && path.last() == b;
    let longer = path.push(c);
    assert forall|k: int| 0 <= k < longer.len() implies floor_at(map, #[trigger] longer[k]) by {
        if k < path.len() {
            assert(floor_at(map, path[k]));
        }
    }
    assert forall|k: int| 0 <= k < longer.len() - 1 implies beside(#[trigger] longer[k], longer[k + 1]) by {
        if k < path.len() - 1 {
            assert(beside(path[k], path[k + 1]));
        }
    }
    assert(walk(map, longer));
    assert(longer[0] == a && longer.last() == c);
}

/// A walk that has come to a row of floor can go along it.
proof fn lemma_along_row(map: &TileMap, a: (int, int), from: int, to: int, y: int)
    requires
        linked(map, a, (from, y)),
        forall|x: int| (from <= x <= to || to <= x <= from) ==> #[trigger] floor_at(map, (x, y)),
    ensures
        linked(map, a, (to, y)),
    decreases
            if to >= from {
                to - from
            } else {
                from - to
            },
{
    if to != from {
        let before = if to > from {
            to - 1
        } else {
            to + 1
        };
        lemma_along_row(map, a, from, before, y);
        assert(floor_at(map, (to, y)));
        lemma_linked_step(map, a, (before, y), (to, y));
    }
}

/// A walk that has come to a column of floor can go along it.
proof fn lemma_along_column(map: &TileMap, a: (int, int), x: int, from: int, to: int)
    requires
        linked(map, a, (x, from)),
        forall|y: int| (from <= y <= to || to <= y <= from) ==> #[trigger] floor_at(map, (x, y)),
    ensures
        linked(map, a, (x, to)),
    decreases
            if to >= from {
                to - from
            } else {
                from - to
            },
{
    if to != from {
        let before = if to > from {
            to - 1
        } else {
            to + 1
        };
        lemma_along_column(map, a, x, from, before);
        assert(floor_at(map, (x, to)));
        lemma_linked_step(map, a, (x, before), (x, to));
    }
}

/// What was dug for a room is floor, and on the map.
proof fn lemma_dug_is_floor(map: &TileMap, bends: Seq<bool>, i: int, x: int, y: int)
    requires
        laid(map, bends),
        0 <= i < map.rooms@.len(),
        map.in_bounds(x, y),
        map.dug_at(bends, i, x, y),
    ensures
        floor_at(map, (x, y)),
{
    assert(map.dug_somewhere(bends, x, y));
    assert((map.tile_at(x, y) == TileType::Floor) == map.dug_somewhere(bends, x, y));
}

/// The centre of a room lies inside the room, on the map, and off the
/// first three rows and columns.
proof fn lemma_centre_inside(map: &TileMap, bends: Seq<bool>, i: int)
    requires
        laid(map, bends),
        0 <= i < map.rooms@.len(),
    ensures
        in_room(map.rooms@[i], centre(map, i).0, centre(map, i).1),
        map.in_bounds(centre(map, i).0, centre(map, i).1),
        centre(map, i).0 >= 3,
        centre(map, i).1 >= 3,
{
    assert(drawable(map.rooms@[i]));
}

/// Within a room, a walk can go from any tile of the inside to any other.
proof fn lemma_across_room(map: &TileMap, bends: Seq<bool>, i: int, a: (int, int), from: (int, int), to: (int, int))
    requires
        laid(map, bends),
        0 <= i < map.rooms@.len(),
        linked(map, a, from),
        in_room(map.rooms@[i], from.0, from.1),
        in_room(map.rooms@[i], to.0, to.1),
    ensures
        linked(map, a, to),
{
    let room = map.rooms@[i];
    assert(drawable(room));
    assert forall|x: int| (from.0 <= x <= to.0 || to.0 <= x <= from.0) implies #[trigger] floor_at(map, (x, from.1)) by {
        assert(in_room(room, x, from.1));
        lemma_dug_is_floor(map, bends, i, x, from.1);
    }
    lemma_along_row(map, a, from.0, to.0, from.1);
    assert forall|y: int| (from.1 <= y <= to.1 || to.1 <= y <= from.1) implies #[trigger] floor_at(map, (to.0, y)) by {
        assert(in_room(room, to.0, y));
        lemma_dug_is_floor(map, bends, i, to.0, y);
    }
    lemma_along_column(map, a, to.0, from.1, to.1);
}

/// A walk that has come to the centre of a room can go on along the
/// corridor to the next room, to every tile of the corridor.
proof fn lemma_along_link(map: &TileMap, bends: Seq<bool>, i: int, a: (int, int), x: int, y: int)
    requires
        laid(map, bends),
        1 <= i < map.rooms@.len(),
        linked(map, a, centre(map, i - 1)),
        map.on_link(i, bends[i], x, y),
    ensures
        linked(map, a, (x, y)),
{
    let p = centre(map, i - 1);
    let n = centre(map, i);
    lemma_centre_inside(map, bends, i - 1);
    lemma_centre_inside(map, bends, i);
    if bends[i] {
        // along the row of the room before, then along the column of this room
        let turn = if y == p.1 && ((p.0 <= x <= n.0) || (n.0 <= x <= p.0)) {
            x
        } else {
            n.0
        };
        assert forall|c: int| (p.0 <= c <= turn || turn <= c <= p.0) implies #[trigger] floor_at(map, (c, p.1)) by {
            assert(map.on_link(i, bends[i], c, p.1));
            lemma_dug_is_floor(map, bends, i, c, p.1);
        }
        lemma_along_row(map, a, p.0, turn, p.1);
        if !(y == p.1 && ((p.0 <= x <= n.0) || (n.0 <= x <= p.0))) {
            assert forall|r: int| (p.1 <= r <= y || y <= r <= p.1) implies #[trigger] floor_at(map, (n.0, r)) by {
                assert(map.on_link(i, bends[i], n.0, r));
                lemma_dug_is_floor(map, bends, i, n.0, r);
            }
            lemma_along_column(map, a, n.0, p.1, y);
        }
    } else {
        // along the column of the room before, then along the row of this room
        let turn = if x == p.0 && ((p.1 <= y <= n.1) || (n.1 <= y <= p.1)) {
            y
        } else {
            n.1
        };
        assert forall|r: int| (p.1 <= r <= turn || turn <= r <= p.1) implies #[trigger] floor_at(map, (p.0, r)) by {
            assert(map.on_link(i, bends[i], p.0, r));
            lemma_dug_is_floor(map, bends, i, p.0, r);
        }
        lemma_along_column(map, a, p.0, p.1, turn);
        if !(x == p.0 && ((p.1 <= y <= n.1) || (n.1 <= y <= p.1))) {
            assert forall|c: int| (p.0 <= c <= x || x <= c <= p.0) implies #[trigger] floor_at(map, (c, n.1)) by {
                assert(map.on_link(i, bends[i], c, n.1));
                lemma_dug_is_floor(map, bends, i, c, n.1);
            }
            lemma_along_row(map, a, p.0, x, n.1);
        }
    }
}

/// From the centre of the first room one can walk to the centre of every
/// room.
proof fn lemma_centres_linked(map: &TileMap, bends: Seq<bool>, i: int)
    requires
        laid(map, bends),
        0 <= i < map.rooms@.len(),
    ensures
        linked(map, centre(map, 0), centre(map, i)),
    decreases i,
{
    lemma_centre_inside(map, bends, i);
    let c = centre(map, i);
    if i == 0 {
        assert(map.dug_at(bends, 0, c.0, c.1));
        lemma_dug_is_floor(map, bends, 0, c.0, c.1);
        lemma_linked_to_itself(map, c);
    } else {
        lemma_centres_linked(map, bends, i - 1);
        lemma_centre_inside(map, bends, i - 1);
        assert(map.on_link(i, bends[i], c.0, c.1));
        lemma_along_link(map, bends, i, centre(map, 0), c.0, c.1);
    }
}

/// On a generated map, every floor tile can be reached from the centre of
/// the first room by a walk over floor that goes from tile to tile along
/// the axes.
pub proof fn lemma_generated_floor_is_connected(map: &TileMap, x: int, y: int)
    requires
        map.generated(),
        map.in_bounds(x, y),
        map.tile_at(x, y) == TileType::Floor,
    ensures
        linked(map, centre(map, 0), (x, y)),
{
    let bends = choose|bends: Seq<bool>| #[trigger] map.floored(bends);
    assert(laid(map, bends));
    assert(map.dug_somewhere(bends, x, y));
    let i = choose|i: int| 0 <= i < map.rooms@.len() && #[trigger] map.dug_at(bends, i, x, y);
    if in_room(map.rooms@[i], x, y) {
        lemma_centres_linked(map, bends, i);
        lemma_centre_inside(map, bends, i);
        lemma_across_room(map, bends, i, centre(map, 0), centre(map, i), (x, y));
    } else {
        lemma_centres_linked(map, bends, i - 1);
        lemma_along_link(map, bends, i, centre(map, 0), x, y);
    }
}

} // verus!
