//! The tile map: its grid of walls and floors, the rooms and corridors that
//! are dug into it, and the per-tile bookkeeping that the systems keep.

use vstd::prelude::*;
use crate::components::Coord;
use crate::random::{new_generator, range, roll_dice};
use crate::rect::Rect;

verus! {

/// What a tile is made of.
#[derive(Clone, Copy, Debug, PartialEq, Eq, Structural)]
pub enum TileType {
    Wall,
    Floor,
}

/// The longest side a map may have. It keeps every tile index, and every
/// coordinate a field of view reaches for, within `i32`.
pub const MAX_SIDE: i32 = 32768;

/// Width of a generated map.
pub const MAP_WIDTH: i32 = 80;

/// Height of a generated map.
pub const MAP_HEIGHT: i32 = 50;

/// How many rooms the generator tries to place.
pub const MAX_ROOMS: i32 = 30;

/// Smallest extent of a generated room.
pub const MIN_SIZE: i32 = 6;

/// Bound, not reached, on the extent of a generated room.
pub const MAX_SIZE: i32 = 10;

/// The dungeon: tiles in row-major order, the rooms dug so far, and for each
/// tile whether it was ever seen, is seen now, is blocked, and who stands on
/// it.
pub struct TileMap {
    pub tiles: Vec<TileType>,
    pub rooms: Vec<Rect>,
    pub width: i32,
    pub height: i32,
    pub revealed_tiles: Vec<bool>,
    pub visible_tiles: Vec<bool>,
    pub blocked: Vec<bool>,
    pub tile_content: Vec<Vec<specs::Entity>>,
}

/// Whether `(x, y)` lies in the part of `room` that is dug out: strictly
/// after the first corner and up to the second. So the row `y1` and the
/// column `x1` stay wall, while the row `y2` and the column `x2`, the far
/// border of the rectangle, are dug with the inside.
pub open spec fn in_room(room: Rect, x: int, y: int) -> bool {
    room.x1 < x <= room.x2 && room.y1 < y <= room.y2
}

/// Whether `(x, y)` lies on row `row` between columns `xa` and `xb`, in
/// either order.
pub open spec fn on_row(xa: int, xb: int, row: int, x: int, y: int) -> bool {
    y == row && ((xa <= x <= xb) || (xb <= x <= xa))
}

/// Whether `(x, y)` lies on column `column` between rows `ya` and `yb`, in
/// either order.
pub open spec fn on_column(ya: int, yb: int, column: int, x: int, y: int) -> bool {
    x == column && ((ya <= y <= yb) || (yb <= y <= ya))
}

/// Whether `(x, y)` lies on the corridor from `from` to `to`: along the row
/// of `from` and then the column of `to` when `horizontal_first`, else along
/// the column of `from` and then the row of `to`.
pub open spec fn on_corridor(from: (int, int), to: (int, int), horizontal_first: bool, x: int, y: int) -> bool {
    if horizontal_first {
        on_row(from.0, to.0, from.1, x, y) || on_column(from.1, to.1, to.0, x, y)
    } else {
        on_column(from.1, to.1, from.0, x, y) || on_row(from.0, to.0, to.1, x, y)
    }
}

/// Two different tiles of one row-major grid have different indices.
pub proof fn lemma_index_injective(width: int, x1: int, y1: int, x2: int, y2: int)
    requires
        0 <= x1 < width,
        0 <= x2 < width,
        y1 * width + x1 == y2 * width + x2,
    ensures
        x1 == x2,
        y1 == y2,
{
    if y1 < y2 {
        assert(y2 * width >= (y1 + 1) * width) by (nonlinear_arith)
            requires
                y1 + 1 <= y2,
                width > 0,
        ;
        assert((y1 + 1) * width == y1 * width + width) by (nonlinear_arith);
    } else if y2 < y1 {
        assert(y1 * width >= (y2 + 1) * width) by (nonlinear_arith)
            requires
                y2 + 1 <= y1,
                width > 0,
        ;
        assert((y2 + 1) * width == y2 * width + width) by (nonlinear_arith);
    }
}

/// The index of a tile of the grid lies within the grid.
pub proof fn lemma_index_in_range(width: int, height: int, x: int, y: int)
    requires
        0 <= x < width,
        0 <= y < height,
    ensures
        0 <= y * width + x < width * height,
{
    assert(y * width >= 0) by (nonlinear_arith)
        requires
            y >= 0,
            width > 0,
    ;
    assert((y + 1) * width <= height * width) by (nonlinear_arith)
        requires
            y + 1 <= height,
            width > 0,
    ;
    assert((y + 1) * width == y * width + width) by (nonlinear_arith);
    assert(height * width == width * height) by (nonlinear_arith);
}

/// A vector of `n` copies of `value`.
fn filled<T: Copy>(value: T, n: usize) -> (v: Vec<T>)
    ensures
        v@ == Seq::new(n as nat, |i: int| value),
{
    let mut v: Vec<T> = Vec::new();
    let mut i: usize = 0;
    while i < n
        invariant
            i <= n,
            v@ == Seq::new(i as nat, |j: int| value),
        decreases n - i,
    {
        v.push(value);
        i += 1;
        assert(v@ =~= Seq::new(i as nat, |j: int| value));
    }
    v
}

/// The lay of a map as a mathematical value: its sides, its tiles in
/// row-major order, and its rooms in the order in which they were placed.
pub struct Layout {
    pub width: int,
    pub height: int,
    pub tiles: Seq<TileType>,
    pub rooms: Seq<Rect>,
}

impl Layout {
    /// A map of the given sides that is all wall and has no room.
    pub open spec fn blank(width: int, height: int) -> Layout {
        Layout {
            width,
            height,
            tiles: Seq::new((width * height) as nat, |i: int| TileType::Wall),
            rooms: Seq::empty(),
        }
    }

    /// Whether `room` intersects none of the rooms placed so far.
    pub open spec fn clear_of(self, room: Rect) -> bool {
        forall|i: int| 0 <= i < self.rooms.len() ==> !room.intersects(#[trigger] self.rooms[i])
    }

    /// Whether placing `room` digs out tile `(x, y)`: the tile lies in the
    /// room, or, where a room was placed before, on the corridor from that
    /// room's centre to the centre of `room`. The tile of index 0 is never
    /// dug by a corridor.
    pub open spec fn dug_by(self, room: Rect, horizontal_first: bool, x: int, y: int) -> bool {
        ||| in_room(room, x, y)
        ||| (self.rooms.len() > 0 && y * self.width + x != 0 && on_corridor(
            self.rooms.last().center_spec(),
            room.center_spec(),
            horizontal_first,
            x,
            y,
        ))
    }

    /// The lay after `room` has been tried: unchanged if the room
    /// intersects an earlier one; else with the room and its corridor dug
    /// and the room added to the list.
    pub open spec fn with_room(self, room: Rect, horizontal_first: bool) -> Layout {
        if self.clear_of(room) {
            Layout {
                tiles: Seq::new(
                    self.tiles.len(),
                    |i: int|
                        if self.dug_by(room, horizontal_first, i % self.width, i / self.width) {
                            TileType::Floor
                        } else {
                            self.tiles[i]
                        },
                ),
                rooms: self.rooms.push(room),
                ..self
            }
        } else {
            self
        }
    }

    /// The lay after the candidates have been tried one after the other,
    /// each a room and the bend of its corridor.
    pub open spec fn with_rooms(self, candidates: Seq<(Rect, bool)>) -> Layout
        decreases candidates.len(),
    {
        if candidates.len() == 0 {
            self
        } else {
            self.with_rooms(candidates.drop_last()).with_room(candidates.last().0, candidates.last().1)
        }
    }
}

/// Whether `room` is one the generator may draw: of an extent from
/// `MIN_SIZE` up to, but not including, `MAX_SIZE` either way, and inside
/// the map short of its last row and column.
pub open spec fn drawable(room: Rect) -> bool {
    &&& MIN_SIZE <= room.x2 - room.x1 < MAX_SIZE
    &&& MIN_SIZE <= room.y2 - room.y1 < MAX_SIZE
    &&& 0 <= room.x1
    &&& room.x2 < MAP_WIDTH - 1
    &&& 0 <= room.y1
    &&& room.y2 < MAP_HEIGHT - 1
}

impl TileMap {
    /// Number of tiles.
    pub open spec fn size(&self) -> int {
        self.width * self.height
    }

    /// Whether `(x, y)` names a tile of the map.
    pub open spec fn in_bounds(&self, x: int, y: int) -> bool {
        0 <= x < self.width && 0 <= y < self.height
    }

    /// The index of tile `(x, y)`: rows follow one another, each `width` long.
    pub open spec fn idx(&self, x: int, y: int) -> int {
        y * self.width + x
    }

    /// The kind of tile at `(x, y)`.
    pub open spec fn tile_at(&self, x: int, y: int) -> TileType {
        self.tiles@[self.idx(x, y)]
    }

    /// The lay of the map.
    pub open spec fn layout(&self) -> Layout {
        Layout { width: self.width as int, height: self.height as int, tiles: self.tiles@, rooms: self.rooms@ }
    }

    /// Whether `room` lies on the map, its corners in order.
    pub open spec fn fits(&self, room: Rect) -> bool {
        0 <= room.x1 <= room.x2 < self.width && 0 <= room.y1 <= room.y2 < self.height
    }

    /// The sides are within limits, every per-tile vector has one entry per
    /// tile, and every room lies on the map.
    pub open spec fn wf(&self) -> bool {
        &&& 1 <= self.width <= MAX_SIDE
        &&& 1 <= self.height <= MAX_SIDE
        &&& self.tiles@.len() == self.size()
        &&& self.revealed_tiles@.len() == self.size()
        &&& self.visible_tiles@.len() == self.size()
        &&& self.blocked@.len() == self.size()
        &&& self.tile_content@.len() == self.size()
        &&& forall|i: int| 0 <= i < self.rooms@.len() ==> self.fits(#[trigger] self.rooms@[i])
    }

    /// No two rooms of the map intersect.
    pub open spec fn rooms_apart(&self) -> bool {
        forall|i: int, j: int|
            0 <= i < j < self.rooms@.len() ==> !(#[trigger] self.rooms@[i]).intersects(#[trigger] self.rooms@[j])
    }

    /// Whether `room` intersects none of the rooms of the map.
    pub open spec fn clear_of(&self, room: Rect) -> bool {
        forall|i: int| 0 <= i < self.rooms@.len() ==> !room.intersects(#[trigger] self.rooms@[i])
    }

    /// The centre of the room placed last.
    pub open spec fn last_center(&self) -> (int, int) {
        self.rooms@.last().center_spec()
    }

    /// Whether placing `room` digs out tile `(x, y)`: the tile lies in the
    /// room, or, where a room was placed before, on the corridor from that
    /// room's centre to the centre of `room`. The tile of index 0 is never
    /// dug by a corridor.
    pub open spec fn dug_by(&self, room: Rect, horizontal_first: bool, x: int, y: int) -> bool {
        ||| in_room(room, x, y)
        ||| (self.rooms@.len() > 0 && self.idx(x, y) != 0 && on_corridor(
            self.last_center(),
            room.center_spec(),
            horizontal_first,
            x,
            y,
        ))
    }

    /// The size of the map fits the index types.
    pub proof fn lemma_size_bounded(&self)
        requires
            1 <= self.width <= MAX_SIDE,
            1 <= self.height <= MAX_SIDE,
        ensures
            1 <= self.size() <= 0x4000_0000,
    {
        assert(1 <= self.width * self.height <= 0x4000_0000) by (nonlinear_arith)
            requires
                1 <= self.width <= 32768,
                1 <= self.height <= 32768,
        ;
    }

    /// A map of the given sides, all wall: nothing seen, nothing blocked,
    /// nobody on any tile, no room.
    pub fn new(width: i32, height: i32) -> (map: TileMap)
        requires
            1 <= width <= MAX_SIDE,
            1 <= height <= MAX_SIDE,
        ensures
            map.wf(),
            map.width == width,
            map.height == height,
            map.rooms@.len() == 0,
            forall|i: int| 0 <= i < map.size() ==> map.tiles@[i] == TileType::Wall,
            forall|i: int| 0 <= i < map.size() ==> !map.revealed_tiles@[i],
            forall|i: int| 0 <= i < map.size() ==> !map.visible_tiles@[i],
            forall|i: int| 0 <= i < map.size() ==> !map.blocked@[i],
            forall|i: int| 0 <= i < map.size() ==> (#[trigger] map.tile_content@[i])@.len() == 0,
    {
        assert(1 <= width * height <= 0x4000_0000) by (nonlinear_arith)
            requires
                1 <= width <= 32768,
                1 <= height <= 32768,
        ;
        let n: usize = (width as usize) * (height as usize);
        let mut tile_content: Vec<Vec<specs::Entity>> = Vec::new();
        let mut i: usize = 0;
        while i < n
            invariant
                i <= n,
                tile_content@.len() == i,
                forall|j: int| 0 <= j < i ==> (#[trigger] tile_content@[j])@.len() == 0,
            decreases n - i,
        {
            tile_content.push(Vec::new());
            i += 1;
        }
        TileMap {
            tiles: filled(TileType::Wall, n),
            rooms: Vec::new(),
            width,
            height,
            revealed_tiles: filled(false, n),
            visible_tiles: filled(false, n),
            blocked: filled(false, n),
            tile_content,
        }
    }

    /// The index of tile `(x, y)`.
    pub fn xy_idx(&self, x: i32, y: i32) -> (i: usize)
        requires
            x >= 0,
            y >= 0,
            self.width >= 0,
            y * self.width + x <= usize::MAX,
        ensures
            i == self.idx(x as int, y as int),
    {
        assert(y * self.width >= 0) by (nonlinear_arith)
            requires
                y >= 0,
                self.width >= 0,
        ;
        (y as usize * self.width as usize) + x as usize
    }

    /// Whether `other` differs from this map in its tiles at most.
    pub open spec fn same_but_tiles(&self, other: &TileMap) -> bool {
        &&& self.rooms == other.rooms
        &&& self.width == other.width
        &&& self.height == other.height
        &&& self.revealed_tiles == other.revealed_tiles
        &&& self.visible_tiles == other.visible_tiles
        &&& self.blocked == other.blocked
        &&& self.tile_content == other.tile_content
        &&& self.tiles@.len() == other.tiles@.len()
    }

    /// Digs out the inside of `room`.
    fn apply_room_to_map(&mut self, room: &Rect)
        requires
            old(self).wf(),
            old(self).fits(*room),
        ensures
            final(self).same_but_tiles(old(self)),
            forall|x: int, y: int|
                old(self).in_bounds(x, y) ==> #[trigger] final(self).tile_at(x, y) == if in_room(*room, x, y) {
                    TileType::Floor
                } else {
                    old(self).tile_at(x, y)
                },
    {
        let ghost before = *self;
        let mut y: i32 = room.y1 + 1;
        while y <= room.y2
            invariant
                before.wf(),
                before.fits(*room),
                self.same_but_tiles(&before),
                room.y1 < y <= room.y2 + 1,
                forall|px: int, py: int|
                    before.in_bounds(px, py) ==> #[trigger] self.tile_at(px, py) == if in_room(*room, px, py) && py < y {
                        TileType::Floor
                    } else {
                        before.tile_at(px, py)
                    },
            decreases room.y2 + 1 - y,
        {
            let mut x: i32 = room.x1 + 1;
            while x <= room.x2
                invariant
                    before.wf(),
                    before.fits(*room),
                    self.same_but_tiles(&before),
                    room.y1 < y <= room.y2,
                    room.x1 < x <= room.x2 + 1,
                    forall|px: int, py: int|
                        before.in_bounds(px, py) ==> #[trigger] self.tile_at(px, py) == if in_room(*room, px, py) && (py < y
                            || (py == y && px < x)) {
                            TileType::Floor
                        } else {
                            before.tile_at(px, py)
                        },
                decreases room.x2 + 1 - x,
            {
                proof {
                    self.lemma_size_bounded();
                    lemma_index_in_range(self.width as int, self.height as int, x as int, y as int);
                }
                let idx: usize = self.xy_idx(x, y);
                let ghost earlier = *self;
                self.tiles[idx] = TileType::Floor;
                proof {
                    assert forall|px: int, py: int| before.in_bounds(px, py) implies #[trigger] self.tile_at(px, py)
                        == if in_room(*room, px, py) && (py < y || (py == y && px < x + 1)) {
                        TileType::Floor
                    } else {
                        before.tile_at(px, py)
                    } by {
                        lemma_index_in_range(self.width as int, self.height as int, px, py);
                        if self.idx(px, py) == idx as int {
                            lemma_index_injective(self.width as int, px, py, x as int, y as int);
                        } else {
                            assert(self.tile_at(px, py) == earlier.tile_at(px, py));
                        }
                    }
                }
                x = x + 1;
            }
            y = y + 1;
        }
    }

    /// Digs a corridor along row `y` between columns `x1` and `x2`. The
    /// tile of index 0 is left alone.
    fn apply_horizontal_tunnel(&mut self, x1: i32, x2: i32, y: i32)
        requires
            old(self).wf(),
            old(self).in_bounds(x1 as int, y as int),
            old(self).in_bounds(x2 as int, y as int),
        ensures
            final(self).same_but_tiles(old(self)),
            forall|px: int, py: int|
                old(self).in_bounds(px, py) ==> #[trigger] final(self).tile_at(px, py) == if on_row(
                    x1 as int,
                    x2 as int,
                    y as int,
                    px,
                    py,
                ) && old(self).idx(px, py) != 0 {
                    TileType::Floor
                } else {
                    old(self).tile_at(px, py)
                },
    {
        let ghost before = *self;
        let lo: i32 = if x1 <= x2 { x1 } else { x2 };
        let hi: i32 = if x1 <= x2 { x2 } else { x1 };
        proof {
            self.lemma_size_bounded();
        }
        let size: usize = self.width as usize * self.height as usize;
        let mut x: i32 = lo;
        while x <= hi
            invariant
                before.wf(),
                before.in_bounds(lo as int, y as int),
                before.in_bounds(hi as int, y as int),
                self.same_but_tiles(&before),
                size == before.size(),
                lo <= x <= hi + 1,
                forall|px: int, py: int|
                    before.in_bounds(px, py) ==> #[trigger] self.tile_at(px, py) == if py == y && lo <= px < x
                        && before.idx(px, py) != 0 {
                        TileType::Floor
                    } else {
                        before.tile_at(px, py)
                    },
            decreases hi + 1 - x,
        {
            proof {
                lemma_index_in_range(self.width as int, self.height as int, x as int, y as int);
            }
            let idx: usize = self.xy_idx(x, y);
            let ghost earlier = *self;
            if idx > 0 && idx < size {
                self.tiles[idx] = TileType::Floor;
            }
            proof {
                assert forall|px: int, py: int| before.in_bounds(px, py) implies #[trigger] self.tile_at(px, py)
                    == if py == y && lo <= px < x + 1 && before.idx(px, py) != 0 {
                    TileType::Floor
                } else {
                    before.tile_at(px, py)
                } by {
                    lemma_index_in_range(self.width as int, self.height as int, px, py);
                    if self.idx(px, py) == idx as int {
                        lemma_index_injective(self.width as int, px, py, x as int, y as int);
                    } else {
                        assert(self.tile_at(px, py) == earlier.tile_at(px, py));
                    }
                }
            }
            x = x + 1;
        }
    }

    /// Digs a corridor along column `x` between rows `y1` and `y2`. The
    /// tile of index 0 is left alone.
    fn apply_vertical_tunnel(&mut self, y1: i32, y2: i32, x: i32)
        requires
            old(self).wf(),
            old(self).in_bounds(x as int, y1 as int),
            old(self).in_bounds(x as int, y2 as int),
        ensures
            final(self).same_but_tiles(old(self)),
            forall|px: int, py: int|
                old(self).in_bounds(px, py) ==> #[trigger] final(self).tile_at(px, py) == if on_column(
                    y1 as int,
                    y2 as int,
                    x as int,
                    px,
                    py,
                ) && old(self).idx(px, py) != 0 {
                    TileType::Floor
                } else {
                    old(self).tile_at(px, py)
                },
    {
        let ghost before = *self;
        let lo: i32 = if y1 <= y2 { y1 } else { y2 };
        let hi: i32 = if y1 <= y2 { y2 } else { y1 };
        proof {
            self.lemma_size_bounded();
        }
        let size: usize = self.width as usize * self.height as usize;
        let mut y: i32 = lo;
        while y <= hi
            invariant
                before.wf(),
                before.in_bounds(x as int, lo as int),
                before.in_bounds(x as int, hi as int),
                self.same_but_tiles(&before),
                size == before.size(),
                lo <= y <= hi + 1,
                forall|px: int, py: int|
                    before.in_bounds(px, py) ==> #[trigger] self.tile_at(px, py) == if px == x && lo <= py < y
                        && before.idx(px, py) != 0 {
                        TileType::Floor
                    } else {
                        before.tile_at(px, py)
                    },
            decreases hi + 1 - y,
        {
            proof {
                lemma_index_in_range(self.width as int, self.height as int, x as int, y as int);
            }
            let idx: usize = self.xy_idx(x, y);
            let ghost earlier = *self;
            if idx > 0 && idx < size {
                self.tiles[idx] = TileType::Floor;
            }
            proof {
                assert forall|px: int, py: int| before.in_bounds(px, py) implies #[trigger] self.tile_at(px, py)
                    == if px == x && lo <= py < y + 1 && before.idx(px, py) != 0 {
                    TileType::Floor
                } else {
                    before.tile_at(px, py)
                } by {
                    lemma_index_in_range(self.width as int, self.height as int, px, py);
                    if self.idx(px, py) == idx as int {
                        lemma_index_injective(self.width as int, px, py, x as int, y as int);
                    } else {
                        assert(self.tile_at(px, py) == earlier.tile_at(px, py));
                    }
                }
            }
            y = y + 1;
        }
    }

    /// Whether no tile has been seen, is seen, is blocked or is occupied.
    pub open spec fn untouched(&self) -> bool {
        &&& forall|i: int| 0 <= i < self.revealed_tiles@.len() ==> !self.revealed_tiles@[i]
        &&& forall|i: int| 0 <= i < self.visible_tiles@.len() ==> !self.visible_tiles@[i]
        &&& forall|i: int| 0 <= i < self.blocked@.len() ==> !self.blocked@[i]
        &&& forall|i: int| 0 <= i < self.tile_content@.len() ==> (#[trigger] self.tile_content@[i])@.len() == 0
    }

    /// Whether `room` intersects none of the rooms placed so far.
    fn is_clear_of(&self, room: &Rect) -> (ok: bool)
        ensures
            ok == self.clear_of(*room),
    {
        let mut ok: bool = true;
        let mut i: usize = 0;
        while i < self.rooms.len()
            invariant
                i <= self.rooms@.len(),
                ok == forall|j: int| 0 <= j < i ==> !room.intersects(#[trigger] self.rooms@[j]),
            decreases self.rooms@.len() - i,
        {
            if room.intersect(&self.rooms[i]) {
                ok = false;
            }
            i += 1;
        }
        ok
    }

    /// Tries to place `room`. It is refused, and the map left as it was, if
    /// it intersects a room placed before. Otherwise its inside is dug out,
    /// a corridor is dug from the centre of the room placed last (if any) to
    /// its own centre, along the row first when `horizontal_first` and along
    /// the column first otherwise, and the room is added to the list.
    pub fn add_room(&mut self, room: Rect, horizontal_first: bool) -> (accepted: bool)
        requires
            old(self).wf(),
            old(self).fits(room),
        ensures
            accepted == old(self).clear_of(room),
            final(self).layout() == old(self).layout().with_room(room, horizontal_first),
            !accepted ==> *final(self) == *old(self),
            accepted ==> final(self).rooms@ == old(self).rooms@.push(room),
            final(self).wf(),
            final(self).width == old(self).width,
            final(self).height == old(self).height,
            final(self).revealed_tiles == old(self).revealed_tiles,
            final(self).visible_tiles == old(self).visible_tiles,
            final(self).blocked == old(self).blocked,
            final(self).tile_content == old(self).tile_content,
            accepted ==> forall|x: int, y: int|
                old(self).in_bounds(x, y) ==> #[trigger] final(self).tile_at(x, y) == if old(self).dug_by(
                    room,
                    horizontal_first,
                    x,
                    y,
                ) {
                    TileType::Floor
                } else {
                    old(self).tile_at(x, y)
                },
    {
        if !self.is_clear_of(&room) {
            proof {
                let i = choose|i: int| 0 <= i < self.rooms@.len() && room.intersects(#[trigger] self.rooms@[i]);
                assert(room.intersects(self.layout().rooms[i]));
            }
            return false;
        }
        let ghost before = *self;
        self.apply_room_to_map(&room);
        let ghost roomed = *self;
        let ghost halfway = *self;
        if self.rooms.len() > 0 {
            let (new_x, new_y) = room.center();
            let last: usize = self.rooms.len() - 1;
            let (prev_x, prev_y) = self.rooms[last].center();
            assert(before.fits(before.rooms@[last as int]));
            assert(before.rooms@.last() == before.rooms@[last as int]);
            if horizontal_first {
                self.apply_horizontal_tunnel(prev_x, new_x, prev_y);
                proof {
                    halfway = *self;
                }
                self.apply_vertical_tunnel(prev_y, new_y, new_x);
            } else {
                self.apply_vertical_tunnel(prev_y, new_y, prev_x);
                proof {
                    halfway = *self;
                }
                self.apply_horizontal_tunnel(prev_x, new_x, new_y);
            }
        }
        let ghost dug = *self;
        self.rooms.push(room);
        proof {
            assert forall|x: int, y: int| before.in_bounds(x, y) implies #[trigger] self.tile_at(x, y) == if before.dug_by(
                room,
                horizontal_first,
                x,
                y,
            ) {
                TileType::Floor
            } else {
                before.tile_at(x, y)
            } by {
                assert(self.tile_at(x, y) == dug.tile_at(x, y));
                let a = roomed.tile_at(x, y);
                let b = halfway.tile_at(x, y);
            }
            assert forall|i: int| 0 <= i < self.rooms@.len() implies self.fits(#[trigger] self.rooms@[i]) by {
                if i < before.rooms@.len() {
                    assert(before.fits(before.rooms@[i]));
                }
            }
            let plan = before.layout().with_room(room, horizontal_first);
            assert(before.layout().clear_of(room));
            assert forall|i: int| 0 <= i < self.tiles@.len() implies self.tiles@[i] == plan.tiles[i] by {
                before.lemma_point_at(i);
                let x = i % (before.width as int);
                let y = i / (before.width as int);
                assert(self.tile_at(x, y) == self.tiles@[i]);
                assert(before.dug_by(room, horizontal_first, x, y) == before.layout().dug_by(
                    room,
                    horizontal_first,
                    x,
                    y,
                ));
            }
            assert(self.tiles@ =~= plan.tiles);
        }
        true
    }

    /// Whether `(x, y)` lies on the corridor that joins room `i` to the room
    /// before it, bent the given way. The tile of index 0 lies on none.
    pub open spec fn on_link(&self, i: int, horizontal_first: bool, x: int, y: int) -> bool {
        self.idx(x, y) != 0 && on_corridor(
            self.rooms@[i - 1].center_spec(),
            self.rooms@[i].center_spec(),
            horizontal_first,
            x,
            y,
        )
    }

    /// Whether `(x, y)` was dug for room `i`: it lies inside the room, or on
    /// the corridor that joins the room to the one before it, bent as
    /// `bends` has it.
    pub open spec fn dug_at(&self, bends: Seq<bool>, i: int, x: int, y: int) -> bool {
        in_room(self.rooms@[i], x, y) || (i >= 1 && self.on_link(i, bends[i], x, y))
    }

    /// Whether `(x, y)` was dug for one of the rooms.
    pub open spec fn dug_somewhere(&self, bends: Seq<bool>, x: int, y: int) -> bool {
        exists|i: int| 0 <= i < self.rooms@.len() && #[trigger] self.dug_at(bends, i, x, y)
    }

    /// Whether the floor of the map is exactly what was dug for its rooms,
    /// `bends` telling for each room how the corridor to the room before it
    /// is bent: a tile is floor if it lies in a room or on one of these
    /// corridors, and wall otherwise.
    pub open spec fn floored(&self, bends: Seq<bool>) -> bool {
        &&& bends.len() == self.rooms@.len()
        &&& forall|x: int, y: int|
            self.in_bounds(x, y) ==> (#[trigger] self.tile_at(x, y) == TileType::Floor) == self.dug_somewhere(
                bends,
                x,
                y,
            )
    }

    /// Whether the map is built of rooms and corridors alone: no two rooms
    /// intersect, and for some bends of the corridors the floor is exactly
    /// the rooms and the corridors that join each room to the one before.
    pub open spec fn built(&self) -> bool {
        self.rooms_apart() && exists|bends: Seq<bool>| #[trigger] self.floored(bends)
    }

    /// Whether the map is what trying the candidates `drawn` one after the
    /// other on a blank map gives, these being as many as the generator
    /// tries and each one it may draw.
    pub open spec fn laid_from(&self, drawn: Seq<(Rect, bool)>) -> bool {
        &&& drawn.len() == MAX_ROOMS
        &&& forall|i: int| 0 <= i < drawn.len() ==> drawable((#[trigger] drawn[i]).0)
        &&& self.layout() == Layout::blank(MAP_WIDTH as int, MAP_HEIGHT as int).with_rooms(drawn)
    }

    /// Whether the map is as the generator leaves it: of the fixed size,
    /// the outcome of trying 30 candidates on a blank map, so with at least
    /// one and at most 30 rooms of the sizes the generator draws, built of
    /// them and their corridors alone, and with nothing seen, blocked or
    /// occupied.
    pub open spec fn generated(&self) -> bool {
        &&& self.wf()
        &&& self.width == MAP_WIDTH
        &&& self.height == MAP_HEIGHT
        &&& 1 <= self.rooms@.len() <= MAX_ROOMS
        &&& self.built()
        &&& self.untouched()
        &&& forall|i: int| 0 <= i < self.rooms@.len() ==> drawable(#[trigger] self.rooms@[i])
        &&& exists|drawn: Seq<(Rect, bool)>| #[trigger] self.laid_from(drawn)
    }

    /// Tries to place each of the candidates in turn, as `add_room` does:
    /// each is a room and the bend of the corridor that is to join it to
    /// the room placed last.
    pub fn add_rooms(&mut self, candidates: &Vec<(Rect, bool)>)
        requires
            old(self).wf(),
            forall|i: int| 0 <= i < candidates@.len() ==> old(self).fits((#[trigger] candidates@[i]).0),
        ensures
            final(self).wf(),
            final(self).layout() == old(self).layout().with_rooms(candidates@),
            final(self).width == old(self).width,
            final(self).height == old(self).height,
            final(self).revealed_tiles == old(self).revealed_tiles,
            final(self).visible_tiles == old(self).visible_tiles,
            final(self).blocked == old(self).blocked,
            final(self).tile_content == old(self).tile_content,
            old(self).built() ==> final(self).built(),
            old(self).rooms@.len() <= final(self).rooms@.len() <= old(self).rooms@.len() + candidates@.len(),
            candidates@.len() > 0 ==> final(self).rooms@.len() >= 1,
            forall|j: int| 0 <= j < old(self).rooms@.len() ==> final(self).rooms@[j] == old(self).rooms@[j],
            forall|j: int|
                old(self).rooms@.len() <= j < final(self).rooms@.len() ==> exists|i: int|
                    0 <= i < candidates@.len() && (#[trigger] candidates@[i]).0 == #[trigger] final(self).rooms@[j],
    {
        let ghost first = *self;
        let ghost mut bends: Seq<bool> = Seq::empty();
        proof {
            if first.built() {
                bends = choose|bends: Seq<bool>| #[trigger] first.floored(bends);
            }
            assert(candidates@.take(0) =~= Seq::<(Rect, bool)>::empty());
        }
        let mut k: usize = 0;
        while k < candidates.len()
            invariant
                k <= candidates@.len(),
                first.wf(),
                self.wf(),
                forall|i: int| 0 <= i < candidates@.len() ==> first.fits((#[trigger] candidates@[i]).0),
                self.width == first.width,
                self.height == first.height,
                self.layout() == first.layout().with_rooms(candidates@.take(k as int)),
                self.revealed_tiles == first.revealed_tiles,
                self.visible_tiles == first.visible_tiles,
                self.blocked == first.blocked,
                self.tile_content == first.tile_content,
                first.built() ==> self.rooms_apart() && self.floored(bends),
                first.rooms@.len() <= self.rooms@.len() <= first.rooms@.len() + k,
                k > 0 ==> self.rooms@.len() >= 1,
                forall|j: int| 0 <= j < first.rooms@.len() ==> self.rooms@[j] == first.rooms@[j],
                forall|j: int|
                    first.rooms@.len() <= j < self.rooms@.len() ==> exists|i: int|
                        0 <= i < k && (#[trigger] candidates@[i]).0 == #[trigger] self.rooms@[j],
            decreases candidates@.len() - k,
        {
            let (room, horizontal_first) = candidates[k];
            let ghost before = *self;
            proof {
                assert(first.fits(candidates@[k as int].0));
                assert(candidates@.take(k + 1).drop_last() =~= candidates@.take(k as int));
                assert(candidates@.take(k + 1).last() == candidates@[k as int]);
            }
            let accepted: bool = self.add_room(room, horizontal_first);
            proof {
                let added = before.rooms@.len() as int;
                assert forall|j: int| first.rooms@.len() <= j < self.rooms@.len() implies exists|i: int|
                    0 <= i < k + 1 && (#[trigger] candidates@[i]).0 == #[trigger] self.rooms@[j] by {
                    if j < added {
                        assert(before.rooms@[j] == self.rooms@[j]);
                        let i = choose|i: int| 0 <= i < k && (#[trigger] candidates@[i]).0 == before.rooms@[j];
                        assert(candidates@[i].0 == self.rooms@[j]);
                    } else {
                        assert(candidates@[k as int].0 == self.rooms@[j]);
                    }
                }
                if accepted && first.built() {
                    let longer = bends.push(horizontal_first);
                    assert forall|i: int, j: int| 0 <= i < j < self.rooms@.len() implies !(#[trigger] self.rooms@[i]).intersects(
                        #[trigger] self.rooms@[j],
                    ) by {
                        if j == added {
                            assert(!room.intersects(before.rooms@[i]));
                        } else {
                            assert(!before.rooms@[i].intersects(before.rooms@[j]));
                        }
                    }
                    assert forall|x: int, y: int| self.in_bounds(x, y) implies (#[trigger] self.tile_at(x, y)
                        == TileType::Floor) == self.dug_somewhere(longer, x, y) by {
                        assert(before.in_bounds(x, y));
                        let was = before.tile_at(x, y) == TileType::Floor;
                        assert(was == before.dug_somewhere(bends, x, y));
                        if added > 0 {
                            assert(before.rooms@.last() == self.rooms@[added - 1]);
                        }
                        assert(before.dug_by(room, horizontal_first, x, y) == self.dug_at(longer, added, x, y));
                        if before.dug_somewhere(bends, x, y) {
                            let i = choose|i: int| 0 <= i < added && #[trigger] before.dug_at(bends, i, x, y);
                            assert(before.rooms@[i] == self.rooms@[i]);
                            if i >= 1 {
                                assert(before.rooms@[i - 1] == self.rooms@[i - 1]);
                            }
                            assert(self.dug_at(longer, i, x, y));
                        }
                        if self.dug_somewhere(longer, x, y) {
                            let i = choose|i: int| 0 <= i < added + 1 && #[trigger] self.dug_at(longer, i, x, y);
                            if i < added {
                                assert(before.rooms@[i] == self.rooms@[i]);
                                if i >= 1 {
                                    assert(before.rooms@[i - 1] == self.rooms@[i - 1]);
                                }
                                assert(before.dug_at(bends, i, x, y));
                            }
                        }
                    }
                    bends = longer;
                }
            }
            k += 1;
        }
        proof {
            assert(candidates@.take(k as int) =~= candidates@);
        }
    }

    /// A map of 80 by 50 tiles with up to 30 rooms, placed at random and
    /// joined by corridors. Thirty candidates are drawn, each a room of
    /// random size and place and, by the toss of a coin, the bend of its
    /// corridor. They are then tried in turn: one that intersects an earlier
    /// room is dropped, and each room that stays is joined to the one
    /// before it.
    pub fn new_map_rooms_and_corridors() -> (map: TileMap)
        ensures
            map.generated(),
    {
        let mut rng = new_generator();
        let mut candidates: Vec<(Rect, bool)> = Vec::new();
        let mut tries: i32 = 0;
        while tries < MAX_ROOMS
            invariant
                0 <= tries <= MAX_ROOMS,
                candidates@.len() == tries,
                forall|i: int| 0 <= i < candidates@.len() ==> drawable((#[trigger] candidates@[i]).0),
            decreases MAX_ROOMS - tries,
        {
            let w: i32 = range(&mut rng, MIN_SIZE, MAX_SIZE);
            let h: i32 = range(&mut rng, MIN_SIZE, MAX_SIZE);
            let x: i32 = roll_dice(&mut rng, 1, MAP_WIDTH - w - 1) - 1;
            let y: i32 = roll_dice(&mut rng, 1, MAP_HEIGHT - h - 1) - 1;
            let new_room = Rect::new(x, y, w, h);
            let horizontal_first: bool = range(&mut rng, 0, 2) == 1;
            candidates.push((new_room, horizontal_first));
            tries = tries + 1;
        }
        let mut map = TileMap::new(MAP_WIDTH, MAP_HEIGHT);
        proof {
            assert forall|x: int, y: int| map.in_bounds(x, y) implies #[trigger] map.tile_at(x, y) == TileType::Wall by {
                lemma_index_in_range(map.width as int, map.height as int, x, y);
            }
            assert(map.floored(Seq::<bool>::empty()));
            assert(map.built());
            assert(map.layout().tiles =~= Layout::blank(MAP_WIDTH as int, MAP_HEIGHT as int).tiles);
            assert(map.layout().rooms =~= Layout::blank(MAP_WIDTH as int, MAP_HEIGHT as int).rooms);
            assert forall|i: int| 0 <= i < candidates@.len() implies map.fits((#[trigger] candidates@[i]).0) by {
                assert(drawable(candidates@[i].0));
            }
        }
        map.add_rooms(&candidates);
        proof {
            assert(map.laid_from(candidates@));
            assert forall|i: int| 0 <= i < map.rooms@.len() implies drawable(#[trigger] map.rooms@[i]) by {
                let c = choose|c: int| 0 <= c < candidates@.len() && (#[trigger] candidates@[c]).0 == map.rooms@[i];
                assert(drawable(candidates@[c].0));
            }
        }
        map
    }

    /// Whether `other` differs from this map in its blocked flags at most.
    pub open spec fn same_but_blocked(&self, other: &TileMap) -> bool {
        &&& self.tiles == other.tiles
        &&& self.rooms == other.rooms
        &&& self.width == other.width
        &&& self.height == other.height
        &&& self.revealed_tiles == other.revealed_tiles
        &&& self.visible_tiles == other.visible_tiles
        &&& self.tile_content == other.tile_content
        &&& self.blocked@.len() == other.blocked@.len()
    }

    /// Whether `other` differs from this map in its occupant lists at most.
    pub open spec fn same_but_content(&self, other: &TileMap) -> bool {
        &&& self.tiles == other.tiles
        &&& self.rooms == other.rooms
        &&& self.width == other.width
        &&& self.height == other.height
        &&& self.revealed_tiles == other.revealed_tiles
        &&& self.visible_tiles == other.visible_tiles
        &&& self.blocked == other.blocked
        &&& self.tile_content@.len() == other.tile_content@.len()
    }

    /// Whether one may step onto `(x, y)`: the tile is off the first row and
    /// the first column, on the map, and not blocked.
    pub open spec fn exit_valid(&self, x: int, y: int) -> bool {
        1 <= x <= self.width - 1 && 1 <= y <= self.height - 1 && !self.blocked@[self.idx(x, y)]
    }

    /// Whether one may step onto `(x, y)`.
    fn is_exit_valid(&self, x: i32, y: i32) -> (ok: bool)
        requires
            self.wf(),
        ensures
            ok == self.exit_valid(x as int, y as int),
    {
        if x < 1 || x > self.width - 1 || y < 1 || y > self.height - 1 {
            return false;
        }
        proof {
            self.lemma_size_bounded();
            lemma_index_in_range(self.width as int, self.height as int, x as int, y as int);
        }
        let idx: usize = self.xy_idx(x, y);
        !self.blocked[idx]
    }

    /// Marks every wall as blocked and every other tile as free.
    pub fn populate_blocked(&mut self)
        requires
            old(self).wf(),
        ensures
            final(self).wf(),
            final(self).same_but_blocked(old(self)),
            forall|i: int|
                0 <= i < old(self).size() ==> final(self).blocked@[i] == (old(self).tiles@[i] == TileType::Wall),
    {
        let ghost before = *self;
        let mut i: usize = 0;
        while i < self.tiles.len()
            invariant
                before.wf(),
                self.same_but_blocked(&before),
                i <= self.tiles@.len(),
                forall|j: int| 0 <= j < i ==> self.blocked@[j] == (self.tiles@[j] == TileType::Wall),
            decreases self.tiles@.len() - i,
        {
            let wall: bool = self.tiles[i] == TileType::Wall;
            self.blocked[i] = wall;
            i += 1;
        }
    }

    /// Empties the occupant list of every tile.
    pub fn clear_content_index(&mut self)
        requires
            old(self).wf(),
        ensures
            final(self).wf(),
            final(self).same_but_content(old(self)),
            forall|i: int| 0 <= i < old(self).size() ==> (#[trigger] final(self).tile_content@[i])@.len() == 0,
    {
        let ghost before = *self;
        let mut i: usize = 0;
        while i < self.tile_content.len()
            invariant
                before.wf(),
                self.same_but_content(&before),
                i <= self.tile_content@.len(),
                forall|j: int| 0 <= j < i ==> (#[trigger] self.tile_content@[j])@.len() == 0,
            decreases self.tile_content@.len() - i,
        {
            self.tile_content[i].clear();
            i += 1;
        }
    }

    /// The tile coordinates of index `idx`.
    pub open spec fn point_at(&self, idx: int) -> Coord {
        Coord { x: (idx % (self.width as int)) as i32, y: (idx / (self.width as int)) as i32 }
    }

    /// An index of the map and its coordinates determine one another.
    pub proof fn lemma_point_at(&self, idx: int)
        requires
            self.wf(),
            0 <= idx < self.size(),
        ensures
            self.in_bounds(self.point_at(idx).x as int, self.point_at(idx).y as int),
            self.idx(self.point_at(idx).x as int, self.point_at(idx).y as int) == idx,
            self.point_at(idx).x == idx % (self.width as int),
            self.point_at(idx).y == idx / (self.width as int),
    {
        let w = self.width as int;
        let h = self.height as int;
        vstd::arithmetic::div_mod::lemma_fundamental_div_mod(idx, w);
        vstd::arithmetic::div_mod::lemma_mod_pos_bound(idx, w);
        vstd::arithmetic::div_mod::lemma_div_pos_is_pos(idx, w);
        let q = idx / w;
        let r = idx % w;
        assert(w * q == q * w) by (nonlinear_arith);
        if q >= h {
            assert(q * w >= h * w) by (nonlinear_arith)
                requires
                    q >= h,
                    w > 0,
            ;
            assert(h * w == w * h) by (nonlinear_arith);
        }
    }

    /// The tile coordinates of index `idx`.
    pub fn index_to_point(&self, idx: usize) -> (p: Coord)
        requires
            self.wf(),
            idx < self.size(),
        ensures
            p == self.point_at(idx as int),
            self.in_bounds(p.x as int, p.y as int),
            self.idx(p.x as int, p.y as int) == idx,
    {
        proof {
            self.lemma_size_bounded();
            self.lemma_point_at(idx as int);
        }
        let i: i32 = idx as i32;
        Coord { x: i % self.width, y: i / self.width }
    }

    /// The square of the straight-line distance between the tiles of
    /// indices `idx1` and `idx2`.
    pub open spec fn distance_squared(&self, idx1: int, idx2: int) -> int {
        let a = self.point_at(idx1);
        let b = self.point_at(idx2);
        (a.x - b.x) * (a.x - b.x) + (a.y - b.y) * (a.y - b.y)
    }

    /// The square of the straight-line distance between two tiles, given by
    /// their indices.
    pub fn pathing_distance_squared(&self, idx1: usize, idx2: usize) -> (d: i64)
        requires
            self.wf(),
            idx1 < self.size(),
            idx2 < self.size(),
        ensures
            d == self.distance_squared(idx1 as int, idx2 as int),
    {
        let a = self.index_to_point(idx1);
        let b = self.index_to_point(idx2);
        let dx: i64 = a.x as i64 - b.x as i64;
        let dy: i64 = a.y as i64 - b.y as i64;
        assert(-32768 < dx < 32768 && -32768 < dy < 32768);
        assert(0 <= dx * dx <= 32768 * 32768) by (nonlinear_arith)
            requires
                -32768 < dx < 32768,
        ;
        assert(0 <= dy * dy <= 32768 * 32768) by (nonlinear_arith)
            requires
                -32768 < dy < 32768,
        ;
        dx * dx + dy * dy
    }

    /// The step onto `(x, y)` at the given cost, if one may step there.
    pub open spec fn exit_if(&self, x: int, y: int, cost: u32) -> Seq<(usize, u32)> {
        if self.exit_valid(x, y) {
            seq![(self.idx(x, y) as usize, cost)]
        } else {
            Seq::empty()
        }
    }

    /// The steps one may take from the tile of index `idx`, each with the
    /// index it leads to and its cost in hundredths: the four neighbours
    /// along the axes at `STRAIGHT_COST`, west, east, north, south, then the
    /// four diagonal ones at `DIAGONAL_COST`, north-west, north-east,
    /// south-west, south-east. A neighbour that one may not step onto is
    /// left out. Only the neighbour itself is looked at, not the tiles a
    /// diagonal step passes between.
    pub open spec fn exits(&self, idx: int) -> Seq<(usize, u32)> {
        let x = self.point_at(idx).x as int;
        let y = self.point_at(idx).y as int;
        self.exit_if(x - 1, y, STRAIGHT_COST) + self.exit_if(x + 1, y, STRAIGHT_COST) + self.exit_if(
            x,
            y - 1,
            STRAIGHT_COST,
        ) + self.exit_if(x, y + 1, STRAIGHT_COST) + self.exit_if(x - 1, y - 1, DIAGONAL_COST) + self.exit_if(
            x + 1,
            y - 1,
            DIAGONAL_COST,
        ) + self.exit_if(x - 1, y + 1, DIAGONAL_COST) + self.exit_if(x + 1, y + 1, DIAGONAL_COST)
    }

    /// Adds the step onto `(x, y)` to `exits` if one may step there.
    fn push_exit(&self, exits: &mut Vec<(usize, u32)>, x: i32, y: i32, cost: u32)
        requires
            self.wf(),
        ensures
            final(exits)@ == old(exits)@ + self.exit_if(x as int, y as int, cost),
    {
        if self.is_exit_valid(x, y) {
            proof {
                self.lemma_size_bounded();
                lemma_index_in_range(self.width as int, self.height as int, x as int, y as int);
            }
            let target: usize = self.xy_idx(x, y);
            exits.push((target, cost));
            assert(exits@ =~= old(exits)@ + self.exit_if(x as int, y as int, cost));
        } else {
            assert(exits@ =~= old(exits)@ + self.exit_if(x as int, y as int, cost));
        }
    }

    /// The steps one may take from the tile of index `idx`; none from an
    /// index that is not on the map.
    pub fn get_available_exits(&self, idx: usize) -> (exits: Vec<(usize, u32)>)
        requires
            self.wf(),
        ensures
            idx < self.size() ==> exits@ == self.exits(idx as int),
            idx >= self.size() ==> exits@.len() == 0,
    {
        let mut exits: Vec<(usize, u32)> = Vec::new();
        if idx >= self.tiles.len() {
            return exits;
        }
        let p = self.index_to_point(idx);
        let x: i32 = p.x;
        let y: i32 = p.y;
        assert(exits@ =~= Seq::empty());

        self.push_exit(&mut exits, x - 1, y, STRAIGHT_COST);
        self.push_exit(&mut exits, x + 1, y, STRAIGHT_COST);
        self.push_exit(&mut exits, x, y - 1, STRAIGHT_COST);
        self.push_exit(&mut exits, x, y + 1, STRAIGHT_COST);

        self.push_exit(&mut exits, x - 1, y - 1, DIAGONAL_COST);
        self.push_exit(&mut exits, x + 1, y - 1, DIAGONAL_COST);
        self.push_exit(&mut exits, x - 1, y + 1, DIAGONAL_COST);
        self.push_exit(&mut exits, x + 1, y + 1, DIAGONAL_COST);

        assert(exits@ =~= self.exits(idx as int));
        exits
    }

    /// Whether `other` differs from this map at most in what has been seen
    /// and what is seen now.
    pub open spec fn same_but_sight(&self, other: &TileMap) -> bool {
        &&& self.tiles == other.tiles
        &&& self.rooms == other.rooms
        &&& self.width == other.width
        &&& self.height == other.height
        &&& self.blocked == other.blocked
        &&& self.tile_content == other.tile_content
        &&& self.revealed_tiles@.len() == other.revealed_tiles@.len()
        &&& self.visible_tiles@.len() == other.visible_tiles@.len()
    }

    /// Whether the tile at `(x, y)` has ever been seen.
    pub open spec fn revealed_at(&self, x: int, y: int) -> bool {
        self.revealed_tiles@[self.idx(x, y)]
    }

    /// Whether the tile at `(x, y)` is seen now.
    pub open spec fn visible_at(&self, x: int, y: int) -> bool {
        self.visible_tiles@[self.idx(x, y)]
    }

    /// Makes `tiles` the tiles that are seen now: no other tile is visible
    /// afterwards, and each of them also counts as seen from now on.
    pub fn show(&mut self, tiles: &Vec<Coord>)
        requires
            old(self).wf(),
            forall|i: int| 0 <= i < tiles@.len() ==> old(self).in_bounds(#[trigger] tiles@[i].x as int, tiles@[i].y as int),
        ensures
            final(self).wf(),
            final(self).same_but_sight(old(self)),
            forall|x: int, y: int|
                old(self).in_bounds(x, y) ==> #[trigger] final(self).visible_at(x, y) == tiles@.contains(
                    Coord { x: x as i32, y: y as i32 },
                ),
            forall|x: int, y: int|
                old(self).in_bounds(x, y) ==> #[trigger] final(self).revealed_at(x, y) == (old(self).revealed_at(x, y)
                    || tiles@.contains(Coord { x: x as i32, y: y as i32 })),
            forall|i: int| 0 <= i < old(self).size() && old(self).revealed_tiles@[i] ==> final(self).revealed_tiles@[i],
    {
        let ghost before = *self;
        let mut i: usize = 0;
        while i < self.visible_tiles.len()
            invariant
                before.wf(),
                self.same_but_sight(&before),
                self.revealed_tiles == before.revealed_tiles,
                i <= self.visible_tiles@.len(),
                forall|j: int| 0 <= j < i ==> !self.visible_tiles@[j],
            decreases self.visible_tiles@.len() - i,
        {
            self.visible_tiles[i] = false;
            i += 1;
        }
        proof {
            assert forall|x: int, y: int| before.in_bounds(x, y) implies !#[trigger] self.visible_at(x, y) by {
                lemma_index_in_range(self.width as int, self.height as int, x, y);
            }
            assert(tiles@.take(0) =~= Seq::<Coord>::empty());
        }
        let mut k: usize = 0;
        while k < tiles.len()
            invariant
                before.wf(),
                self.same_but_sight(&before),
                k <= tiles@.len(),
                forall|i: int| 0 <= i < tiles@.len() ==> before.in_bounds(#[trigger] tiles@[i].x as int, tiles@[i].y as int),
                forall|i: int| 0 <= i < before.size() && before.revealed_tiles@[i] ==> self.revealed_tiles@[i],
                forall|x: int, y: int|
                    before.in_bounds(x, y) ==> #[trigger] self.visible_at(x, y) == tiles@.take(k as int).contains(
                        Coord { x: x as i32, y: y as i32 },
                    ),
                forall|x: int, y: int|
                    before.in_bounds(x, y) ==> #[trigger] self.revealed_at(x, y) == (before.revealed_at(x, y)
                        || tiles@.take(k as int).contains(Coord { x: x as i32, y: y as i32 })),
            decreases tiles@.len() - k,
        {
            let tile = tiles[k];
            proof {
                self.lemma_size_bounded();
                assert(before.in_bounds(tiles@[k as int].x as int, tiles@[k as int].y as int));
                lemma_index_in_range(self.width as int, self.height as int, tile.x as int, tile.y as int);
            }
            let idx: usize = self.xy_idx(tile.x, tile.y);
            let ghost earlier = *self;
            self.revealed_tiles[idx] = true;
            self.visible_tiles[idx] = true;
            proof {
                let so_far = tiles@.take(k as int);
                assert(tiles@.take(k + 1) =~= so_far.push(tile));
                assert forall|x: int, y: int| before.in_bounds(x, y) implies #[trigger] self.visible_at(x, y)
                    == so_far.push(tile).contains(Coord { x: x as i32, y: y as i32 }) by {
                    let c = Coord { x: x as i32, y: y as i32 };
                    vstd::seq_lib::lemma_seq_contains_after_push(so_far, tile, c);
                    lemma_index_in_range(self.width as int, self.height as int, x, y);
                    if self.idx(x, y) == idx as int {
                        lemma_index_injective(self.width as int, x, y, tile.x as int, tile.y as int);
                    } else {
                        assert(self.visible_at(x, y) == earlier.visible_at(x, y));
                    }
                }
                assert forall|x: int, y: int| before.in_bounds(x, y) implies #[trigger] self.revealed_at(x, y) == (
                before.revealed_at(x, y) || so_far.push(tile).contains(Coord { x: x as i32, y: y as i32 })) by {
                    let c = Coord { x: x as i32, y: y as i32 };
                    vstd::seq_lib::lemma_seq_contains_after_push(so_far, tile, c);
                    lemma_index_in_range(self.width as int, self.height as int, x, y);
                    if self.idx(x, y) == idx as int {
                        lemma_index_injective(self.width as int, x, y, tile.x as int, tile.y as int);
                    } else {
                        assert(self.revealed_at(x, y) == earlier.revealed_at(x, y));
                    }
                }
            }
            k += 1;
        }
        proof {
            assert(tiles@.take(k as int) =~= tiles@);
        }
    }

    /// Whether `(tx, ty)` is a neighbour of `(x, y)`, diagonal ones
    /// included, that one may step onto, and `cost` what the step costs.
    pub open spec fn open_neighbour(&self, x: int, y: int, tx: int, ty: int, cost: u32) -> bool {
        &&& -1 <= tx - x <= 1
        &&& -1 <= ty - y <= 1
        &&& (tx, ty) != (x, y)
        &&& self.in_bounds(tx, ty)
        &&& !self.blocked@[self.idx(tx, ty)]
        &&& cost == if tx == x || ty == y {
            STRAIGHT_COST
        } else {
            DIAGONAL_COST
        }
    }

    /// Every step that `exits` offers from a tile leads to a neighbour of
    /// that tile, diagonal ones included, that lies on the map and is not
    /// blocked; it costs `STRAIGHT_COST` along an axis and `DIAGONAL_COST`
    /// otherwise.
    pub proof fn lemma_exits_are_open_neighbours(&self, idx: int, k: int)
        requires
            self.wf(),
            0 <= idx < self.size(),
            0 <= k < self.exits(idx).len(),
        ensures
            self.exits(idx)[k].0 < self.size(),
            self.open_neighbour(
                self.point_at(idx).x as int,
                self.point_at(idx).y as int,
                self.point_at(self.exits(idx)[k].0 as int).x as int,
                self.point_at(self.exits(idx)[k].0 as int).y as int,
                self.exits(idx)[k].1,
            ),
    {
        let x = self.point_at(idx).x as int;
        let y = self.point_at(idx).y as int;
        self.lemma_point_at(idx);
        self.lemma_size_bounded();
        let a = self.exit_if(x - 1, y, STRAIGHT_COST);
        let b = self.exit_if(x + 1, y, STRAIGHT_COST);
        let c = self.exit_if(x, y - 1, STRAIGHT_COST);
        let d = self.exit_if(x, y + 1, STRAIGHT_COST);
        let e = self.exit_if(x - 1, y - 1, DIAGONAL_COST);
        let f = self.exit_if(x + 1, y - 1, DIAGONAL_COST);
        let g = self.exit_if(x - 1, y + 1, DIAGONAL_COST);
        let h = self.exit_if(x + 1, y + 1, DIAGONAL_COST);
        assert(self.exits(idx) == a + b + c + d + e + f + g + h);
        let found = self.exits(idx)[k];
        let (tx, ty): (int, int) = if k < a.len() {
            (x - 1, y)
        } else if k < (a + b).len() {
            (x + 1, y)
        } else if k < (a + b + c).len() {
            (x, y - 1)
        } else if k < (a + b + c + d).len() {
            (x, y + 1)
        } else if k < (a + b + c + d + e).len() {
            (x - 1, y - 1)
        } else if k < (a + b + c + d + e + f).len() {
            (x + 1, y - 1)
        } else if k < (a + b + c + d + e + f + g).len() {
            (x - 1, y + 1)
        } else {
            (x + 1, y + 1)
        };
        assert(self.exit_valid(tx, ty));
        lemma_index_in_range(self.width as int, self.height as int, tx, ty);
        assert(found == (self.idx(tx, ty) as usize, found.1));
        self.lemma_point_at(self.idx(tx, ty));
        lemma_index_injective(
            self.width as int,
            self.point_at(self.idx(tx, ty)).x as int,
            self.point_at(self.idx(tx, ty)).y as int,
            tx,
            ty,
        );
    }

    /// Which tiles stop sight, one flag per tile.
    pub open spec fn walls(&self) -> Seq<bool> {
        Seq::new(self.tiles@.len(), |i: int| self.tiles@[i] == TileType::Wall)
    }

    /// The tiles seen from `start` within `range`.
    pub open spec fn seen_from(&self, start: Coord, range: i32) -> Set<Coord> {
        visible_set(start.x as int, start.y as int, range as int, self.width as int, self.height as int, self.walls())
    }
}

/// Cost, in hundredths, of a step along an axis.
pub const STRAIGHT_COST: u32 = 100;

/// Cost, in hundredths, of a diagonal step.
pub const DIAGONAL_COST: u32 = 145;

/// The widest range of sight. Up to it the arithmetic of the field of view
/// stays within `i32`: it squares twice the range.
pub const MAX_VIEW_RANGE: i32 = 23170;

/// How far a sight of the given range reaches along an axis.
pub open spec fn reach(range: int) -> int {
    if range < 0 {
        -range
    } else {
        range
    }
}

#[verifier::external_type_specification]
#[verifier::external_body]
pub struct ExPoint(rltk::Point);

impl rltk::BaseMap for TileMap {
    /// Walls stop sight; so does anything off the map.
    fn is_opaque(&self, idx: usize) -> (opaque: bool)
        ensures
            opaque == (idx >= self.tiles@.len() || self.tiles@[idx as int] == TileType::Wall),
    {
        idx >= self.tiles.len() || self.tiles[idx] == TileType::Wall
    }
}

/// The point that `rltk::Point::new` makes of the coordinates `x` and `y`.
pub uninterp spec fn point_with(x: i32, y: i32) -> rltk::Point;

/// `rltk::Point::new` on two `i32`: the point with these coordinates.
#[verifier::external_body]
fn new_point(x: i32, y: i32) -> (point: rltk::Point)
    ensures
        point == point_with(x, y),
{
    rltk::Point::new(x, y)
}

impl rltk::Algorithm2D for TileMap {
    /// The size of the map: the point whose coordinates are the width and
    /// the height.
    fn dimensions(&self) -> (size: rltk::Point)
        ensures
            size == point_with(self.width, self.height),
    {
        new_point(self.width, self.height)
    }
}

/// The set of tiles that `rltk::field_of_view` finds visible from `(x, y)`
/// within `range` on a map of the given width and height, where `opaque`
/// tells for each tile index whether the tile stops sight.
pub uninterp spec fn visible_set(x: int, y: int, range: int, width: int, height: int, opaque: Seq<bool>) -> Set<Coord>;

/// `rltk::field_of_view` on the map from `start`: the visible tiles, in no
/// particular order and each once. None lies further from `start` along an
/// axis than the range.
#[verifier::external_body]
pub(crate) fn field_of_view(start: Coord, range: i32, map: &TileMap) -> (tiles: Vec<Coord>)
    requires
        map.wf(),
        map.in_bounds(start.x as int, start.y as int),
        -MAX_VIEW_RANGE <= range <= MAX_VIEW_RANGE,
    ensures
        tiles@.to_set() == visible_set(
            start.x as int,
            start.y as int,
            range as int,
            map.width as int,
            map.height as int,
            map.walls(),
        ),
        tiles@.no_duplicates(),
        forall|i: int|
            0 <= i < tiles@.len() ==> {
                &&& -reach(range as int) <= (#[trigger] tiles@[i]).x - start.x <= reach(range as int)
                &&& -reach(range as int) <= tiles@[i].y - start.y <= reach(range as int)
            },
{
    rltk::field_of_view(rltk::Point::new(start.x, start.y), range, map).into_iter().map(
        |p| Coord { x: p.x, y: p.y },
    ).collect()
}

} // verus!
