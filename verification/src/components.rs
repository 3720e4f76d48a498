//! The component types that can be attached to an entity.

use vstd::prelude::*;

verus! {

/// A tile coordinate.
#[derive(Clone, Copy, Debug, PartialEq, Eq, Hash, Structural)]
pub struct Coord {
    pub x: i32,
    pub y: i32,
}

/// Where an entity stands on the map.
#[derive(Clone, Copy, Debug, PartialEq, Eq, Structural)]
pub struct Position {
    pub x: i32,
    pub y: i32,
}

/// How an entity is drawn: a glyph of the code page, and foreground and
/// background colours as red, green and blue.
#[derive(Clone, Copy, Debug, PartialEq, Eq)]
pub struct Renderable {
    pub glyph: u16,
    pub fg: (u8, u8, u8),
    pub bg: (u8, u8, u8),
}

/// Marks the entity that the player controls.
#[derive(Clone, Copy, Debug, PartialEq, Eq, Structural)]
pub struct Player {}

/// The tiles an entity currently sees, how far it sees, and whether the
/// tiles must be computed afresh.
#[derive(Clone, Debug)]
pub struct Viewshed {
    pub visible_tiles: Vec<Coord>,
    pub range: i32,
    pub dirty: bool,
}

/// Marks an entity that acts on the monsters' turn.
#[derive(Clone, Copy, Debug, PartialEq, Eq, Structural)]
pub struct Monster {}

/// What an entity is called.
#[derive(Clone, Debug)]
pub struct Name {
    pub name: String,
}

/// Marks an entity that keeps others out of the tile it stands on.
#[derive(Clone, Copy, Debug, PartialEq, Eq, Structural)]
pub struct BlocksTile {}

/// Fighting strength and health.
#[derive(Clone, Copy, Debug, PartialEq, Eq, Structural)]
pub struct CombatStats {
    pub max_hp: i32,
    pub hp: i32,
    pub defense: i32,
    pub power: i32,
}

/// The wish to strike `target` this turn.
#[derive(Clone, Copy, Debug)]
pub struct WantsToMelee {
    pub target: specs::Entity,
}

/// Damage dealt to an entity this turn and not yet taken from its health,
/// one amount per blow.
#[derive(Clone, Debug)]
pub struct SufferDamage {
    pub amount: Vec<i32>,
}

/// A `Viewshed` as a mathematical value.
pub struct ViewshedView {
    pub visible_tiles: Seq<Coord>,
    pub range: i32,
    pub dirty: bool,
}

impl View for Position {
    type V = Position;

    open spec fn view(&self) -> Position {
        *self
    }
}

impl View for Renderable {
    type V = Renderable;

    open spec fn view(&self) -> Renderable {
        *self
    }
}

impl View for Player {
    type V = Player;

    open spec fn view(&self) -> Player {
        *self
    }
}

impl View for Viewshed {
    type V = ViewshedView;

    open spec fn view(&self) -> ViewshedView {
        ViewshedView { visible_tiles: self.visible_tiles@, range: self.range, dirty: self.dirty }
    }
}

impl View for Monster {
    type V = Monster;

    open spec fn view(&self) -> Monster {
        *self
    }
}

impl View for Name {
    type V = Seq<char>;

    open spec fn view(&self) -> Seq<char> {
        self.name@
    }
}

impl View for BlocksTile {
    type V = BlocksTile;

    open spec fn view(&self) -> BlocksTile {
        *self
    }
}

impl View for CombatStats {
    type V = CombatStats;

    open spec fn view(&self) -> CombatStats {
        *self
    }
}

impl View for WantsToMelee {
    type V = WantsToMelee;

    open spec fn view(&self) -> WantsToMelee {
        *self
    }
}

impl View for SufferDamage {
    type V = Seq<i32>;

    open spec fn view(&self) -> Seq<i32> {
        self.amount@
    }
}

impl specs::Component for Position {
    type Storage = specs::DenseVecStorage<Position>;
}

impl specs::Component for Renderable {
    type Storage = specs::DenseVecStorage<Renderable>;
}

impl specs::Component for Player {
    type Storage = specs::DenseVecStorage<Player>;
}

impl specs::Component for Viewshed {
    type Storage = specs::DenseVecStorage<Viewshed>;
}

impl specs::Component for Monster {
    type Storage = specs::DenseVecStorage<Monster>;
}

impl specs::Component for Name {
    type Storage = specs::DenseVecStorage<Name>;
}

impl specs::Component for BlocksTile {
    type Storage = specs::DenseVecStorage<BlocksTile>;
}

impl specs::Component for CombatStats {
    type Storage = specs::DenseVecStorage<CombatStats>;
}

impl specs::Component for WantsToMelee {
    type Storage = specs::DenseVecStorage<WantsToMelee>;
}

impl specs::Component for SufferDamage {
    type Storage = specs::DenseVecStorage<SufferDamage>;
}

/// The glyph that `rltk::to_cp437` gives for a character.
pub uninterp spec fn glyph_of(c: char) -> u16;

/// `rltk::to_cp437`: the glyph of code page 437 that shows the character.
#[verifier::external_body]
pub(crate) fn to_cp437(c: char) -> (glyph: u16)
    ensures
        glyph == glyph_of(c),
{
    rltk::to_cp437(c)
}

} // verus!
