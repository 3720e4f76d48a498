//! The entity-component world. Entities and component tables are kept by a
//! `specs::World`; this module names what such a world holds and gives the
//! few operations the systems need a contract.

use vstd::prelude::*;
use specs::{Join, WorldExt};
use crate::components::{
    BlocksTile, CombatStats, Monster, Name, Player, Position, Renderable, SufferDamage, Viewshed,
    ViewshedView, WantsToMelee,
};

verus! {

#[verifier::external_type_specification]
#[verifier::external_body]
pub struct ExWorld(specs::World);

#[verifier::external_type_specification]
#[verifier::external_body]
pub struct ExEntity(specs::Entity);

#[verifier::external_type_specification]
#[verifier::external_body]
#[verifier::reject_recursive_types(T)]
pub struct ExDenseVecStorage<T>(specs::DenseVecStorage<T>);

/// What a world holds: its living entities in the order in which a walk over
/// them visits them, the entities whose removal is queued, and one table per
/// component type.
pub struct Store {
    pub roster: Seq<specs::Entity>,
    pub doomed: Set<specs::Entity>,
    pub positions: Map<specs::Entity, Position>,
    pub renderables: Map<specs::Entity, Renderable>,
    pub players: Map<specs::Entity, Player>,
    pub viewsheds: Map<specs::Entity, ViewshedView>,
    pub monsters: Map<specs::Entity, Monster>,
    pub names: Map<specs::Entity, Seq<char>>,
    pub blockers: Map<specs::Entity, BlocksTile>,
    pub combat_stats: Map<specs::Entity, CombatStats>,
    pub wants_to_melee: Map<specs::Entity, WantsToMelee>,
    pub suffer_damage: Map<specs::Entity, Seq<i32>>,
}

impl Store {
    /// A world without entities.
    pub open spec fn empty() -> Store {
        Store {
            roster: Seq::empty(),
            doomed: Set::empty(),
            positions: Map::empty(),
            renderables: Map::empty(),
            players: Map::empty(),
            viewsheds: Map::empty(),
            monsters: Map::empty(),
            names: Map::empty(),
            blockers: Map::empty(),
            combat_stats: Map::empty(),
            wants_to_melee: Map::empty(),
            suffer_damage: Map::empty(),
        }
    }

    /// Whether `e` is a living entity.
    pub open spec fn has(self, e: specs::Entity) -> bool {
        self.roster.contains(e)
    }

    /// No entity is listed twice, and only living entities are queued for
    /// removal or carry components.
    pub open spec fn wf(self) -> bool {
        &&& self.roster.no_duplicates()
        &&& forall|e: specs::Entity| #[trigger] self.doomed.contains(e) ==> self.has(e)
        &&& forall|e: specs::Entity| #[trigger] self.positions.dom().contains(e) ==> self.has(e)
        &&& forall|e: specs::Entity| #[trigger] self.renderables.dom().contains(e) ==> self.has(e)
        &&& forall|e: specs::Entity| #[trigger] self.players.dom().contains(e) ==> self.has(e)
        &&& forall|e: specs::Entity| #[trigger] self.viewsheds.dom().contains(e) ==> self.has(e)
        &&& forall|e: specs::Entity| #[trigger] self.monsters.dom().contains(e) ==> self.has(e)
        &&& forall|e: specs::Entity| #[trigger] self.names.dom().contains(e) ==> self.has(e)
        &&& forall|e: specs::Entity| #[trigger] self.blockers.dom().contains(e) ==> self.has(e)
        &&& forall|e: specs::Entity| #[trigger] self.combat_stats.dom().contains(e) ==> self.has(e)
        &&& forall|e: specs::Entity| #[trigger] self.wants_to_melee.dom().contains(e) ==> self.has(e)
        &&& forall|e: specs::Entity| #[trigger] self.suffer_damage.dom().contains(e) ==> self.has(e)
    }

    /// The same tables and queue around another list of entities.
    pub open spec fn with_roster(self, roster: Seq<specs::Entity>) -> Store {
        Store { roster, ..self }
    }

    /// The world after every queued removal has been carried out: the doomed
    /// entities are gone from the list and from every table, and the queue
    /// is empty.
    pub open spec fn purged(self) -> Store {
        Store {
            roster: self.roster.filter(|e: specs::Entity| !self.doomed.contains(e)),
            doomed: Set::empty(),
            positions: self.positions.remove_keys(self.doomed),
            renderables: self.renderables.remove_keys(self.doomed),
            players: self.players.remove_keys(self.doomed),
            viewsheds: self.viewsheds.remove_keys(self.doomed),
            monsters: self.monsters.remove_keys(self.doomed),
            names: self.names.remove_keys(self.doomed),
            blockers: self.blockers.remove_keys(self.doomed),
            combat_stats: self.combat_stats.remove_keys(self.doomed),
            wants_to_melee: self.wants_to_melee.remove_keys(self.doomed),
            suffer_damage: self.suffer_damage.remove_keys(self.doomed),
        }
    }
}

/// Keeping some items of a list without repeats leaves a list without
/// repeats.
pub proof fn lemma_filter_no_duplicates<A>(list: Seq<A>, keep: spec_fn(A) -> bool)
    requires
        list.no_duplicates(),
    ensures
        list.filter(keep).no_duplicates(),
    decreases list.len(),
{
    reveal(Seq::filter);
    if list.len() > 0 {
        let rest = list.drop_last();
        lemma_filter_no_duplicates(rest, keep);
        if keep(list.last()) {
            if rest.filter(keep).contains(list.last()) {
                rest.lemma_filter_contains_rev(keep, list.last());
                let i = choose|i: int| 0 <= i < rest.len() && rest[i] == list.last();
                assert(list[i] == list[list.len() - 1]);
            }
        }
    }
}

/// Carrying out the queued removals keeps a world well formed.
pub proof fn lemma_purged_wf(s: Store)
    requires
        s.wf(),
    ensures
        s.purged().wf(),
{
    let kept = |e: specs::Entity| !s.doomed.contains(e);
    lemma_filter_no_duplicates(s.roster, kept);
    assert forall|e: specs::Entity| s.has(e) && !s.doomed.contains(e) implies #[trigger] s.purged().has(e) by {
        let i = choose|i: int| 0 <= i < s.roster.len() && s.roster[i] == e;
        s.roster.lemma_filter_contains(kept, i);
    }
}

/// A component type and the table of a `Store` that holds its values.
pub trait Stored: View + Sized {
    /// The table of this component type.
    spec fn table(s: Store) -> Map<specs::Entity, Self::V>;

    /// `s` with the table of this component type replaced by `t`.
    spec fn with_table(s: Store, t: Map<specs::Entity, Self::V>) -> Store;
}

impl Stored for Position {
    open spec fn table(s: Store) -> Map<specs::Entity, Position> {
        s.positions
    }

    open spec fn with_table(s: Store, t: Map<specs::Entity, Position>) -> Store {
        Store { positions: t, ..s }
    }
}

impl Stored for Renderable {
    open spec fn table(s: Store) -> Map<specs::Entity, Renderable> {
        s.renderables
    }

    open spec fn with_table(s: Store, t: Map<specs::Entity, Renderable>) -> Store {
        Store { renderables: t, ..s }
    }
}

impl Stored for Player {
    open spec fn table(s: Store) -> Map<specs::Entity, Player> {
        s.players
    }

    open spec fn with_table(s: Store, t: Map<specs::Entity, Player>) -> Store {
        Store { players: t, ..s }
    }
}

impl Stored for Viewshed {
    open spec fn table(s: Store) -> Map<specs::Entity, ViewshedView> {
        s.viewsheds
    }

    open spec fn with_table(s: Store, t: Map<specs::Entity, ViewshedView>) -> Store {
        Store { viewsheds: t, ..s }
    }
}

impl Stored for Monster {
    open spec fn table(s: Store) -> Map<specs::Entity, Monster> {
        s.monsters
    }

    open spec fn with_table(s: Store, t: Map<specs::Entity, Monster>) -> Store {
        Store { monsters: t, ..s }
    }
}

impl Stored for Name {
    open spec fn table(s: Store) -> Map<specs::Entity, Seq<char>> {
        s.names
    }

    open spec fn with_table(s: Store, t: Map<specs::Entity, Seq<char>>) -> Store {
        Store { names: t, ..s }
    }
}

impl Stored for BlocksTile {
    open spec fn table(s: Store) -> Map<specs::Entity, BlocksTile> {
        s.blockers
    }

    open spec fn with_table(s: Store, t: Map<specs::Entity, BlocksTile>) -> Store {
        Store { blockers: t, ..s }
    }
}

impl Stored for CombatStats {
    open spec fn table(s: Store) -> Map<specs::Entity, CombatStats> {
        s.combat_stats
    }

    open spec fn with_table(s: Store, t: Map<specs::Entity, CombatStats>) -> Store {
        Store { combat_stats: t, ..s }
    }
}

impl Stored for WantsToMelee {
    open spec fn table(s: Store) -> Map<specs::Entity, WantsToMelee> {
        s.wants_to_melee
    }

    open spec fn with_table(s: Store, t: Map<specs::Entity, WantsToMelee>) -> Store {
        Store { wants_to_melee: t, ..s }
    }
}

impl Stored for SufferDamage {
    open spec fn table(s: Store) -> Map<specs::Entity, Seq<i32>> {
        s.suffer_damage
    }

    open spec fn with_table(s: Store, t: Map<specs::Entity, Seq<i32>>) -> Store {
        Store { suffer_damage: t, ..s }
    }
}

/// What the world `w` holds.
pub uninterp spec fn contents(w: specs::World) -> Store;

/// Whether `w` is a world of this library in working order: the ten
/// component types are registered with it, no deferred update and no
/// atomically allocated entity is pending in it, and it stores no component
/// for an entity it did not allocate.
pub uninterp spec fn intact(w: specs::World) -> bool;

/// A world in working order whose contents are well formed.
pub open spec fn ready(w: specs::World) -> bool {
    intact(w) && contents(w).wf()
}

/// `specs::World::new` followed by `register` for each of the ten component
/// types: an intact world that holds nothing.
#[verifier::external_body]
pub(crate) fn new_world() -> (world: specs::World)
    ensures
        intact(world),
        contents(world) == Store::empty(),
{
    let mut world = specs::World::new();
    world.register::<Position>();
    world.register::<Renderable>();
    world.register::<Player>();
    world.register::<Viewshed>();
    world.register::<Monster>();
    world.register::<Name>();
    world.register::<BlocksTile>();
    world.register::<CombatStats>();
    world.register::<WantsToMelee>();
    world.register::<SufferDamage>();
    world
}

/// `specs::World::create_entity` and `build`: a new living entity. It joins
/// the list somewhere; the tables and the queue stay as they were.
#[verifier::external_body]
pub(crate) fn spawn(world: &mut specs::World) -> (e: specs::Entity)
    requires
        ready(*old(world)),
    ensures
        intact(*final(world)),
        contents(*final(world)).wf(),
        !contents(*old(world)).has(e),
        contents(*final(world)).has(e),
        forall|x: specs::Entity| contents(*old(world)).has(x) ==> contents(*final(world)).has(x),
        forall|x: specs::Entity| contents(*final(world)).has(x) ==> x == e || contents(*old(world)).has(x),
        contents(*final(world)) == contents(*old(world)).with_roster(contents(*final(world)).roster),
{
    specs::Builder::build(world.create_entity())
}

/// `specs::world::EntitiesRes::delete`: queues the removal of a living
/// entity. The entity stays in the list, with its components, until the
/// next `maintain`.
#[verifier::external_body]
pub(crate) fn doom(world: &mut specs::World, e: specs::Entity)
    requires
        ready(*old(world)),
        contents(*old(world)).has(e),
    ensures
        intact(*final(world)),
        contents(*final(world)) == (Store {
            doomed: contents(*old(world)).doomed.insert(e),
            ..contents(*old(world))
        }),
{
    let _ = world.entities().delete(e);
}

/// `specs::World::maintain`: carries out every queued removal at once. The
/// doomed entities leave the list and lose all their components.
#[verifier::external_body]
pub(crate) fn maintain(world: &mut specs::World)
    requires
        ready(*old(world)),
    ensures
        intact(*final(world)),
        contents(*final(world)) == contents(*old(world)).purged(),
{
    world.maintain();
}

/// A walk over `specs::World::entities` with `join`: the living entities,
/// in the order in which every join over this world visits them.
#[verifier::external_body]
pub(crate) fn roster(world: &specs::World) -> (list: Vec<specs::Entity>)
    requires
        ready(*world),
    ensures
        list@ == contents(*world).roster,
{
    (&world.entities()).join().collect()
}

/// `specs::Storage::get` on the storage of `T`, cloned: the component of
/// type `T` that `e` carries, if it carries one.
#[verifier::external_body]
pub(crate) fn fetch<T: Stored + specs::Component + Clone>(world: &specs::World, e: specs::Entity) -> (found: Option<T>)
    requires
        ready(*world),
    ensures
        found.is_some() == T::table(contents(*world)).dom().contains(e),
        found.is_some() ==> found.unwrap()@ == T::table(contents(*world))[e],
{
    world.read_storage::<T>().get(e).cloned()
}

/// `specs::Storage::insert` on the storage of `T`: gives the living entity
/// `e` the component `value`, in place of one it may have had.
#[verifier::external_body]
pub(crate) fn attach<T: Stored + specs::Component>(world: &mut specs::World, e: specs::Entity, value: T)
    requires
        ready(*old(world)),
        contents(*old(world)).has(e),
    ensures
        intact(*final(world)),
        contents(*final(world)) == T::with_table(
            contents(*old(world)),
            T::table(contents(*old(world))).insert(e, value@),
        ),
{
    let _ = world.write_storage::<T>().insert(e, value);
}

/// `specs::Storage::clear` on the storage of `T`: no entity carries a
/// component of type `T` any more.
#[verifier::external_body]
pub(crate) fn clear<T: Stored + specs::Component>(world: &mut specs::World)
    requires
        ready(*old(world)),
    ensures
        intact(*final(world)),
        contents(*final(world)) == T::with_table(contents(*old(world)), Map::empty()),
{
    world.write_storage::<T>().clear();
}

} // verus!
