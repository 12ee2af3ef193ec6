use crate::components::{Player, Position, Renderable, Viewshed, ViewshedView};
use specs::Builder;
use specs::Entity;
use specs::Join;
use specs::World;
use specs::WorldExt;
use vstd::prelude::*;

verus! {

#[verifier::external_type_specification]
#[verifier::external_body]
pub struct ExWorld(World);

#[verifier::external_type_specification]
#[verifier::external_body]
pub struct ExEntity(Entity);

/// One entity of a world together with the components it holds.
#[derive(Debug)]
pub struct EntityRecord {
    pub entity: Entity,
    pub position: Option<Position>,
    pub renderable: Option<Renderable>,
    pub player: Option<Player>,
    pub viewshed: Option<Viewshed>,
}

/// The mathematical value of an `EntityRecord`.
pub ghost struct RecordView {
    pub entity: Entity,
    pub position: Option<Position>,
    pub renderable: Option<Renderable>,
    pub player: bool,
    pub viewshed: Option<ViewshedView>,
}

impl View for EntityRecord {
    type V = RecordView;

    open spec fn view(&self) -> RecordView {
        RecordView {
            entity: self.entity,
            position: self.position,
            renderable: self.renderable,
            player: self.player.is_some(),
            viewshed: match self.viewshed {
                Some(v) => Some(v@),
                None => None,
            },
        }
    }
}

/// The entities of a world that are alive, each with the components that the
/// world's storages hold for it, in the order in which a join over the
/// world's entities gives them.
pub uninterp spec fn world_records(world: World) -> Seq<RecordView>;

/// The world is in the state in which this library keeps it: it has a
/// storage for each of the four component kinds; its entities were made one
/// after another through `create_entity` and none was ever deleted, so that
/// their ids count up from 0, none is free again, and the number of the
/// living is the id that the next entity gets; its storages hold nothing but
/// for a living entity; and nothing waits for its next `maintain`, neither
/// an entity made or deleted through `Entities` nor a lazy update.
pub uninterp spec fn world_ready(world: World) -> bool;

/// How many entities a world takes. The bit sets in which the outside code
/// keeps the living and the holders of each component list ids below this
/// number on every target, and refuse or pass over greater ones.
pub const MAX_ENTITIES: usize = 1_048_576;

/// No entity occurs twice.
pub open spec fn distinct_entities(records: Seq<RecordView>) -> bool {
    forall|i: int, j: int|
        0 <= i < j < records.len() ==> (#[trigger] records[i]).entity != (#[trigger] records[j]).entity
}

/// The entity is one of the records.
pub open spec fn has_entity(records: Seq<RecordView>, entity: Entity) -> bool {
    exists|i: int| 0 <= i < records.len() && (#[trigger] records[i]).entity == entity
}

/// The record of an entity that holds no component.
pub open spec fn bare(entity: Entity) -> RecordView {
    RecordView { entity, position: None, renderable: None, player: false, viewshed: None }
}

/// The records with the position of `entity` replaced.
pub open spec fn with_position(records: Seq<RecordView>, entity: Entity, position: Position) -> Seq<RecordView> {
    Seq::new(
        records.len(),
        |i: int|
            if records[i].entity == entity {
                RecordView { position: Some(position), ..records[i] }
            } else {
                records[i]
            },
    )
}

/// The records with the look of `entity` replaced.
pub open spec fn with_renderable(records: Seq<RecordView>, entity: Entity, renderable: Renderable) -> Seq<
    RecordView,
> {
    Seq::new(
        records.len(),
        |i: int|
            if records[i].entity == entity {
                RecordView { renderable: Some(renderable), ..records[i] }
            } else {
                records[i]
            },
    )
}

/// The records with `entity` marked as a player.
pub open spec fn with_player(records: Seq<RecordView>, entity: Entity) -> Seq<RecordView> {
    Seq::new(
        records.len(),
        |i: int|
            if records[i].entity == entity {
                RecordView { player: true, ..records[i] }
            } else {
                records[i]
            },
    )
}

/// The records with the viewshed of `entity` replaced.
pub open spec fn with_viewshed(records: Seq<RecordView>, entity: Entity, viewshed: ViewshedView) -> Seq<RecordView> {
    Seq::new(
        records.len(),
        |i: int|
            if records[i].entity == entity {
                RecordView { viewshed: Some(viewshed), ..records[i] }
            } else {
                records[i]
            },
    )
}

/// The records with the position of `entity` taken away.
pub open spec fn without_position(records: Seq<RecordView>, entity: Entity) -> Seq<RecordView> {
    Seq::new(
        records.len(),
        |i: int|
            if records[i].entity == entity {
                RecordView { position: None, ..records[i] }
            } else {
                records[i]
            },
    )
}

/// The records with the look of `entity` taken away.
pub open spec fn without_renderable(records: Seq<RecordView>, entity: Entity) -> Seq<RecordView> {
    Seq::new(
        records.len(),
        |i: int|
            if records[i].entity == entity {
                RecordView { renderable: None, ..records[i] }
            } else {
                records[i]
            },
    )
}

/// The records with `entity` no longer marked as a player.
pub open spec fn without_player(records: Seq<RecordView>, entity: Entity) -> Seq<RecordView> {
    Seq::new(
        records.len(),
        |i: int|
            if records[i].entity == entity {
                RecordView { player: false, ..records[i] }
            } else {
                records[i]
            },
    )
}

/// The records with the viewshed of `entity` taken away.
pub open spec fn without_viewshed(records: Seq<RecordView>, entity: Entity) -> Seq<RecordView> {
    Seq::new(
        records.len(),
        |i: int|
            if records[i].entity == entity {
                RecordView { viewshed: None, ..records[i] }
            } else {
                records[i]
            },
    )
}

/// The mathematical value of a viewshed that may be missing.
pub open spec fn view_of(viewshed: Option<Viewshed>) -> Option<ViewshedView> {
    match viewshed {
        Some(v) => Some(v@),
        None => None,
    }
}

/// The views of the records, one for one.
pub open spec fn views_of(records: Seq<EntityRecord>) -> Seq<RecordView> {
    Seq::new(records.len(), |i: int| records[i]@)
}

/// `specs::WorldExt::new`, then `specs::WorldExt::register` for each of the
/// four component kinds. The contract claims that the new world is ready and
/// has no entity.
#[verifier::external_body]
pub(crate) fn new_world() -> (world: World)
    ensures
        world_ready(world),
        world_records(world) == Seq::<RecordView>::empty(),
{
    let mut world = World::new();
    world.register::<Position>();
    world.register::<Renderable>();
    world.register::<Player>();
    world.register::<Viewshed>();
    world
}

/// `specs::WorldExt::create_entity` and `specs::Builder::build`. The contract
/// claims that the entity is none of those that were alive, that it holds no
/// component, and that the world's records are the old ones followed by the
/// record of the new entity: in a ready world the new entity gets the id
/// after the greatest, and a join gives the ids in rising order. The world
/// must hold fewer than `MAX_ENTITIES` entities, so that the new id is one
/// that its bit sets list.
#[verifier::external_body]
pub(crate) fn create_entity(world: &mut World) -> (entity: Entity)
    requires
        world_ready(*old(world)),
        world_records(*old(world)).len() < MAX_ENTITIES,
    ensures
        world_ready(*final(world)),
        !has_entity(world_records(*old(world)), entity),
        world_records(*final(world)) == world_records(*old(world)).push(bare(entity)),
{
    world.create_entity().build()
}

/// A join over `specs::WorldExt::entities`. The contract claims that the
/// result holds the entities of the world's records, in their order, and
/// none of them twice.
#[verifier::external_body]
pub(crate) fn living_entities(world: &World) -> (entities: Vec<Entity>)
    requires
        world_ready(*world),
    ensures
        entities.len() == world_records(*world).len(),
        forall|i: int| 0 <= i < entities.len() ==> entities[i] == (#[trigger] world_records(*world)[i]).entity,
        forall|i: int, j: int| 0 <= i < j < entities.len() ==> entities[i] != entities[j],
{
    (&world.entities()).join().collect()
}

/// `specs::Storage::get` on the position storage that
/// `specs::WorldExt::read_storage` gives. The contract claims that the result
/// is the position in the record of the entity, which must be alive.
#[verifier::external_body]
pub(crate) fn position_of(world: &World, entity: Entity) -> (position: Option<Position>)
    requires
        world_ready(*world),
        has_entity(world_records(*world), entity),
    ensures
        forall|i: int|
            0 <= i < world_records(*world).len() && (#[trigger] world_records(*world)[i]).entity == entity
                ==> position == world_records(*world)[i].position,
{
    world.read_storage::<Position>().get(entity).copied()
}

/// `specs::Storage::get` on the renderable storage that
/// `specs::WorldExt::read_storage` gives. The contract claims that the result
/// is the look in the record of the entity, which must be alive.
#[verifier::external_body]
pub(crate) fn renderable_of(world: &World, entity: Entity) -> (renderable: Option<Renderable>)
    requires
        world_ready(*world),
        has_entity(world_records(*world), entity),
    ensures
        forall|i: int|
            0 <= i < world_records(*world).len() && (#[trigger] world_records(*world)[i]).entity == entity
                ==> renderable == world_records(*world)[i].renderable,
{
    world.read_storage::<Renderable>().get(entity).copied()
}

/// `specs::Storage::get` on the player storage that
/// `specs::WorldExt::read_storage` gives. The contract claims that the result
/// is a marker exactly where the record of the entity, which must be alive,
/// says that it is a player.
#[verifier::external_body]
pub(crate) fn player_of(world: &World, entity: Entity) -> (player: Option<Player>)
    requires
        world_ready(*world),
        has_entity(world_records(*world), entity),
    ensures
        forall|i: int|
            0 <= i < world_records(*world).len() && (#[trigger] world_records(*world)[i]).entity == entity
                ==> player.is_some() == world_records(*world)[i].player,
{
    world.read_storage::<Player>().get(entity).copied()
}

/// `specs::Storage::get` on the viewshed storage that
/// `specs::WorldExt::read_storage` gives, the viewshed cloned. The contract
/// claims that the result is the viewshed in the record of the entity, which
/// must be alive.
#[verifier::external_body]
pub(crate) fn viewshed_of(world: &World, entity: Entity) -> (viewshed: Option<Viewshed>)
    requires
        world_ready(*world),
        has_entity(world_records(*world), entity),
    ensures
        forall|i: int|
            0 <= i < world_records(*world).len() && (#[trigger] world_records(*world)[i]).entity == entity
                ==> view_of(viewshed) == world_records(*world)[i].viewshed,
{
    world.read_storage::<Viewshed>().get(entity).cloned()
}

/// `specs::Storage::insert` on the position storage that
/// `specs::WorldExt::write_storage` gives. The contract claims that the
/// entity, which must be alive, then holds the given position in place of
/// the one it may have held, and that nothing else changes.
#[verifier::external_body]
pub(crate) fn store_position(world: &mut World, entity: Entity, position: Position)
    requires
        world_ready(*old(world)),
        has_entity(world_records(*old(world)), entity),
    ensures
        world_ready(*final(world)),
        world_records(*final(world)) == with_position(world_records(*old(world)), entity, position),
{
    let _ = world.write_storage::<Position>().insert(entity, position);
}

/// `specs::Storage::insert` on the renderable storage that
/// `specs::WorldExt::write_storage` gives. The contract claims that the
/// entity, which must be alive, then holds the given look in place of the
/// one it may have held, and that nothing else changes.
#[verifier::external_body]
pub(crate) fn store_renderable(world: &mut World, entity: Entity, renderable: Renderable)
    requires
        world_ready(*old(world)),
        has_entity(world_records(*old(world)), entity),
    ensures
        world_ready(*final(world)),
        world_records(*final(world)) == with_renderable(world_records(*old(world)), entity, renderable),
{
    let _ = world.write_storage::<Renderable>().insert(entity, renderable);
}

/// `specs::Storage::insert` on the player storage that
/// `specs::WorldExt::write_storage` gives. The contract claims that the
/// entity, which must be alive, is then a player, and that nothing else
/// changes.
#[verifier::external_body]
pub(crate) fn store_player(world: &mut World, entity: Entity, player: Player)
    requires
        world_ready(*old(world)),
        has_entity(world_records(*old(world)), entity),
    ensures
        world_ready(*final(world)),
        world_records(*final(world)) == with_player(world_records(*old(world)), entity),
{
    let _ = world.write_storage::<Player>().insert(entity, player);
}

/// `specs::Storage::insert` on the viewshed storage that
/// `specs::WorldExt::write_storage` gives. The contract claims that the
/// entity, which must be alive, then holds the given viewshed in place of
/// the one it may have held, and that nothing else changes.
#[verifier::external_body]
pub(crate) fn store_viewshed(world: &mut World, entity: Entity, viewshed: Viewshed)
    requires
        world_ready(*old(world)),
        has_entity(world_records(*old(world)), entity),
    ensures
        world_ready(*final(world)),
        world_records(*final(world)) == with_viewshed(world_records(*old(world)), entity, viewshed@),
{
    let _ = world.write_storage::<Viewshed>().insert(entity, viewshed);
}

/// `specs::Storage::remove` on the position storage that
/// `specs::WorldExt::write_storage` gives. The contract claims that the
/// entity then holds no position, that nothing else changes, and that the
/// result is the position that the entity held: none, if it held none or is
/// not alive.
#[verifier::external_body]
pub(crate) fn drop_position(world: &mut World, entity: Entity) -> (held: Option<Position>)
    requires
        world_ready(*old(world)),
    ensures
        world_ready(*final(world)),
        world_records(*final(world)) == without_position(world_records(*old(world)), entity),
        forall|i: int|
            0 <= i < world_records(*old(world)).len() && (#[trigger] world_records(*old(world))[i]).entity
                == entity ==> held == world_records(*old(world))[i].position,
        !has_entity(world_records(*old(world)), entity) ==> held.is_none(),
{
    world.write_storage::<Position>().remove(entity)
}

/// `specs::Storage::remove` on the renderable storage that
/// `specs::WorldExt::write_storage` gives. The contract claims that the
/// entity then holds no look, that nothing else changes, and that the result
/// is the look that the entity held: none, if it held none or is not alive.
#[verifier::external_body]
pub(crate) fn drop_renderable(world: &mut World, entity: Entity) -> (held: Option<Renderable>)
    requires
        world_ready(*old(world)),
    ensures
        world_ready(*final(world)),
        world_records(*final(world)) == without_renderable(world_records(*old(world)), entity),
        forall|i: int|
            0 <= i < world_records(*old(world)).len() && (#[trigger] world_records(*old(world))[i]).entity
                == entity ==> held == world_records(*old(world))[i].renderable,
        !has_entity(world_records(*old(world)), entity) ==> held.is_none(),
{
    world.write_storage::<Renderable>().remove(entity)
}

/// `specs::Storage::remove` on the player storage that
/// `specs::WorldExt::write_storage` gives. The contract claims that the
/// entity is then no player, that nothing else changes, and that the result
/// is a marker exactly where the entity was a player.
#[verifier::external_body]
pub(crate) fn drop_player(world: &mut World, entity: Entity) -> (held: Option<Player>)
    requires
        world_ready(*old(world)),
    ensures
        world_ready(*final(world)),
        world_records(*final(world)) == without_player(world_records(*old(world)), entity),
        forall|i: int|
            0 <= i < world_records(*old(world)).len() && (#[trigger] world_records(*old(world))[i]).entity
                == entity ==> held.is_some() == world_records(*old(world))[i].player,
        !has_entity(world_records(*old(world)), entity) ==> held.is_none(),
{
    world.write_storage::<Player>().remove(entity)
}

/// `specs::Storage::remove` on the viewshed storage that
/// `specs::WorldExt::write_storage` gives. The contract claims that the
/// entity then holds no viewshed, that nothing else changes, and that the
/// result is the viewshed that the entity held: none, if it held none or is
/// not alive.
#[verifier::external_body]
pub(crate) fn drop_viewshed(world: &mut World, entity: Entity) -> (held: Option<Viewshed>)
    requires
        world_ready(*old(world)),
    ensures
        world_ready(*final(world)),
        world_records(*final(world)) == without_viewshed(world_records(*old(world)), entity),
        forall|i: int|
            0 <= i < world_records(*old(world)).len() && (#[trigger] world_records(*old(world))[i]).entity
                == entity ==> view_of(held) == world_records(*old(world))[i].viewshed,
        !has_entity(world_records(*old(world)), entity) ==> held.is_none(),
{
    world.write_storage::<Viewshed>().remove(entity)
}

/// `==` of `specs::Entity`, which compares the id and the generation. The
/// contract claims that the result tells whether the two are the same
/// entity.
#[verifier::external_body]
pub(crate) fn same_entity(a: Entity, b: Entity) -> (same: bool)
    ensures
        same == (a == b),
{
    a == b
}

/// `specs::WorldExt::maintain`. The contract claims that a ready world, which
/// has nothing queued, is left as it was.
#[verifier::external_body]
pub(crate) fn maintain(world: &mut World)
    requires
        world_ready(*old(world)),
    ensures
        world_ready(*final(world)),
        world_records(*final(world)) == world_records(*old(world)),
{
    world.maintain();
}

/// Makes a new entity and gives it the components that are there. The
/// entity is none of those that were alive, which all stay as they are, and
/// is listed after them. The world must hold fewer than `MAX_ENTITIES`
/// entities.
pub fn spawn(
    world: &mut World,
    position: Option<Position>,
    renderable: Option<Renderable>,
    player: Option<Player>,
    viewshed: Option<Viewshed>,
) -> (entity: Entity)
    requires
        world_ready(*old(world)),
        world_records(*old(world)).len() < MAX_ENTITIES,
    ensures
        world_ready(*final(world)),
        !has_entity(world_records(*old(world)), entity),
        world_records(*final(world)) == world_records(*old(world)).push(
            (EntityRecord { entity, position, renderable, player, viewshed })@,
        ),
{
    let ghost r0 = world_records(*world);
    let entity = create_entity(world);
    let ghost wanted = (EntityRecord { entity, position, renderable, player, viewshed })@;
    let ghost k = r0.len() as int;
    assert(world_records(*world)[k].entity == entity);
    if let Some(p) = position {
        store_position(world, entity, p);
    }
    assert(world_records(*world)[k].entity == entity);
    if let Some(r) = renderable {
        store_renderable(world, entity, r);
    }
    assert(world_records(*world)[k].entity == entity);
    if let Some(p) = player {
        store_player(world, entity, p);
    }
    assert(world_records(*world)[k].entity == entity);
    if let Some(v) = viewshed {
        store_viewshed(world, entity, v);
    }
    proof {
        let now = world_records(*world);
        let target = r0.push(wanted);
        assert(now.len() == target.len());
        assert forall|i: int| 0 <= i < now.len() implies now[i] == target[i] by {
            if i < k {
                assert(r0.push(bare(entity))[i] == r0[i]);
            }
        }
        assert(now =~= target);
    }
    entity
}

/// Makes a new entity with the components that are there, as `spawn` does,
/// if the world holds fewer than `MAX_ENTITIES` entities. A world that is
/// full is left as it is, and no entity is made.
pub fn try_spawn(
    world: &mut World,
    position: Option<Position>,
    renderable: Option<Renderable>,
    player: Option<Player>,
    viewshed: Option<Viewshed>,
) -> (made: Option<Entity>)
    requires
        world_ready(*old(world)),
    ensures
        world_ready(*final(world)),
        made.is_some() == (world_records(*old(world)).len() < MAX_ENTITIES),
        made.is_none() ==> world_records(*final(world)) == world_records(*old(world)),
        made matches Some(entity) ==> {
            &&& !has_entity(world_records(*old(world)), entity)
            &&& world_records(*final(world)) == world_records(*old(world)).push(
                (EntityRecord { entity, position, renderable, player, viewshed })@,
            )
        },
{
    let count: usize = living_entities(world).len();
    if count < MAX_ENTITIES {
        Some(spawn(world, position, renderable, player, viewshed))
    } else {
        None
    }
}

/// Whether the entity is one of the living entities of the world.
pub fn is_alive(world: &World, entity: Entity) -> (alive: bool)
    requires
        world_ready(*world),
    ensures
        alive == has_entity(world_records(*world), entity),
{
    let entities = living_entities(world);
    let mut i: usize = 0;
    while i < entities.len()
        invariant
            i <= entities.len(),
            entities.len() == world_records(*world).len(),
            forall|j: int|
                0 <= j < entities.len() ==> entities[j] == (#[trigger] world_records(*world)[j]).entity,
            forall|j: int| 0 <= j < i ==> entities[j] != entity,
        decreases entities.len() - i,
    {
        if same_entity(entities[i], entity) {
            assert(world_records(*world)[i as int].entity == entity);
            return true;
        }
        i = i + 1;
    }
    assert forall|j: int| 0 <= j < world_records(*world).len() implies (#[trigger] world_records(
        *world,
    )[j]).entity != entity by {
        assert(entities[j] != entity);
    }
    false
}

/// Gives the entity a position, in place of the one it may hold. Nothing is
/// done for an entity that is not alive.
pub fn attach_position(world: &mut World, entity: Entity, position: Position) -> (done: bool)
    requires
        world_ready(*old(world)),
    ensures
        world_ready(*final(world)),
        done == has_entity(world_records(*old(world)), entity),
        world_records(*final(world)) == with_position(world_records(*old(world)), entity, position),
{
    if is_alive(world, entity) {
        store_position(world, entity, position);
        true
    } else {
        assert(with_position(world_records(*world), entity, position) =~= world_records(*world));
        false
    }
}

/// Gives the entity a look, in place of the one it may hold. Nothing is
/// done for an entity that is not alive.
pub fn attach_renderable(world: &mut World, entity: Entity, renderable: Renderable) -> (done: bool)
    requires
        world_ready(*old(world)),
    ensures
        world_ready(*final(world)),
        done == has_entity(world_records(*old(world)), entity),
        world_records(*final(world)) == with_renderable(world_records(*old(world)), entity, renderable),
{
    if is_alive(world, entity) {
        store_renderable(world, entity, renderable);
        true
    } else {
        assert(with_renderable(world_records(*world), entity, renderable) =~= world_records(*world));
        false
    }
}

/// Marks the entity as a player, which changes nothing if it is one.
/// Nothing is done for an entity that is not alive.
pub fn attach_player(world: &mut World, entity: Entity, player: Player) -> (done: bool)
    requires
        world_ready(*old(world)),
    ensures
        world_ready(*final(world)),
        done == has_entity(world_records(*old(world)), entity),
        world_records(*final(world)) == with_player(world_records(*old(world)), entity),
{
    if is_alive(world, entity) {
        store_player(world, entity, player);
        true
    } else {
        assert(with_player(world_records(*world), entity) =~= world_records(*world));
        false
    }
}

/// Gives the entity a viewshed, in place of the one it may hold. Nothing is
/// done for an entity that is not alive.
pub fn attach_viewshed(world: &mut World, entity: Entity, viewshed: Viewshed) -> (done: bool)
    requires
        world_ready(*old(world)),
    ensures
        world_ready(*final(world)),
        done == has_entity(world_records(*old(world)), entity),
        world_records(*final(world)) == with_viewshed(world_records(*old(world)), entity, viewshed@),
{
    if is_alive(world, entity) {
        store_viewshed(world, entity, viewshed);
        true
    } else {
        assert(with_viewshed(world_records(*world), entity, viewshed@) =~= world_records(*world));
        false
    }
}

/// Takes the position of the entity away and hands it out. An entity that
/// holds none, or is not alive, is left as it is.
pub fn detach_position(world: &mut World, entity: Entity) -> (held: Option<Position>)
    requires
        world_ready(*old(world)),
    ensures
        world_ready(*final(world)),
        world_records(*final(world)) == without_position(world_records(*old(world)), entity),
        forall|i: int|
            0 <= i < world_records(*old(world)).len() && (#[trigger] world_records(*old(world))[i]).entity
                == entity ==> held == world_records(*old(world))[i].position,
        !has_entity(world_records(*old(world)), entity) ==> held.is_none(),
{
    drop_position(world, entity)
}

/// Takes the look of the entity away and hands it out. An entity that holds
/// none, or is not alive, is left as it is.
pub fn detach_renderable(world: &mut World, entity: Entity) -> (held: Option<Renderable>)
    requires
        world_ready(*old(world)),
    ensures
        world_ready(*final(world)),
        world_records(*final(world)) == without_renderable(world_records(*old(world)), entity),
        forall|i: int|
            0 <= i < world_records(*old(world)).len() && (#[trigger] world_records(*old(world))[i]).entity
                == entity ==> held == world_records(*old(world))[i].renderable,
        !has_entity(world_records(*old(world)), entity) ==> held.is_none(),
{
    drop_renderable(world, entity)
}

/// Takes the player's mark from the entity and hands it out. An entity that
/// is no player, or is not alive, is left as it is.
pub fn detach_player(world: &mut World, entity: Entity) -> (held: Option<Player>)
    requires
        world_ready(*old(world)),
    ensures
        world_ready(*final(world)),
        world_records(*final(world)) == without_player(world_records(*old(world)), entity),
        forall|i: int|
            0 <= i < world_records(*old(world)).len() && (#[trigger] world_records(*old(world))[i]).entity
                == entity ==> held.is_some() == world_records(*old(world))[i].player,
        !has_entity(world_records(*old(world)), entity) ==> held.is_none(),
{
    drop_player(world, entity)
}

/// Takes the viewshed of the entity away and hands it out. An entity that
/// holds none, or is not alive, is left as it is.
pub fn detach_viewshed(world: &mut World, entity: Entity) -> (held: Option<Viewshed>)
    requires
        world_ready(*old(world)),
    ensures
        world_ready(*final(world)),
        world_records(*final(world)) == without_viewshed(world_records(*old(world)), entity),
        forall|i: int|
            0 <= i < world_records(*old(world)).len() && (#[trigger] world_records(*old(world))[i]).entity
                == entity ==> view_of(held) == world_records(*old(world))[i].viewshed,
        !has_entity(world_records(*old(world)), entity) ==> held.is_none(),
{
    drop_viewshed(world, entity)
}

/// Attaching a component to an entity that holds one of that kind replaces
/// it: what was attached first leaves no trace.
pub proof fn lemma_attach_replaces(records: Seq<RecordView>, entity: Entity, first: Position, second: Position)
    ensures
        with_position(with_position(records, entity, first), entity, second) == with_position(
            records,
            entity,
            second,
        ),
{
    assert(with_position(with_position(records, entity, first), entity, second) =~= with_position(
        records,
        entity,
        second,
    ));
}

/// Detaching a component from an entity that holds none of that kind, or
/// that is not among the living, changes nothing.
pub proof fn lemma_detach_of_nothing(records: Seq<RecordView>, entity: Entity)
    requires
        forall|i: int|
            0 <= i < records.len() && (#[trigger] records[i]).entity == entity ==> records[i].position.is_none(),
    ensures
        without_position(records, entity) == records,
{
    assert(without_position(records, entity) =~= records);
}

/// The entities of the world with their components: every living entity
/// once, with a copy of each component that it holds.
pub fn snapshot(world: &World) -> (records: Vec<EntityRecord>)
    requires
        world_ready(*world),
    ensures
        views_of(records@) == world_records(*world),
        distinct_entities(world_records(*world)),
{
    let entities = living_entities(world);
    let mut records: Vec<EntityRecord> = Vec::new();
    let mut i: usize = 0;
    while i < entities.len()
        invariant
            i <= entities.len(),
            world_ready(*world),
            entities.len() == world_records(*world).len(),
            forall|j: int|
                0 <= j < entities.len() ==> entities[j] == (#[trigger] world_records(*world)[j]).entity,
            records.len() == i,
            forall|j: int| 0 <= j < i ==> (#[trigger] records[j])@ == world_records(*world)[j],
        decreases entities.len() - i,
    {
        let entity = entities[i];
        assert(has_entity(world_records(*world), entity)) by {
            assert(world_records(*world)[i as int].entity == entity);
        }
        let record = EntityRecord {
            entity,
            position: position_of(world, entity),
            renderable: renderable_of(world, entity),
            player: player_of(world, entity),
            viewshed: viewshed_of(world, entity),
        };
        assert(record@ == world_records(*world)[i as int]);
        records.push(record);
        i = i + 1;
    }
    assert(views_of(records@) =~= world_records(*world));
    assert(distinct_entities(world_records(*world))) by {
        assert forall|a: int, b: int| 0 <= a < b < world_records(*world).len() implies (#[trigger] world_records(
            *world,
        )[a]).entity != (#[trigger] world_records(*world)[b]).entity by {
            assert(entities[a] != entities[b]);
        }
    }
    records
}

} // verus!
