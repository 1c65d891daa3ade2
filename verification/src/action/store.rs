//! Actions by their ids.
use crate::action::{entity_bits, ActionId, ActionRecord};
use crate::table::Table;
use bevy_ecs::entity::Entity;
use bevy_ecs::world::World;
use vstd::prelude::*;

verus! {

/// The world of `bevy_ecs`, as an opaque type.
#[verifier::external_type_specification]
#[verifier::external_body]
pub struct ExWorld(World);

/// The bits of the entities that are spawned in a world.
pub uninterp spec fn spawned(world: World) -> Set<u64>;

/// `bevy_ecs::world::World::new`. Nothing is said of the new world.
#[verifier::external_body]
fn world_new() -> World {
    World::new()
}

/// `bevy_ecs::world::World::spawn_empty` and `EntityWorldMut::id`: a new
/// entity, whose bits no spawned entity has. A world that has run out of
/// entity indices panics, as one that has run out of memory aborts.
#[verifier::external_body]
fn world_spawn(world: &mut World) -> (bits: u64)
    ensures
        entity_bits(bits),
        !spawned(*old(world)).contains(bits),
        spawned(*final(world)) == spawned(*old(world)).insert(bits),
{
    world.spawn_empty().id().to_bits()
}

/// `bevy_ecs::world::World::despawn`: the entity is gone and the others stay.
#[verifier::external_body]
fn world_despawn(world: &mut World, bits: u64)
    requires
        entity_bits(bits),
        spawned(*old(world)).contains(bits),
    ensures
        spawned(*final(world)) == spawned(*old(world)).remove(bits),
{
    world.despawn(Entity::from_bits(bits));
}

/// What is kept of each action, by the id of its entity.
pub struct ActionStore {
    /// `None` until the first action.
    world: Option<World>,
    records: Table<ActionId, ActionRecord>,
}

impl View for ActionStore {
    type V = Map<ActionId, ActionRecord>;

    closed spec fn view(&self) -> Map<ActionId, ActionRecord> {
        self.records@
    }
}

impl ActionStore {
    /// The entity of every action is spawned.
    #[verifier::type_invariant]
    spec fn backed(self) -> bool {
        forall|id: ActionId| #[trigger]
            self.records@.contains_key(id) ==> self.world is Some && entity_bits(id.bits)
                && spawned(self.world->0).contains(id.bits)
    }

    /// A store without actions.
    pub fn new() -> (store: Self)
        ensures
            store@ == Map::<ActionId, ActionRecord>::empty(),
    {
        ActionStore { world: None, records: Table::new() }
    }

    /// Adds an action under a new id.
    pub fn spawn(&mut self, record: ActionRecord) -> (id: ActionId)
        ensures
            entity_bits(id.bits),
            !old(self)@.contains_key(id),
            final(self)@ == old(self)@.insert(id, record),
    {
        proof {
            use_type_invariant(&*self);
        }
        let ghost before = *self;
        let mut records = Table::new();
        core::mem::swap(&mut self.records, &mut records);
        let mut world = None;
        core::mem::swap(&mut self.world, &mut world);
        let mut world = match world {
            Some(world) => world,
            None => world_new(),
        };
        let id = ActionId { bits: world_spawn(&mut world) };
        records.insert(id, record);
        self.world = Some(world);
        self.records = records;
        id
    }

    /// Drops an action and its id.
    pub fn despawn(&mut self, id: ActionId) -> (record: Option<ActionRecord>)
        ensures
            final(self)@ == old(self)@.remove(id),
            record is Some <==> old(self)@.contains_key(id),
            record is Some ==> record->0 == old(self)@[id],
    {
        proof {
            use_type_invariant(&*self);
        }
        let ghost before = *self;
        let mut records = Table::new();
        core::mem::swap(&mut self.records, &mut records);
        let record = records.remove(&id);
        if record.is_some() {
            let mut world = None;
            core::mem::swap(&mut self.world, &mut world);
            match world {
                Some(mut world) => {
                    world_despawn(&mut world, id.bits);
                    self.world = Some(world);
                },
                None => {},
            }
        }
        self.records = records;
        record
    }

    /// What is kept of an action.
    pub fn get(&self, id: &ActionId) -> (record: Option<&ActionRecord>)
        ensures
            record is Some <==> self@.contains_key(*id),
            record is Some ==> *record->0 == self@[*id],
    {
        self.records.get(id)
    }

    /// Replaces what is kept of an action.
    pub fn put(&mut self, id: ActionId, record: ActionRecord)
        requires
            old(self)@.contains_key(id),
        ensures
            final(self)@ == old(self)@.insert(id, record),
    {
        proof {
            use_type_invariant(&*self);
        }
        let mut records = Table::new();
        core::mem::swap(&mut self.records, &mut records);
        records.insert(id, record);
        self.records = records;
    }

    /// Every id, once.
    pub fn ids(&self) -> (ids: Vec<ActionId>)
        ensures
            ids@.no_duplicates(),
            forall|id: ActionId| ids@.contains(id) <==> self@.contains_key(id),
    {
        self.records.keys()
    }
}

} // verus!
