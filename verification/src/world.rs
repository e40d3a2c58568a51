//! The world: the owner of the storage and the only writer of archetype
//! registration and of the entities' life cycle.

use vstd::prelude::*;
use crate::entity::{
    is_version_4, random_id, Component, ComponentHandle, Entity, EntityBuilder, TypeKey,
};
use crate::error::EcsError;
use crate::laws::{
    law_first_free, law_hold_keeps_handles, law_insert_keeps_held, law_kill_completeness,
    law_kill_keeps_held, law_remove_keeps_held,
};
use crate::cell::BorrowMode;
use crate::model::WorldModel;
use crate::archetype::{Archetype, ComponentArchetype};
use crate::storage::Storage;

verus! {

/// A world of entities and their components.
///
/// Whatever is done to a world, it stays well formed: this is the type's
/// invariant, so no operation asks its caller for it.
pub struct World<P> {
    storage: Storage<P>,
}

impl<P> View for World<P> {
    type V = WorldModel<P>;

    closed spec fn view(&self) -> WorldModel<P> {
        self.storage@
    }
}

impl<P> World<P> {
    /// The invariant of the type: the storage is well formed.
    #[verifier::type_invariant]
    pub closed spec fn wf(&self) -> bool {
        self.storage.wf()
    }

    /// A well-formed world holds a well-formed model.
    pub proof fn lemma_wf(&self)
        requires
            self.wf(),
        ensures
            self@.wf(),
    {
        self.storage.lemma_wf();
    }

    /// Moves the storage out, leaving an empty one in its place.
    fn take_storage(&mut self) -> (storage: Storage<P>)
        ensures
            storage == old(self).storage,
            storage.wf(),
    {
        proof {
            use_type_invariant(&*self);
        }
        let mut storage = Storage::new();
        core::mem::swap(&mut self.storage, &mut storage);
        storage
    }

    /// The empty world: no archetypes, no entities.
    pub fn new() -> (world: Self)
        ensures
            world@ == WorldModel::<P>::empty(),
    {
        World { storage: Storage::new() }
    }

    /// The storage of the world.
    pub fn storage(&self) -> (storage: &Storage<P>)
        ensures
            storage.wf(),
            storage@ == self@,
    {
        proof {
            use_type_invariant(self);
        }
        &self.storage
    }

    /// The live entities, in the order in which they were spawned.
    pub fn entities(&self) -> (entities: &Vec<Entity>)
        ensures
            entities@ == self@.entities,
            self@.wf(),
    {
        proof {
            use_type_invariant(self);
            self.lemma_wf();
        }
        self.storage.entities()
    }

    /// Registers the component type `key`: nothing happens where it has a
    /// table already; otherwise it gets a table with an empty slot for every
    /// live entity.
    pub fn new_archetype(&mut self, key: TypeKey)
        ensures
            final(self)@ == old(self)@.register(key),
    {
        let mut storage = self.take_storage();
        storage.new_archetype(key);
        self.storage = storage;
    }

    /// The archetype table in which `component` is stored, where its
    /// component type is registered.
    pub fn get_archetype(&self, component: &P) -> (table: Option<&ComponentArchetype<P>>) where
        P: Component,

        ensures
            exists|key: TypeKey|
                call_ensures(<P as Component>::type_key, (component,), key) && match table {
                    Some(t) => self@.registered(key) && t.key() == key && t.slots()
                        == self@.tables[key],
                    None => !self@.registered(key),
                },
    {
        self.get_archetype_const(component.type_key())
    }

    /// The archetype table of the component type `type_id`, where it is registered.
    pub fn get_archetype_const(&self, type_id: TypeKey) -> (table: Option<&ComponentArchetype<P>>)
        ensures
            match table {
                Some(t) => self@.registered(type_id) && t.key() == type_id && t.slots()
                    == self@.tables[type_id],
                None => !self@.registered(type_id),
            },
    {
        proof {
            use_type_invariant(self);
        }
        self.storage.get_archetype(type_id)
    }

    /// Writes `component` as the value of `entity` for the component type
    /// `key`, in a cell of its own. The type must be registered and the
    /// entity must have a slot in its table. The cell of an earlier value
    /// leaves the table; it stays with the world, as it is, while a handle
    /// holds it or a borrow of it is outstanding.
    pub fn insert_component(&mut self, entity: &Entity, key: TypeKey, component: P) -> (done:
        Result<(), EcsError>)
        ensures
            match old(self)@.insert(*entity, key, component) {
                Ok(after) => done is Ok && final(self)@ == after,
                Err(e) => done == Err::<(), EcsError>(e) && final(self)@ == old(self)@,
            },
            old(self)@.keeps_held(final(self)@),
    {
        proof {
            use_type_invariant(&*self);
            self.lemma_wf();
            law_insert_keeps_held(self@, *entity, key, component);
        }
        let mut storage = self.take_storage();
        let done = storage.insert_component(entity, key, component);
        self.storage = storage;
        done
    }

    /// Takes the value of `entity` for the component type `key` away. The
    /// entity stays live and keeps its other components. The cell leaves the
    /// table; it stays with the world, as it is, while a handle holds it or
    /// a borrow of it is outstanding.
    pub fn remove_component(&mut self, entity: &Entity, key: TypeKey)
        ensures
            final(self)@ == old(self)@.remove(*entity, key),
            !final(self)@.has_component(key, *entity),
            old(self)@.keeps_held(final(self)@),
    {
        proof {
            use_type_invariant(&*self);
            self.lemma_wf();
            law_remove_keeps_held(self@, *entity, key);
        }
        let mut storage = self.take_storage();
        storage.remove_component(entity, key);
        self.storage = storage;
    }

    /// An entity that is not live, with the identity `candidate` where no
    /// live entity has it, and otherwise with the first identity after it
    /// that no live entity has.
    pub fn fresh_entity(&self, candidate: u128) -> (entity: Entity)
        ensures
            self@.is_first_free(candidate, entity.id),
            !self@.is_live(entity),
    {
        proof {
            use_type_invariant(self);
        }
        let entity = self.storage.fresh_entity(candidate);
        proof {
            law_first_free(self@, candidate, entity.id, entity.id);
        }
        entity
    }

    /// A builder for an entity with a fresh identity: a random UUID of
    /// version 4, or, where a live entity has that one already, the first
    /// identity after it that no live entity has. The world is unchanged
    /// until the builder spawns the entity.
    pub fn create_entity(&mut self) -> (builder: EntityBuilder<'_, P>)
        ensures
            !old(self)@.is_live(builder.entity),
            exists|candidate: u128|
                is_version_4(candidate) && #[trigger] old(self)@.is_first_free(
                    candidate,
                    builder.entity.id,
                ),
            builder.components@ == Seq::<(TypeKey, P)>::empty(),
            *builder.world == *old(self),
            *final(builder.world) == *final(self),
    {
        let entity = self.fresh_entity(random_id());
        EntityBuilder::new(entity, self)
    }

    /// Spawns `entity` with the payloads `components`: every table gets a
    /// slot for the entity, then each payload is written to the table of its
    /// component type, in the order given, and the entity becomes the last
    /// of the live ones. Nothing happens where the entity is live already,
    /// a payload is of a component type that is not registered, or the cell
    /// identities do not suffice.
    pub fn spawn(&mut self, entity: Entity, components: Vec<(TypeKey, P)>) -> (done: Result<
        (),
        EcsError,
    >)
        ensures
            match old(self)@.spawn_error(entity, components@) {
                Some(e) => done == Err::<(), EcsError>(e) && final(self)@ == old(self)@,
                None => done is Ok && final(self)@ == old(self)@.spawn(entity, components@),
            },
    {
        let mut storage = self.take_storage();
        let done = storage.spawn(entity, components);
        self.storage = storage;
        done
    }

    /// Kills `entity`: it leaves the live entities, and its slot leaves
    /// every table. The other entities keep their order. The cells of its
    /// components stay with the world, as they are, while a handle holds
    /// them or a borrow of them is outstanding: what a handle reached before,
    /// it reaches afterwards.
    pub fn kill(&mut self, entity: &Entity)
        ensures
            final(self)@ == old(self)@.kill(*entity),
            !final(self)@.is_live(*entity),
            forall|key: TypeKey| !final(self)@.has_component(key, *entity),
            old(self)@.keeps_held(final(self)@),
    {
        proof {
            use_type_invariant(&*self);
            self.lemma_wf();
            law_kill_keeps_held(self@, *entity);
            assert forall|key: TypeKey| !self@.kill(*entity).has_component(key, *entity) by {
                law_kill_completeness(self@, *entity, key);
            }
        }
        let mut storage = self.take_storage();
        storage.kill(entity);
        self.storage = storage;
    }

    /// Whether `entity` holds a value of the component type `key`.
    pub fn has_component(&self, key: TypeKey, entity: &Entity) -> (has: bool)
        ensures
            has == self@.has_component(key, *entity),
    {
        proof {
            use_type_invariant(self);
        }
        self.storage.has_component(key, entity)
    }

    /// A handle, in `mode`, to the component of `entity` of the component
    /// type `key`, where the entity holds one. The handle takes a share of
    /// the cell: it goes on reaching the cell, whatever becomes of the
    /// entity and of its component, until it is let go.
    pub fn get_component(&mut self, key: TypeKey, entity: &Entity, mode: BorrowMode) -> (handle:
        Option<ComponentHandle>)
        ensures
            match handle {
                Some(h) => {
                    &&& old(self)@.has_component(key, *entity)
                    &&& h == old(self)@.handle(key, entity.id, mode)
                    &&& final(self)@ == old(self)@.hold(h)
                    &&& final(self)@.cell(h) matches Ok(cell) && cell.kept()
                },
                None => !old(self)@.has_component(key, *entity) && final(self)@ == old(self)@,
            },
    {
        proof {
            use_type_invariant(&*self);
            self.lemma_wf();
            if self@.has_component(key, *entity) {
                let h = self@.handle(key, entity.id, mode);
                law_hold_keeps_handles(self@, h, h);
            }
        }
        let mut storage = self.take_storage();
        let handle = storage.get_component(key, entity, mode);
        self.storage = storage;
        handle
    }

    /// Lets one more handle take a share of the cell that `handle` reaches,
    /// as for a copy of the handle. Nothing changes where it reaches none.
    pub fn hold(&mut self, handle: &ComponentHandle)
        ensures
            final(self)@ == old(self)@.hold(*handle),
    {
        let mut storage = self.take_storage();
        storage.hold(handle);
        self.storage = storage;
    }

    /// Lets the share of one handle in the cell that `handle` reaches go:
    /// once for each share that was taken. A cell that left its table is
    /// dropped when nobody has a share of it any more. Nothing changes
    /// where the handle reaches no cell.
    pub fn let_go(&mut self, handle: &ComponentHandle)
        ensures
            final(self)@ == old(self)@.let_go(*handle),
    {
        let mut storage = self.take_storage();
        storage.let_go(handle);
        self.storage = storage;
    }

    /// Registers one more borrow of the cell that `handle` reaches, in the
    /// mode of the handle. The borrow is refused where it conflicts with one
    /// that is outstanding.
    pub fn borrow(&mut self, handle: &ComponentHandle) -> (done: Result<(), EcsError>)
        ensures
            match old(self)@.borrow(*handle) {
                Ok(after) => done is Ok && final(self)@ == after,
                Err(e) => done == Err::<(), EcsError>(e) && final(self)@ == old(self)@,
            },
    {
        let mut storage = self.take_storage();
        let done = storage.borrow(handle);
        self.storage = storage;
        done
    }

    /// Returns one borrow of the cell that `handle` reaches, in the mode of
    /// the handle.
    pub fn release(&mut self, handle: &ComponentHandle) -> (done: Result<(), EcsError>)
        ensures
            match old(self)@.release(*handle) {
                Ok(after) => done is Ok && final(self)@ == after,
                Err(e) => done == Err::<(), EcsError>(e) && final(self)@ == old(self)@,
            },
    {
        let mut storage = self.take_storage();
        let done = storage.release(handle);
        self.storage = storage;
        done
    }

    /// The value of the component that `handle` reaches, for the holder of a
    /// borrow in the mode of the handle.
    pub fn read(&self, handle: &ComponentHandle) -> (value: Result<&P, EcsError>)
        ensures
            match self@.read(*handle) {
                Ok(v) => value == Ok::<&P, EcsError>(&v),
                Err(e) => value == Err::<&P, EcsError>(e),
            },
    {
        proof {
            use_type_invariant(self);
        }
        self.storage.read(handle)
    }

    /// Replaces the value of the component that `handle` reaches, for the
    /// holder of the exclusive borrow. The borrow stays outstanding.
    pub fn write(&mut self, handle: &ComponentHandle, value: P) -> (done: Result<(), EcsError>)
        ensures
            match old(self)@.write(*handle, value) {
                Ok(after) => done is Ok && final(self)@ == after,
                Err(e) => done == Err::<(), EcsError>(e) && final(self)@ == old(self)@,
            },
    {
        let mut storage = self.take_storage();
        let done = storage.write(handle, value);
        self.storage = storage;
        done
    }
}

/// A kind of data that a system takes from the world before it runs and
/// gives back afterwards.
pub trait WorldData<P> {
    /// What is handed to the system.
    type Data: 'static;

    /// Takes a fresh instance from the world.
    fn take(&self, world: &mut World<P>) -> Result<Self::Data, EcsError>;

    /// Gives the instance back, with whatever it has to commit.
    fn release(&self, data: Self::Data, world: &mut World<P>);
}

} // verus!
