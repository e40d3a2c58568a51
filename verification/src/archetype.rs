//! Archetype tables: the store of one component type, from entity identity
//! to an optional storage cell.

use vstd::prelude::*;
use vstd::std_specs::iter::IteratorSpec;
use std::collections::HashMap;
use crate::cell::{BorrowMode, CellId, StorageCell};
use crate::entity::{ComponentHandle, Entity, TypeKey};
use crate::error::EcsError;

verus! {

/// The slots of one table: for each entity that the table knows, either a
/// storage cell or the explicit mark that the entity has no value here.
pub type Slots<P> = Map<u128, Option<StorageCell<P>>>;

/// The cell of `id`, or what stands in the way of reaching it.
pub open spec fn cell_of<P>(slots: Slots<P>, id: u128) -> Result<StorageCell<P>, EcsError> {
    if !slots.contains_key(id) {
        Err(EcsError::MissingSlot)
    } else {
        match slots[id] {
            None => Err(EcsError::AbsentComponent),
            Some(cell) => Ok(cell),
        }
    }
}

/// Whether `id` has a slot that holds a value.
pub open spec fn occupied<P>(slots: Slots<P>, id: u128) -> bool {
    slots.contains_key(id) && slots[id] is Some
}

/// The cell that the slot of `id` holds, if any.
pub open spec fn held<P>(slots: Slots<P>, id: u128) -> Option<StorageCell<P>> {
    if occupied(slots, id) {
        slots[id]
    } else {
        None
    }
}

/// The slots of the table of the component type `table` after `component`,
/// a payload of the component type `key`, was stored for `id` in a new cell
/// with the identity `cell`.
pub open spec fn stored<P>(
    slots: Slots<P>,
    table: TypeKey,
    id: u128,
    key: TypeKey,
    cell: CellId,
    component: P,
) -> Result<Slots<P>, EcsError> {
    if key != table {
        Err(EcsError::TypeMismatch)
    } else if !slots.contains_key(id) {
        Err(EcsError::MissingSlot)
    } else {
        Ok(slots.insert(id, Some(StorageCell::fresh(cell, component))))
    }
}

/// The slots after one more borrow of the cell of `id` in `mode`.
pub open spec fn borrowed<P>(slots: Slots<P>, id: u128, mode: BorrowMode) -> Result<
    Slots<P>,
    EcsError,
> {
    match cell_of(slots, id) {
        Err(e) => Err(e),
        Ok(cell) => match cell.borrowed(mode) {
            Err(e) => Err(e),
            Ok(after) => Ok(slots.insert(id, Some(after))),
        },
    }
}

/// The slots after one borrow of the cell of `id` in `mode` was returned.
pub open spec fn released<P>(slots: Slots<P>, id: u128, mode: BorrowMode) -> Result<
    Slots<P>,
    EcsError,
> {
    match cell_of(slots, id) {
        Err(e) => Err(e),
        Ok(cell) => match cell.released(mode) {
            Err(e) => Err(e),
            Ok(after) => Ok(slots.insert(id, Some(after))),
        },
    }
}

/// The value that a holder of a borrow in `mode` reads from the cell of `id`.
pub open spec fn readable<P>(slots: Slots<P>, id: u128, mode: BorrowMode) -> Result<P, EcsError> {
    match cell_of(slots, id) {
        Err(e) => Err(e),
        Ok(cell) => cell.readable(mode),
    }
}

/// The slots after the holder of the exclusive borrow wrote `value` to the cell of `id`.
pub open spec fn written<P>(slots: Slots<P>, id: u128, value: P) -> Result<Slots<P>, EcsError> {
    match cell_of(slots, id) {
        Err(e) => Err(e),
        Ok(cell) => match cell.written(value) {
            Err(e) => Err(e),
            Ok(after) => Ok(slots.insert(id, Some(after))),
        },
    }
}

/// The handles, in `mode`, to the components of the table of `key`: one for
/// each entity whose slot holds a value.
pub open spec fn all_handles<P>(slots: Slots<P>, key: TypeKey, mode: BorrowMode) -> Map<
    u128,
    ComponentHandle,
> {
    Map::new(
        |id: u128| occupied(slots, id),
        |id: u128| ComponentHandle { entity: Entity { id }, key, mode, cell: slots[id]->0.id },
    )
}

/// The interface of an archetype table: the store of one component type,
/// from entity identity to an optional storage cell.
pub trait Archetype<P> {
    /// The component type whose payloads the table stores.
    spec fn key(&self) -> TypeKey;

    /// The slots of the table.
    spec fn slots(&self) -> Slots<P>;

    /// Stores `component` as the value of `entity`, in a new cell with the
    /// identity `cell` that nobody has borrowed, and hands back the cell of
    /// the earlier value, if there was one. The payload must be of the
    /// table's component type and the entity must have a slot.
    fn set_component(
        &mut self,
        entity: &Entity,
        key: TypeKey,
        cell: CellId,
        component: P,
    ) -> (done: Result<Option<StorageCell<P>>, EcsError>)
        ensures
            final(self).key() == old(self).key(),
            match stored(old(self).slots(), old(self).key(), entity.id, key, cell, component) {
                Ok(slots) => done == Ok::<Option<StorageCell<P>>, EcsError>(
                    held(old(self).slots(), entity.id),
                ) && final(self).slots() == slots,
                Err(e) => done == Err::<Option<StorageCell<P>>, EcsError>(e)
                    && final(self).slots() == old(self).slots(),
            },
    ;

    /// A handle to the component of `entity`, where it has a value. The
    /// handle names the cell and takes no share of it: a table on its own
    /// hands a cell that leaves it to the caller. In a world a handle takes
    /// its share through `World::hold`; the handles of `World::get_component`
    /// and of a query have theirs.
    fn get_component(&self, entity: &Entity, mode: BorrowMode) -> (handle: Option<ComponentHandle>)
        ensures
            handle == if occupied(self.slots(), entity.id) {
                Some(
                    ComponentHandle {
                        entity: *entity,
                        key: self.key(),
                        mode,
                        cell: self.slots()[entity.id]->0.id,
                    },
                )
            } else {
                None
            },
    ;

    /// A handle to the component of the entity with identity `id`, where it
    /// has a value. The handle takes no share of the cell.
    fn get_component_with_id(&self, id: &u128, mode: BorrowMode) -> (handle: Option<
        ComponentHandle,
    >)
        ensures
            handle == if occupied(self.slots(), *id) {
                Some(
                    ComponentHandle {
                        entity: Entity { id: *id },
                        key: self.key(),
                        mode,
                        cell: self.slots()[*id]->0.id,
                    },
                )
            } else {
                None
            },
    ;

    /// Drops the slot of `entity`, and hands back the cell that it held,
    /// if any.
    fn kill(&mut self, entity: &Entity) -> (cell: Option<StorageCell<P>>)
        ensures
            final(self).key() == old(self).key(),
            final(self).slots() == old(self).slots().remove(entity.id),
            cell == held(old(self).slots(), entity.id),
    ;

    /// Gives `entity` an empty slot, unless it has a slot already.
    fn add_entity(&mut self, entity: &Entity)
        ensures
            final(self).key() == old(self).key(),
            final(self).slots() == if old(self).slots().contains_key(entity.id) {
                old(self).slots()
            } else {
                old(self).slots().insert(entity.id, None)
            },
    ;

    /// Empties the slot of `entity`, and hands back the cell that it held,
    /// if any; the slot itself stays.
    fn remove(&mut self, entity: &Entity) -> (cell: Option<StorageCell<P>>)
        ensures
            final(self).key() == old(self).key(),
            final(self).slots() == if old(self).slots().contains_key(entity.id) {
                old(self).slots().insert(entity.id, None)
            } else {
                old(self).slots()
            },
            cell == held(old(self).slots(), entity.id),
    ;

    /// The component type whose payloads the table stores.
    fn type_id(&self) -> (key: TypeKey)
        ensures
            key == self.key(),
    ;

    /// The number of slots.
    fn get_size(&self) -> (size: usize)
        ensures
            size == self.slots().len(),
    ;

    /// A handle, in `mode`, to the component of every entity that has a
    /// value. The handles take no share of their cells.
    fn get_components(&self, mode: BorrowMode) -> (handles: HashMap<u128, ComponentHandle>)
        ensures
            handles@ == all_handles(self.slots(), self.key(), mode),
    ;

    /// Registers one more borrow of the component of `id` in `mode`.
    fn borrow(&mut self, id: u128, mode: BorrowMode) -> (done: Result<(), EcsError>)
        ensures
            final(self).key() == old(self).key(),
            match borrowed(old(self).slots(), id, mode) {
                Ok(slots) => done is Ok && final(self).slots() == slots,
                Err(e) => done == Err::<(), EcsError>(e) && final(self).slots() == old(
                    self,
                ).slots(),
            },
    ;

    /// Returns one borrow of the component of `id` in `mode`.
    fn release(&mut self, id: u128, mode: BorrowMode) -> (done: Result<(), EcsError>)
        ensures
            final(self).key() == old(self).key(),
            match released(old(self).slots(), id, mode) {
                Ok(slots) => done is Ok && final(self).slots() == slots,
                Err(e) => done == Err::<(), EcsError>(e) && final(self).slots() == old(
                    self,
                ).slots(),
            },
    ;

    /// The value of the component of `id`, for the holder of a borrow in `mode`.
    fn read(&self, id: u128, mode: BorrowMode) -> (value: Result<&P, EcsError>)
        ensures
            match readable(self.slots(), id, mode) {
                Ok(v) => value == Ok::<&P, EcsError>(&v),
                Err(e) => value == Err::<&P, EcsError>(e),
            },
    ;

    /// Replaces the value of the component of `id`, for the holder of the
    /// exclusive borrow. The borrow stays outstanding.
    fn write(&mut self, id: u128, value: P) -> (done: Result<(), EcsError>)
        ensures
            final(self).key() == old(self).key(),
            match written(old(self).slots(), id, value) {
                Ok(slots) => done is Ok && final(self).slots() == slots,
                Err(e) => done == Err::<(), EcsError>(e) && final(self).slots() == old(
                    self,
                ).slots(),
            },
    ;
}

/// The archetype table of one component type.
pub struct ComponentArchetype<P> {
    pub key: TypeKey,
    pub components: HashMap<u128, Option<StorageCell<P>>>,
}

impl<P> ComponentArchetype<P> {
    /// An empty table for the component type `key`, with room for
    /// `capacity` slots before it grows.
    pub fn new(key: TypeKey, capacity: usize) -> (table: Self)
        ensures
            table.key() == key,
            table.slots() == Map::<u128, Option<StorageCell<P>>>::empty(),
    {
        ComponentArchetype { key, components: HashMap::with_capacity(capacity) }
    }
}

impl<P> Archetype<P> for ComponentArchetype<P> {
    open spec fn key(&self) -> TypeKey {
        self.key
    }

    open spec fn slots(&self) -> Slots<P> {
        self.components@
    }

    fn set_component(
        &mut self,
        entity: &Entity,
        key: TypeKey,
        cell: CellId,
        component: P,
    ) -> (done: Result<Option<StorageCell<P>>, EcsError>) {
        if key != self.key {
            return Err(EcsError::TypeMismatch);
        }
        if !self.components.contains_key(&entity.id) {
            return Err(EcsError::MissingSlot);
        }
        match self.components.insert(entity.id, Some(StorageCell::new(cell, component))) {
            Some(slot) => Ok(slot),
            None => Ok(None),
        }
    }

    fn get_component(&self, entity: &Entity, mode: BorrowMode) -> (handle: Option<
        ComponentHandle,
    >) {
        self.get_component_with_id(&entity.id, mode)
    }

    fn get_component_with_id(&self, id: &u128, mode: BorrowMode) -> (handle: Option<
        ComponentHandle,
    >) {
        match self.components.get(id) {
            Some(Some(cell)) => Some(
                ComponentHandle { entity: Entity { id: *id }, key: self.key, mode, cell: cell.id },
            ),
            _ => None,
        }
    }

    fn kill(&mut self, entity: &Entity) -> (cell: Option<StorageCell<P>>) {
        match self.components.remove(&entity.id) {
            Some(slot) => slot,
            None => None,
        }
    }

    fn add_entity(&mut self, entity: &Entity) {
        if !self.components.contains_key(&entity.id) {
            self.components.insert(entity.id, None);
        }
    }

    fn remove(&mut self, entity: &Entity) -> (cell: Option<StorageCell<P>>) {
        if self.components.contains_key(&entity.id) {
            match self.components.insert(entity.id, None) {
                Some(slot) => slot,
                None => None,
            }
        } else {
            None
        }
    }

    fn type_id(&self) -> (key: TypeKey) {
        self.key
    }

    fn get_size(&self) -> (size: usize) {
        self.components.len()
    }

    fn get_components(&self, mode: BorrowMode) -> (handles: HashMap<u128, ComponentHandle>) {
        let mut handles: HashMap<u128, ComponentHandle> = HashMap::with_capacity(
            self.components.len(),
        );
        for entry in it: self.components.iter()
            invariant
                it.seq() == self.components.iter().remaining(),
                forall|id: u128|
                    handles@.contains_key(id) <==> exists|j: int|
                        0 <= j < it.index() && *(#[trigger] it.seq()[j]).0 == id
                            && *it.seq()[j].1 is Some,
                forall|id: u128|
                    handles@.contains_key(id) ==> #[trigger] handles@[id] == (ComponentHandle {
                        entity: Entity { id },
                        key: self.key,
                        mode,
                        cell: self.components@[id]->0.id,
                    }),
        {
            let (id, slot) = entry;
            match slot {
                Some(cell) => {
                    handles.insert(
                        *id,
                        ComponentHandle {
                            entity: Entity { id: *id },
                            key: self.key,
                            mode,
                            cell: cell.id,
                        },
                    );
                },
                None => {},
            }
        }
        assert(handles@ =~= all_handles(self.components@, self.key, mode));
        handles
    }

    fn borrow(&mut self, id: u128, mode: BorrowMode) -> (done: Result<(), EcsError>) {
        match self.components.remove(&id) {
            None => Err(EcsError::MissingSlot),
            Some(None) => {
                self.components.insert(id, None);
                assert(self.components@ =~= old(self).components@);
                Err(EcsError::AbsentComponent)
            },
            Some(Some(cell)) => {
                let mut cell = cell;
                let done = cell.borrow(mode);
                self.components.insert(id, Some(cell));
                assert(self.components@ =~= old(self).components@.insert(id, Some(cell)));
                assert(done is Err ==> self.components@ =~= old(self).components@);
                done
            },
        }
    }

    fn release(&mut self, id: u128, mode: BorrowMode) -> (done: Result<(), EcsError>) {
        match self.components.remove(&id) {
            None => Err(EcsError::MissingSlot),
            Some(None) => {
                self.components.insert(id, None);
                assert(self.components@ =~= old(self).components@);
                Err(EcsError::AbsentComponent)
            },
            Some(Some(cell)) => {
                let mut cell = cell;
                let done = cell.release(mode);
                self.components.insert(id, Some(cell));
                assert(self.components@ =~= old(self).components@.insert(id, Some(cell)));
                assert(done is Err ==> self.components@ =~= old(self).components@);
                done
            },
        }
    }

    fn read(&self, id: u128, mode: BorrowMode) -> (value: Result<&P, EcsError>) {
        match self.components.get(&id) {
            None => Err(EcsError::MissingSlot),
            Some(None) => Err(EcsError::AbsentComponent),
            Some(Some(cell)) => cell.read(mode),
        }
    }

    fn write(&mut self, id: u128, value: P) -> (done: Result<(), EcsError>) {
        match self.components.remove(&id) {
            None => Err(EcsError::MissingSlot),
            Some(None) => {
                self.components.insert(id, None);
                assert(self.components@ =~= old(self).components@);
                Err(EcsError::AbsentComponent)
            },
            Some(Some(cell)) => {
                let mut cell = cell;
                let done = cell.write(value);
                self.components.insert(id, Some(cell));
                assert(self.components@ =~= old(self).components@.insert(id, Some(cell)));
                assert(done is Err ==> self.components@ =~= old(self).components@);
                done
            },
        }
    }
}

} // verus!
