//! The storage of a world: its archetype tables and its live entities.

use vstd::prelude::*;
use std::collections::{HashMap, HashSet};
use crate::archetype::{Archetype, ComponentArchetype, Slots};
use crate::cell::{BorrowMode, CellId, StorageCell};
use crate::entity::{ComponentHandle, Entity, TypeKey};
use crate::error::EcsError;
use crate::laws::{
    law_insert_keeps_invariant, law_kill_keeps_invariant, law_register_keeps_invariant,
    law_remove_keeps_invariant, law_spawn_keeps_invariant, law_update_keeps_invariant,
};
use crate::lemmas::lemma_probes_bounded;
use crate::model::{other_than, probe, staged_slot, WorldModel};

verus! {

/// The live entities and the archetype tables of a world: the single source
/// of truth for which entities exist and which components they hold.
pub struct Storage<P> {
    /// The archetype tables, by component type.
    archetypes: HashMap<TypeKey, ComponentArchetype<P>>,
    /// The registered component types, in the order of their registration.
    order: Vec<TypeKey>,
    /// The live entities, in the order in which they were spawned.
    entities: Vec<Entity>,
    /// The identities of the live entities.
    ids: HashSet<u128>,
    /// The cells that left their table and are kept for their handles.
    detached: HashMap<CellId, StorageCell<P>>,
    /// The identity that the next cell gets.
    next_cell: CellId,
}

/// Where a handle reaches its cell.
enum Place {
    /// In the slot of the table of its component type.
    Attached,
    /// Among the detached cells.
    Detached,
    /// Nowhere, for this reason.
    Missing(EcsError),
}

/// What the holder of a handle does to the cell.
enum Access<P> {
    Borrow(BorrowMode),
    Release(BorrowMode),
    Write(P),
    Hold,
    LetGo,
}

impl<P> Access<P> {
    /// The cell after the access, or why it is refused.
    spec fn applied(self, cell: StorageCell<P>) -> Result<StorageCell<P>, EcsError> {
        match self {
            Access::Borrow(mode) => cell.borrowed(mode),
            Access::Release(mode) => cell.released(mode),
            Access::Write(value) => cell.written(value),
            Access::Hold => Ok(cell.held()),
            Access::LetGo => Ok(cell.let_go()),
        }
    }

    /// Does the access to `cell`.
    fn apply(self, cell: &mut StorageCell<P>) -> (done: Result<(), EcsError>)
        ensures
            match self.applied(*old(cell)) {
                Ok(after) => done is Ok && *final(cell) == after,
                Err(e) => done == Err::<(), EcsError>(e) && *final(cell) == *old(cell),
            },
    {
        match self {
            Access::Borrow(mode) => cell.borrow(mode),
            Access::Release(mode) => cell.release(mode),
            Access::Write(value) => cell.write(value),
            Access::Hold => {
                cell.hold();
                Ok(())
            },
            Access::LetGo => {
                cell.drop_holder();
                Ok(())
            },
        }
    }
}

/// The slots of the tables, by component type.
spec fn tables_of<P>(archetypes: Map<TypeKey, ComponentArchetype<P>>) -> Map<TypeKey, Slots<P>> {
    Map::new(
        |key: TypeKey| archetypes.contains_key(key),
        |key: TypeKey| archetypes[key].components@,
    )
}

/// Every table stands under the component type that it stores.
spec fn keyed<P>(archetypes: Map<TypeKey, ComponentArchetype<P>>) -> bool {
    forall|key: TypeKey| archetypes.contains_key(key) ==> (#[trigger] archetypes[key]).key == key
}

/// Whether `key` is among the first `i` of `order`.
spec fn seen(order: Seq<TypeKey>, i: int, key: TypeKey) -> bool {
    exists|j: int| 0 <= j < i && #[trigger] order[j] == key
}

/// What is seen after one more step is what was seen and the key of the step.
proof fn lemma_seen_step(order: Seq<TypeKey>, i: int)
    requires
        0 <= i < order.len(),
    ensures
        forall|key: TypeKey| #[trigger]
            seen(order, i + 1, key) <==> seen(order, i, key) || order[i] == key,
{
    assert forall|key: TypeKey| #[trigger]
        seen(order, i + 1, key) <==> seen(order, i, key) || order[i] == key by {
        if seen(order, i + 1, key) {
            let j = choose|j: int| 0 <= j < i + 1 && #[trigger] order[j] == key;
            if j < i {
                assert(seen(order, i, key));
            }
        }
        if seen(order, i, key) {
            let j = choose|j: int| 0 <= j < i && #[trigger] order[j] == key;
            assert(0 <= j < i + 1 && order[j] == key);
        }
        if order[i] == key {
            assert(0 <= i < i + 1 && order[i] == key);
        }
    }
}

impl<P> View for Storage<P> {
    type V = WorldModel<P>;

    closed spec fn view(&self) -> WorldModel<P> {
        WorldModel {
            entities: self.entities@,
            tables: tables_of(self.archetypes@),
            detached: self.detached@,
            next_cell: self.next_cell,
        }
    }
}

impl<P> Storage<P> {
    /// The invariant of the storage: every table stands under its component
    /// type, the order of registration lists the registered types, the
    /// index of identities holds those of the live entities, and what the
    /// storage holds is a well-formed world.
    pub closed spec fn wf(&self) -> bool {
        &&& keyed(self.archetypes@)
        &&& forall|key: TypeKey| self.archetypes@.contains_key(key) <==> self.order@.contains(key)
        &&& self.ids@ == self@.live_ids()
        &&& self@.wf()
    }

    /// A well-formed storage holds a well-formed world.
    pub proof fn lemma_wf(&self)
        requires
            self.wf(),
        ensures
            self@.wf(),
    {
    }

    /// A storage without entities and without archetypes.
    pub fn new() -> (storage: Self)
        ensures
            storage.wf(),
            storage@ == WorldModel::<P>::empty(),
    {
        let storage = Storage {
            archetypes: HashMap::new(),
            order: Vec::new(),
            entities: Vec::new(),
            ids: HashSet::new(),
            detached: HashMap::new(),
            next_cell: 0,
        };
        assert(storage@.detached =~= Map::empty());
        assert(storage@.tables =~= Map::empty());
        assert(storage@.live_ids() =~= Set::empty());
        storage
    }

    /// The number of live entities.
    pub fn entity_len(&self) -> (len: usize)
        ensures
            len == self@.entities.len(),
    {
        self.entities.len()
    }

    /// The live entities, in the order in which they were spawned.
    pub fn entities(&self) -> (entities: &Vec<Entity>)
        ensures
            entities@ == self@.entities,
    {
        &self.entities
    }

    /// Whether `entity` is live.
    pub fn is_live(&self, entity: &Entity) -> (live: bool)
        requires
            self.wf(),
        ensures
            live == self@.is_live(*entity),
    {
        self.ids.contains(&entity.id)
    }

    /// The identity of an entity that is not live: `candidate` where no live
    /// entity has it, and otherwise the first identity after it that no live
    /// entity has.
    pub fn fresh_entity(&self, candidate: u128) -> (entity: Entity)
        requires
            self.wf(),
        ensures
            self@.is_first_free(candidate, entity.id),
    {
        let mut id = candidate;
        let mut steps: usize = 0;
        while self.ids.contains(&id)
            invariant
                self.wf(),
                steps <= self.entities.len(),
                id == probe(candidate, steps as int),
                forall|t: int|
                    0 <= t < steps ==> self@.live_ids().contains(#[trigger] probe(candidate, t)),
            decreases self.entities.len() - steps,
        {
            proof {
                lemma_probes_bounded(self@, candidate, (steps + 1) as nat);
            }
            id = if id == u128::MAX {
                0
            } else {
                id + 1
            };
            steps = steps + 1;
        }
        assert(self@.found_after(candidate, id, steps as int));
        Entity { id }
    }

    /// Takes the table of the component type `key` out of the map.
    fn take_table(&mut self, key: TypeKey) -> (table: ComponentArchetype<P>)
        requires
            old(self).archetypes@.contains_key(key),
        ensures
            table == old(self).archetypes@[key],
            final(self).archetypes@ == old(self).archetypes@.remove(key),
            final(self).order == old(self).order,
            final(self).entities == old(self).entities,
            final(self).ids == old(self).ids,
            final(self).detached == old(self).detached,
            final(self).next_cell == old(self).next_cell,
    {
        match self.archetypes.remove(&key) {
            Some(table) => table,
            None => ComponentArchetype::new(key, 0),
        }
    }

    /// Puts `table` into the map, under the component type that it stores.
    fn put_table(&mut self, table: ComponentArchetype<P>)
        ensures
            final(self).archetypes@ == old(self).archetypes@.insert(table.key, table),
            final(self).order == old(self).order,
            final(self).entities == old(self).entities,
            final(self).ids == old(self).ids,
            final(self).detached == old(self).detached,
            final(self).next_cell == old(self).next_cell,
    {
        self.archetypes.insert(table.key, table);
    }

    /// Where the table of one component type got other slots, the world got
    /// them under that type, and nothing else of the tables changed.
    proof fn lemma_table_put(&self, before: &Self, table: ComponentArchetype<P>)
        requires
            keyed(before.archetypes@),
            before.archetypes@.contains_key(table.key),
            self.archetypes@ == before.archetypes@.remove(table.key).insert(table.key, table),
            self.entities == before.entities,
        ensures
            keyed(self.archetypes@),
            forall|key: TypeKey|
                self.archetypes@.contains_key(key) <==> before.archetypes@.contains_key(key),
            self@.entities == before@.entities,
            self@.live_ids() == before@.live_ids(),
            self@.tables == before@.tables.insert(table.key, table.components@),
            table.components@ == before.archetypes@[table.key].components@ ==> self@.tables
                == before@.tables,
    {
        assert(self@.tables =~= before@.tables.insert(table.key, table.components@));
        if table.components@ == before.archetypes@[table.key].components@ {
            assert(self@.tables =~= before@.tables);
        }
    }

    /// The archetype table of the component type `key`, where it is registered.
    pub fn get_archetype(&self, key: TypeKey) -> (table: Option<&ComponentArchetype<P>>)
        requires
            self.wf(),
        ensures
            match table {
                Some(t) => self@.registered(key) && t.key() == key && t.slots()
                    == self@.tables[key],
                None => !self@.registered(key),
            },
    {
        self.archetypes.get(&key)
    }

    /// Whether `entity` holds a value of the component type `key`.
    pub fn has_component(&self, key: TypeKey, entity: &Entity) -> (has: bool)
        requires
            self.wf(),
        ensures
            has == self@.has_component(key, *entity),
    {
        match self.get_archetype(key) {
            Some(table) => table.get_component(entity, BorrowMode::Shared).is_some(),
            None => false,
        }
    }

    /// A handle, in `mode`, to the component of `entity` of the component
    /// type `key`, where the entity holds one. The handle takes a share of
    /// the cell: it goes on reaching the cell, whatever becomes of the
    /// entity and of its component, until it is let go.
    pub fn get_component(&mut self, key: TypeKey, entity: &Entity, mode: BorrowMode) -> (handle:
        Option<ComponentHandle>)
        requires
            old(self).wf(),
        ensures
            final(self).wf(),
            match handle {
                Some(h) => old(self)@.has_component(key, *entity) && h == old(self)@.handle(
                    key,
                    entity.id,
                    mode,
                ) && final(self)@ == old(self)@.hold(h),
                None => !old(self)@.has_component(key, *entity) && final(self)@ == old(self)@,
            },
    {
        let handle = match self.archetypes.get(&key) {
            Some(table) => table.get_component(entity, mode),
            None => None,
        };
        match handle {
            Some(h) => {
                self.hold(&h);
            },
            None => {},
        }
        handle
    }

    /// Registers the component type `key`: nothing happens where it has a
    /// table already; otherwise it gets a table with an empty slot for every
    /// live entity.
    pub fn new_archetype(&mut self, key: TypeKey)
        requires
            old(self).wf(),
        ensures
            final(self).wf(),
            final(self)@ == old(self)@.register(key),
    {
        if self.archetypes.contains_key(&key) {
            return ;
        }
        let mut table = ComponentArchetype::new(key, self.entities.len());
        let mut i: usize = 0;
        while i < self.entities.len()
            invariant
                i <= self.entities.len(),
                table.key == key,
                forall|id: u128|
                    table.components@.contains_key(id) <==> exists|j: int|
                        0 <= j < i && (#[trigger] self.entities[j]).id == id,
                forall|id: u128|
                    table.components@.contains_key(id) ==> #[trigger] table.components@[id] is None,
            decreases self.entities.len() - i,
        {
            table.add_entity(&self.entities[i]);
            i = i + 1;
        }
        proof {
            let filled = old(self)@.backfilled();
            assert forall|id: u128| table.components@.contains_key(id) <==> filled.contains_key(
                id,
            ) by {
                if table.components@.contains_key(id) {
                    let j = choose|j: int|
                        0 <= j < self.entities.len() && (#[trigger] self.entities[j]).id == id;
                    assert(self.entities@[j] == Entity { id });
                }
                if self.entities@.contains(Entity { id }) {
                    let j = choose|j: int|
                        0 <= j < self.entities.len() && self.entities@[j] == Entity { id };
                    assert(self.entities[j].id == id);
                }
            }
            assert(table.components@ =~= filled);
        }
        self.archetypes.insert(key, table);
        self.order.push(key);
        proof {
            assert(self@.tables =~= old(self)@.register(key).tables);
            assert forall|k: TypeKey|
                self.archetypes@.contains_key(k) <==> self.order@.contains(k) by {
                if old(self).order@.contains(k) {
                    let j = choose|j: int|
                        0 <= j < old(self).order@.len() && old(self).order@[j] == k;
                    assert(self.order@[j] == k);
                }
                if k == key {
                    assert(self.order@[old(self).order@.len() as int] == k);
                }
                if self.order@.contains(k) && k != key {
                    let j = choose|j: int| 0 <= j < self.order@.len() && self.order@[j] == k;
                    assert(old(self).order@[j] == k);
                }
            }
            law_register_keeps_invariant(old(self)@, key);
        }
    }

    /// Writes `component` as the value of `entity` for the component type
    /// `key`, in a new cell. The cell of an earlier value is detached: the
    /// handles that reached it go on reaching it. The type must be
    /// registered and the entity must have a slot in its table.
    pub fn insert_component(&mut self, entity: &Entity, key: TypeKey, component: P) -> (done:
        Result<(), EcsError>)
        requires
            old(self).wf(),
        ensures
            final(self).wf(),
            match old(self)@.insert(*entity, key, component) {
                Ok(after) => done is Ok && final(self)@ == after,
                Err(e) => done == Err::<(), EcsError>(e) && final(self)@ == old(self)@,
            },
    {
        match self.archetypes.get(&key) {
            None => {
                return Err(EcsError::UnregisteredArchetype);
            },
            Some(table) => {
                if !table.components.contains_key(&entity.id) {
                    return Err(EcsError::MissingSlot);
                }
            },
        }
        if self.next_cell == CellId::MAX {
            return Err(EcsError::CellsExhausted);
        }
        let mut table = self.take_table(key);
        let replaced = table.set_component(entity, key, self.next_cell, component);
        self.put_table(table);
        self.next_cell = self.next_cell + 1;
        match replaced {
            Ok(Some(cell)) => {
                if cell.is_kept() {
                    self.detached.insert(cell.id, cell);
                }
            },
            _ => {},
        }
        proof {
            self.lemma_table_put(old(self), table);
            assert(self@.detached =~= old(self)@.insert(*entity, key, component)->Ok_0.detached);
            law_insert_keeps_invariant(old(self)@, *entity, key, component);
        }
        Ok(())
    }

    /// Takes the value of `entity` for the component type `key` away. The
    /// slot stays, the entity keeps its other components, and the cell is
    /// detached: the handles that reached it go on reaching it.
    pub fn remove_component(&mut self, entity: &Entity, key: TypeKey)
        requires
            old(self).wf(),
        ensures
            final(self).wf(),
            final(self)@ == old(self)@.remove(*entity, key),
    {
        if !self.archetypes.contains_key(&key) {
            return ;
        }
        let mut table = self.take_table(key);
        let removed = table.remove(entity);
        self.put_table(table);
        match removed {
            Some(cell) => {
                if cell.is_kept() {
                    self.detached.insert(cell.id, cell);
                }
            },
            None => {},
        }
        proof {
            self.lemma_table_put(old(self), table);
            assert(self@.detached =~= old(self)@.remove(*entity, key).detached);
            assert(self@.tables =~= old(self)@.remove(*entity, key).tables);
            law_remove_keeps_invariant(old(self)@, *entity, key);
        }
    }

    /// Where `handle` reaches its cell.
    fn locate(&self, handle: &ComponentHandle) -> (place: Place)
        requires
            self.wf(),
        ensures
            match place {
                Place::Attached => self@.attached(*handle),
                Place::Detached => !self@.attached(*handle) && self@.detached.contains_key(
                    handle.cell,
                ),
                Place::Missing(e) => self@.cell(*handle) == Err::<StorageCell<P>, EcsError>(e),
            },
    {
        let found = self.archetypes.get(&handle.key);
        match found {
            Some(table) => {
                match table.get_component_with_id(&handle.entity.id, handle.mode) {
                    Some(attached) => {
                        if attached.cell == handle.cell {
                            return Place::Attached;
                        }
                    },
                    None => {},
                }
            },
            None => {},
        }
        if self.detached.contains_key(&handle.cell) {
            return Place::Detached;
        }
        match found {
            None => Place::Missing(EcsError::UnregisteredArchetype),
            Some(table) => if table.components.contains_key(&handle.entity.id) {
                Place::Missing(EcsError::AbsentComponent)
            } else {
                Place::Missing(EcsError::MissingSlot)
            },
        }
    }

    /// Does `access` to the cell that `handle` reaches.
    fn update(&mut self, handle: &ComponentHandle, access: Access<P>) -> (done: Result<
        (),
        EcsError,
    >)
        requires
            old(self).wf(),
        ensures
            final(self).wf(),
            match old(self)@.cell(*handle) {
                Err(e) => done == Err::<(), EcsError>(e) && final(self)@ == old(self)@,
                Ok(cell) => match access.applied(cell) {
                    Err(e) => done == Err::<(), EcsError>(e) && final(self)@ == old(self)@,
                    Ok(after) => done is Ok && final(self)@ == old(self)@.with_cell(
                        *handle,
                        after,
                    ),
                },
            },
    {
        match self.locate(handle) {
            Place::Missing(e) => Err(e),
            Place::Attached => {
                let id = handle.entity.id;
                let mut table = self.take_table(handle.key);
                let done = match table.components.remove(&id) {
                    Some(Some(cell)) => {
                        let mut cell = cell;
                        let done = access.apply(&mut cell);
                        table.components.insert(id, Some(cell));
                        assert(table.components@ =~= old(
                            self,
                        ).archetypes@[handle.key].components@.insert(id, Some(cell)));
                        assert(done is Err ==> table.components@ =~= old(
                            self,
                        ).archetypes@[handle.key].components@);
                        done
                    },
                    _ => Err(EcsError::AbsentComponent),
                };
                self.put_table(table);
                proof {
                    self.lemma_table_put(old(self), table);
                    let cell = old(self)@.cell(*handle)->Ok_0;
                    if access.applied(cell) is Ok {
                        law_update_keeps_invariant(
                            old(self)@,
                            *handle,
                            access.applied(cell)->Ok_0,
                        );
                    }
                }
                done
            },
            Place::Detached => {
                match self.detached.remove(&handle.cell) {
                    None => Err(EcsError::MissingSlot),
                    Some(cell) => {
                        let mut cell = cell;
                        let done = access.apply(&mut cell);
                        if cell.is_kept() {
                            self.detached.insert(handle.cell, cell);
                        }
                        proof {
                            if done is Err {
                                assert(self.detached@ =~= old(self).detached@);
                            } else {
                                assert(self.detached@ =~= old(self)@.with_cell(
                                    *handle,
                                    cell,
                                ).detached);
                                law_update_keeps_invariant(old(self)@, *handle, cell);
                            }
                        }
                        done
                    },
                }
            },
        }
    }

    /// Lets one more handle take a share of the cell that `handle` reaches.
    /// Nothing changes where it reaches none.
    pub fn hold(&mut self, handle: &ComponentHandle)
        requires
            old(self).wf(),
        ensures
            final(self).wf(),
            final(self)@ == old(self)@.hold(*handle),
    {
        let _ = self.update(handle, Access::Hold);
    }

    /// Lets the share of one handle in the cell that `handle` reaches go.
    /// A detached cell that nobody has a share of any more is dropped.
    /// Nothing changes where the handle reaches no cell.
    pub fn let_go(&mut self, handle: &ComponentHandle)
        requires
            old(self).wf(),
        ensures
            final(self).wf(),
            final(self)@ == old(self)@.let_go(*handle),
    {
        let _ = self.update(handle, Access::LetGo);
    }

    /// Registers one more borrow of the cell that `handle` reaches, in the
    /// mode of the handle. The borrow is refused where it conflicts with one
    /// that is outstanding.
    pub fn borrow(&mut self, handle: &ComponentHandle) -> (done: Result<(), EcsError>)
        requires
            old(self).wf(),
        ensures
            final(self).wf(),
            match old(self)@.borrow(*handle) {
                Ok(after) => done is Ok && final(self)@ == after,
                Err(e) => done == Err::<(), EcsError>(e) && final(self)@ == old(self)@,
            },
    {
        self.update(handle, Access::Borrow(handle.mode))
    }

    /// Returns one borrow of the cell that `handle` reaches, in the mode of
    /// the handle.
    pub fn release(&mut self, handle: &ComponentHandle) -> (done: Result<(), EcsError>)
        requires
            old(self).wf(),
        ensures
            final(self).wf(),
            match old(self)@.release(*handle) {
                Ok(after) => done is Ok && final(self)@ == after,
                Err(e) => done == Err::<(), EcsError>(e) && final(self)@ == old(self)@,
            },
    {
        self.update(handle, Access::Release(handle.mode))
    }

    /// The value of the cell that `handle` reaches, for the holder of a
    /// borrow in the mode of the handle.
    pub fn read(&self, handle: &ComponentHandle) -> (value: Result<&P, EcsError>)
        requires
            self.wf(),
        ensures
            match self@.read(*handle) {
                Ok(v) => value == Ok::<&P, EcsError>(&v),
                Err(e) => value == Err::<&P, EcsError>(e),
            },
    {
        match self.locate(handle) {
            Place::Missing(e) => Err(e),
            Place::Attached => match self.archetypes.get(&handle.key) {
                Some(table) => table.read(handle.entity.id, handle.mode),
                None => Err(EcsError::UnregisteredArchetype),
            },
            Place::Detached => match self.detached.get(&handle.cell) {
                Some(cell) => cell.read(handle.mode),
                None => Err(EcsError::MissingSlot),
            },
        }
    }

    /// Replaces the value of the cell that `handle` reaches, for the holder
    /// of the exclusive borrow. The borrow stays outstanding.
    pub fn write(&mut self, handle: &ComponentHandle, value: P) -> (done: Result<(), EcsError>)
        requires
            old(self).wf(),
        ensures
            final(self).wf(),
            match old(self)@.write(*handle, value) {
                Ok(after) => done is Ok && final(self)@ == after,
                Err(e) => done == Err::<(), EcsError>(e) && final(self)@ == old(self)@,
            },
    {
        if handle.mode != BorrowMode::Exclusive {
            return match self.locate(handle) {
                Place::Missing(e) => Err(e),
                _ => Err(EcsError::AliasingViolation),
            };
        }
        self.update(handle, Access::Write(value))
    }

    /// Kills `entity`: it leaves the live entities, and its slot leaves
    /// every table. The other entities keep their order. The cells of the
    /// entity are detached: the handles that reached them go on reaching
    /// them.
    pub fn kill(&mut self, entity: &Entity)
        requires
            old(self).wf(),
        ensures
            final(self).wf(),
            final(self)@ == old(self)@.kill(*entity),
    {
        let mut i: usize = 0;
        while i < self.order.len()
            invariant
                i <= self.order.len(),
                old(self).wf(),
                self.order == old(self).order,
                self.entities == old(self).entities,
                self.ids == old(self).ids,
                self.next_cell == old(self).next_cell,
                forall|key: TypeKey|
                    self.archetypes@.contains_key(key) <==> old(self).archetypes@.contains_key(
                        key,
                    ),
                forall|key: TypeKey|
                    self.archetypes@.contains_key(key) ==> (#[trigger] self.archetypes@[key]).key
                        == key && self.archetypes@[key].components@ == (if seen(
                        self.order@,
                        i as int,
                        key,
                    ) {
                        old(self).archetypes@[key].components@.remove(entity.id)
                    } else {
                        old(self).archetypes@[key].components@
                    }),
                forall|c: CellId|
                    old(self).detached@.contains_key(c) ==> self.detached@.contains_key(c)
                        && self.detached@[c] == old(self).detached@[c],
                forall|key: TypeKey|
                    seen(self.order@, i as int, key) && #[trigger] old(self)@.shares(
                        key,
                        entity.id,
                        old(self).archetypes@[key].components@[entity.id]->0.id,
                    ) ==> self.detached@.contains_key(
                        old(self).archetypes@[key].components@[entity.id]->0.id,
                    ) && self.detached@[old(self).archetypes@[key].components@[entity.id]->0.id]
                        == old(self).archetypes@[key].components@[entity.id]->0,
                forall|c: CellId|
                    self.detached@.contains_key(c) ==> old(self).detached@.contains_key(c)
                        || exists|key: TypeKey|
                        seen(self.order@, i as int, key) && #[trigger] old(self)@.shares(
                            key,
                            entity.id,
                            c,
                        ),
            decreases self.order.len() - i,
        {
            let key = self.order[i];
            proof {
                lemma_seen_step(self.order@, i as int);
                assert(self.order@.contains(key));
            }
            let ghost visited = seen(self.order@, i as int, key);
            let mut table = self.take_table(key);
            let removed = table.kill(entity);
            self.put_table(table);
            assert(self.archetypes@ =~= self.archetypes@.remove(key).insert(key, table));
            match removed {
                Some(cell) => {
                    proof {
                        assert(!visited);
                        assert(old(self)@.holds(key, entity.id, cell.id));
                    }
                    if cell.is_kept() {
                        assert(old(self)@.shares(key, entity.id, cell.id));
                        self.detached.insert(cell.id, cell);
                    }
                },
                None => {},
            }
            i = i + 1;
        }
        let mut kept: Vec<Entity> = Vec::new();
        let mut k: usize = 0;
        while k < self.entities.len()
            invariant
                k <= self.entities.len(),
                self.entities == old(self).entities,
                kept@ == self.entities@.take(k as int).filter(other_than(*entity)),
            decreases self.entities.len() - k,
        {
            proof {
                assert(self.entities@.take(k + 1) =~= self.entities@.take(k as int).push(
                    self.entities@[k as int],
                ));
                self.entities@.take(k as int).lemma_filter_push(
                    self.entities@[k as int],
                    other_than(*entity),
                );
            }
            if self.entities[k] != *entity {
                kept.push(self.entities[k]);
            }
            k = k + 1;
        }
        proof {
            assert(self.entities@.take(self.entities.len() as int) =~= self.entities@);
        }
        self.entities = kept;
        self.ids.remove(&entity.id);
        proof {
            assert forall|key: TypeKey| self.archetypes@.contains_key(key) implies seen(
                self.order@,
                self.order@.len() as int,
                key,
            ) by {
                assert(self.order@.contains(key));
            }
            assert(self@.tables =~= old(self)@.kill(*entity).tables);
            let expected = old(self)@.detached_with(entity.id);
            assert forall|c: CellId| self.detached@.contains_key(c) <==> expected.contains_key(
                c,
            ) by {
                if exists|key: TypeKey| old(self)@.shares(key, entity.id, c) {
                    let key = choose|key: TypeKey| old(self)@.shares(key, entity.id, c);
                    assert(seen(self.order@, self.order@.len() as int, key));
                }
            }
            assert forall|c: CellId| expected.contains_key(c) implies self.detached@[c]
                == expected[c] by {
                if !old(self).detached@.contains_key(c) {
                    let key = choose|key: TypeKey| old(self)@.shares(key, entity.id, c);
                    assert(seen(self.order@, self.order@.len() as int, key));
                }
            }
            assert(self@.detached =~= expected);
            law_kill_keeps_invariant(old(self)@, *entity);
        }
    }

    /// Spawns `entity` with the payloads `components`: every table gets a
    /// slot for the entity, then each payload is written to the table of its
    /// component type, in the order given, and the entity becomes the last
    /// of the live ones. Nothing happens where the entity is live already,
    /// a payload is of a component type that is not registered, or the cell
    /// identities do not suffice.
    pub fn spawn(&mut self, entity: Entity, components: Vec<(TypeKey, P)>) -> (done: Result<
        (),
        EcsError,
    >)
        requires
            old(self).wf(),
        ensures
            final(self).wf(),
            match old(self)@.spawn_error(entity, components@) {
                Some(e) => done == Err::<(), EcsError>(e) && final(self)@ == old(self)@,
                None => done is Ok && final(self)@ == old(self)@.spawn(entity, components@),
            },
    {
        if self.is_live(&entity) {
            return Err(EcsError::DuplicateEntity);
        }
        let mut n: usize = 0;
        while n < components.len()
            invariant
                n <= components.len(),
                *self == *old(self),
                self.wf(),
                !self@.is_live(entity),
                forall|m: int|
                    0 <= m < n ==> self.archetypes@.contains_key((#[trigger] components[m]).0),
            decreases components.len() - n,
        {
            if !self.archetypes.contains_key(&components[n].0) {
                assert(!old(self)@.registered(components@[n as int].0));
                return Err(EcsError::UnregisteredArchetype);
            }
            n = n + 1;
        }
        if components.len() as u64 > CellId::MAX - self.next_cell {
            return Err(EcsError::CellsExhausted);
        }
        assert(old(self)@.spawn_error(entity, components@) is None);
        let mut i: usize = 0;
        while i < self.order.len()
            invariant
                i <= self.order.len(),
                old(self).wf(),
                !old(self)@.is_live(entity),
                self.order == old(self).order,
                self.entities == old(self).entities,
                self.ids == old(self).ids,
                self.detached == old(self).detached,
                self.next_cell == old(self).next_cell,
                forall|key: TypeKey|
                    self.archetypes@.contains_key(key) <==> old(self).archetypes@.contains_key(
                        key,
                    ),
                forall|key: TypeKey|
                    self.archetypes@.contains_key(key) ==> (#[trigger] self.archetypes@[key]).key
                        == key && self.archetypes@[key].components@ == (if seen(
                        self.order@,
                        i as int,
                        key,
                    ) {
                        old(self).archetypes@[key].components@.insert(entity.id, None)
                    } else {
                        old(self).archetypes@[key].components@
                    }),
            decreases self.order.len() - i,
        {
            let key = self.order[i];
            proof {
                lemma_seen_step(self.order@, i as int);
                assert(self.order@.contains(key));
                assert(old(self).archetypes@.contains_key(key));
                assert(old(self)@.tables.contains_key(key));
                assert(old(self)@.tables[key].dom() == old(self)@.live_ids());
                assert(!old(self).archetypes@[key].components@.contains_key(entity.id));
            }
            let mut table = self.take_table(key);
            table.add_entity(&entity);
            self.put_table(table);
            assert(self.archetypes@ =~= self.archetypes@.remove(key).insert(key, table));
            i = i + 1;
        }
        proof {
            assert forall|key: TypeKey| self.archetypes@.contains_key(key) implies seen(
                self.order@,
                self.order@.len() as int,
                key,
            ) by {
                assert(self.order@.contains(key));
            }
        }
        let ghost staged = components@;
        let mut given: CellId = 0;
        for pair in it: components.into_iter()
            invariant
                it.seq() == staged,
                given == it.index(),
                old(self).next_cell + staged.len() <= CellId::MAX,
                forall|m: int|
                    0 <= m < staged.len() ==> old(self).archetypes@.contains_key(
                        (#[trigger] staged[m]).0,
                    ),
                self.order == old(self).order,
                self.entities == old(self).entities,
                self.ids == old(self).ids,
                self.detached == old(self).detached,
                self.next_cell == old(self).next_cell,
                forall|key: TypeKey|
                    self.archetypes@.contains_key(key) <==> old(self).archetypes@.contains_key(
                        key,
                    ),
                forall|key: TypeKey|
                    self.archetypes@.contains_key(key) ==> (#[trigger] self.archetypes@[key]).key
                        == key && self.archetypes@[key].components@ == old(
                        self,
                    ).archetypes@[key].components@.insert(
                        entity.id,
                        staged_slot(staged.take(it.index()), key, old(self).next_cell),
                    ),
        {
            let ghost done = it.index();
            let (key, component) = pair;
            proof {
                assert(staged.take(done + 1).drop_last() =~= staged.take(done as int));
                assert(staged.take(done + 1).last() == staged[done as int]);
                assert(self.archetypes@.contains_key(staged[done as int].0));
            }
            let mut table = self.take_table(key);
            let written = table.set_component(&entity, key, self.next_cell + given, component);
            assert(written is Ok);
            self.put_table(table);
            assert(self.archetypes@ =~= self.archetypes@.remove(key).insert(key, table));
            assert(table.components@ =~= old(self).archetypes@[key].components@.insert(
                entity.id,
                Some(StorageCell::fresh((old(self).next_cell + done) as CellId, component)),
            ));
            given = given + 1;
        }
        self.entities.push(entity);
        self.ids.insert(entity.id);
        self.next_cell = self.next_cell + given;
        proof {
            assert(staged.take(staged.len() as int) =~= staged);
            assert(self@.tables =~= old(self)@.spawn(entity, staged).tables);
            law_spawn_keeps_invariant(old(self)@, entity, staged);
        }
        Ok(())
    }
}

} // verus!
