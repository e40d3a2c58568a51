//! The mathematical model of a world: the live entities in spawn order and,
//! for each registered component type, the slots of its archetype table.
//!
//! Every operation of the storage and of the world is specified as a
//! function on this model.

use vstd::prelude::*;
use crate::cell::{BorrowMode, CellId, StorageCell};
use crate::entity::{ComponentHandle, Entity, TypeKey};
use crate::error::EcsError;
use crate::archetype::{occupied, Slots};

verus! {

/// One requested component of a query: its type and how it is to be borrowed.
pub type Request = (TypeKey, BorrowMode);

/// What a world holds.
pub struct WorldModel<P> {
    /// The live entities, in the order in which they were spawned.
    pub entities: Seq<Entity>,
    /// The slots of the archetype table of each registered component type.
    pub tables: Map<TypeKey, Slots<P>>,
    /// The cells that left their table, by a kill, an overwrite or a
    /// removal, and are kept for the handles that hold them and for the
    /// borrows that are outstanding on them.
    pub detached: Map<CellId, StorageCell<P>>,
    /// The identity that the next cell gets. Every cell of the world has a
    /// smaller one.
    pub next_cell: CellId,
}

/// Whether two slots hold the same: both nothing, or both a cell of the
/// same identity with the same value and the same borrows.
pub open spec fn same_slot<P>(one: Option<StorageCell<P>>, other: Option<StorageCell<P>>) -> bool {
    match (one, other) {
        (None, None) => true,
        (Some(a), Some(b)) => a.id == b.id && a.value == b.value && a.state == b.state,
        _ => false,
    }
}

/// The predicate that holds of every entity but `entity`.
pub open spec fn other_than(entity: Entity) -> spec_fn(Entity) -> bool {
    |e: Entity| e != entity
}

/// The slot that a freshly spawned entity gets in the table of `key`: the
/// last payload staged under `key`, or no value where none was staged. The
/// payloads get the cell identities from `first` on, in their order.
pub open spec fn staged_slot<P>(staged: Seq<(TypeKey, P)>, key: TypeKey, first: CellId) -> Option<
    StorageCell<P>,
>
    decreases staged.len(),
{
    if staged.len() == 0 {
        None
    } else if staged.last().0 == key {
        Some(StorageCell::fresh((first + staged.len() - 1) as CellId, staged.last().1))
    } else {
        staged_slot(staged.drop_last(), key, first)
    }
}

/// The identity that is probed after `steps` steps from `candidate`: the
/// identities are walked upwards, and from the last one on to the first.
pub open spec fn probe(candidate: u128, steps: int) -> u128 {
    ((candidate + steps) % 0x1_0000_0000_0000_0000_0000_0000_0000_0000int) as u128
}


impl<P> WorldModel<P> {
    /// The world without entities and without archetypes.
    pub open spec fn empty() -> Self {
        WorldModel {
            entities: Seq::empty(),
            tables: Map::empty(),
            detached: Map::empty(),
            next_cell: 0,
        }
    }

    /// Whether `entity` is live.
    pub open spec fn is_live(self, entity: Entity) -> bool {
        self.entities.contains(entity)
    }

    /// The identities of the live entities.
    pub open spec fn live_ids(self) -> Set<u128> {
        Set::new(|id: u128| self.entities.contains(Entity { id }))
    }

    /// Whether the search for a free identity from `candidate` ends at `id`
    /// after `steps` steps: `id` is not live, and every identity probed
    /// before it is.
    pub open spec fn found_after(self, candidate: u128, id: u128, steps: int) -> bool {
        &&& 0 <= steps
        &&& id == probe(candidate, steps)
        &&& !self.live_ids().contains(id)
        &&& forall|t: int|
            0 <= t < steps ==> self.live_ids().contains(#[trigger] probe(candidate, t))
    }

    /// Whether `id` is the first identity from `candidate` on that no live
    /// entity has.
    pub open spec fn is_first_free(self, candidate: u128, id: u128) -> bool {
        exists|steps: int| self.found_after(candidate, id, steps)
    }

    /// Whether the component type `key` has an archetype table.
    pub open spec fn registered(self, key: TypeKey) -> bool {
        self.tables.contains_key(key)
    }

    /// Whether `entity` holds a value of the component type `key`.
    pub open spec fn has_component(self, key: TypeKey, entity: Entity) -> bool {
        self.registered(key) && occupied(self.tables[key], entity.id)
    }

    /// The handle, in `mode`, to the component of the entity with identity
    /// `id` in the table of `key`; meaningful where the entity holds one.
    pub open spec fn handle(self, key: TypeKey, id: u128, mode: BorrowMode) -> ComponentHandle {
        ComponentHandle { entity: Entity { id }, key, mode, cell: self.tables[key][id]->0.id }
    }

    /// The handles that a query of `shape` yields for `entity`, one for each
    /// request, in the order of the requests.
    pub open spec fn handles_for(self, shape: Seq<Request>, entity: Entity) -> Seq<
        ComponentHandle,
    > {
        Seq::new(shape.len(), |i: int| self.handle(shape[i].0, entity.id, shape[i].1))
    }

    /// The bundle that a query of `shape` yields for each matching entity.
    pub open spec fn bundle_for(self, shape: Seq<Request>) -> spec_fn(Entity) -> (
        u128,
        Seq<ComponentHandle>,
    ) {
        |e: Entity| (e.id, self.handles_for(shape, e))
    }

    /// Whether the cell with identity `cell` is in the slot of `id` in the
    /// table of `key`.
    pub open spec fn holds(self, key: TypeKey, id: u128, cell: CellId) -> bool {
        &&& self.tables.contains_key(key)
        &&& occupied(self.tables[key], id)
        &&& self.tables[key][id]->0.id == cell
    }

    /// The invariant of the cells: every cell has an identity below the
    /// next one, a detached cell is kept under its own identity, and no two
    /// cells of the world share an identity.
    pub open spec fn cells_wf(self) -> bool {
        &&& forall|key: TypeKey, id: u128|
            self.tables.contains_key(key) && occupied(#[trigger] self.tables[key], id) ==> {
                &&& (#[trigger] self.tables[key][id])->0.id < self.next_cell
                &&& !self.detached.contains_key(self.tables[key][id]->0.id)
            }
        &&& forall|cell: CellId| #[trigger]
            self.detached.contains_key(cell) ==> {
                &&& cell < self.next_cell
                &&& self.detached[cell].id == cell
                &&& self.detached[cell].state.wf()
                &&& self.detached[cell].kept()
            }
        &&& forall|key: TypeKey, id: u128, other_key: TypeKey, other_id: u128|
            #![trigger self.tables[key][id], self.tables[other_key][other_id]]
            self.tables.contains_key(key) && occupied(self.tables[key], id)
                && self.tables.contains_key(other_key) && occupied(
                self.tables[other_key],
                other_id,
            ) && self.tables[key][id]->0.id == self.tables[other_key][other_id]->0.id ==> key
                == other_key && id == other_id
    }

    /// The invariant of a world: no entity is live twice, every table has
    /// exactly one slot for each live entity and for nothing else, the
    /// borrow state of every cell is well formed, and the cells are told
    /// apart by their identities.
    pub open spec fn wf(self) -> bool {
        &&& self.entities.no_duplicates()
        &&& forall|key: TypeKey| #[trigger]
            self.tables.contains_key(key) ==> self.tables[key].dom() == self.live_ids()
        &&& forall|key: TypeKey, id: u128|
            self.tables.contains_key(key) && occupied(#[trigger] self.tables[key], id)
                ==> (#[trigger] self.tables[key][id])->0.state.wf()
        &&& self.cells_wf()
    }

    /// The table of a newly registered component type: an empty slot for
    /// every live entity.
    pub open spec fn backfilled(self) -> Slots<P> {
        Map::new(|id: u128| self.live_ids().contains(id), |id: u128| None)
    }

    /// The world after the component type `key` was registered.
    pub open spec fn register(self, key: TypeKey) -> Self {
        if self.registered(key) {
            self
        } else {
            self.with_table(key, self.backfilled())
        }
    }

    /// What stands in the way of spawning `entity` with the payloads `staged`.
    pub open spec fn spawn_error(self, entity: Entity, staged: Seq<(TypeKey, P)>) -> Option<
        EcsError,
    > {
        if self.is_live(entity) {
            Some(EcsError::DuplicateEntity)
        } else if exists|i: int| 0 <= i < staged.len() && !self.registered(#[trigger] staged[i].0) {
            Some(EcsError::UnregisteredArchetype)
        } else if self.next_cell + staged.len() > CellId::MAX {
            Some(EcsError::CellsExhausted)
        } else {
            None
        }
    }

    /// The world after `entity` was spawned with the payloads `staged`:
    /// the entity is the last of the live ones, and every table has a slot
    /// for it, which holds the last payload staged for that table, if any.
    pub open spec fn spawn(self, entity: Entity, staged: Seq<(TypeKey, P)>) -> Self {
        WorldModel {
            entities: self.entities.push(entity),
            tables: Map::new(
                |key: TypeKey| self.tables.contains_key(key),
                |key: TypeKey|
                    self.tables[key].insert(entity.id, staged_slot(staged, key, self.next_cell)),
            ),
            detached: self.detached,
            next_cell: (self.next_cell + staged.len()) as CellId,
        }
    }

    /// Whether the cell with identity `cell` is in the slot of `id` in the
    /// table of `key`, and somebody besides the table has a share of it.
    pub open spec fn shares(self, key: TypeKey, id: u128, cell: CellId) -> bool {
        self.holds(key, id, cell) && self.tables[key][id]->0.kept()
    }

    /// The detached cells after the cells of the entity with identity `id`
    /// left their tables: those that were detached before, and those of
    /// these that somebody besides the table has a share of.
    pub open spec fn detached_with(self, id: u128) -> Map<CellId, StorageCell<P>> {
        Map::new(
            |cell: CellId|
                self.detached.contains_key(cell) || exists|key: TypeKey|
                    self.shares(key, id, cell),
            |cell: CellId|
                if self.detached.contains_key(cell) {
                    self.detached[cell]
                } else {
                    self.tables[choose|key: TypeKey| self.shares(key, id, cell)][id]->0
                },
        )
    }

    /// The world after `entity` was killed: it is no longer live, and no
    /// table has a slot for it. Those of its cells that a handle holds or
    /// that are borrowed are detached, not dropped: the handle goes on
    /// reaching its cell.
    pub open spec fn kill(self, entity: Entity) -> Self {
        WorldModel {
            entities: self.entities.filter(other_than(entity)),
            tables: Map::new(
                |key: TypeKey| self.tables.contains_key(key),
                |key: TypeKey| self.tables[key].remove(entity.id),
            ),
            detached: self.detached_with(entity.id),
            next_cell: self.next_cell,
        }
    }

    /// The world with other slots in the table of `key`.
    pub open spec fn with_table(self, key: TypeKey, slots: Slots<P>) -> Self {
        WorldModel {
            entities: self.entities,
            tables: self.tables.insert(key, slots),
            detached: self.detached,
            next_cell: self.next_cell,
        }
    }

    /// The world with one more detached cell: the one that `slot` held, if
    /// it held one that somebody besides the table has a share of.
    pub open spec fn with_detached(self, slot: Option<StorageCell<P>>) -> Self {
        match slot {
            Some(cell) if cell.kept() => WorldModel {
                entities: self.entities,
                tables: self.tables,
                detached: self.detached.insert(cell.id, cell),
                next_cell: self.next_cell,
            },
            _ => self,
        }
    }

    /// The world after `component` was written as the value of `entity` for
    /// the component type `key`, or why it cannot be written. The value is
    /// held by a new cell; the cell of an earlier value is detached.
    pub open spec fn insert(self, entity: Entity, key: TypeKey, component: P) -> Result<
        Self,
        EcsError,
    > {
        if !self.registered(key) {
            Err(EcsError::UnregisteredArchetype)
        } else if !self.tables[key].contains_key(entity.id) {
            Err(EcsError::MissingSlot)
        } else if self.next_cell == CellId::MAX {
            Err(EcsError::CellsExhausted)
        } else {
            Ok(
                WorldModel {
                    entities: self.entities,
                    tables: self.tables.insert(
                        key,
                        self.tables[key].insert(
                            entity.id,
                            Some(StorageCell::fresh(self.next_cell, component)),
                        ),
                    ),
                    detached: self.with_detached(self.tables[key][entity.id]).detached,
                    next_cell: (self.next_cell + 1) as CellId,
                },
            )
        }
    }

    /// The world after the value of `entity` for the component type `key`
    /// was taken away; the slot stays, and the cell is detached.
    pub open spec fn remove(self, entity: Entity, key: TypeKey) -> Self {
        if self.registered(key) && self.tables[key].contains_key(entity.id) {
            self.with_detached(self.tables[key][entity.id]).with_table(
                key,
                self.tables[key].insert(entity.id, None),
            )
        } else {
            self
        }
    }

    /// Whether the cell that `handle` names is in the slot that the handle
    /// was made for.
    pub open spec fn attached(self, handle: ComponentHandle) -> bool {
        self.holds(handle.key, handle.entity.id, handle.cell)
    }

    /// Why `handle` reaches no cell, where it reaches none.
    pub open spec fn missing(self, handle: ComponentHandle) -> EcsError {
        if !self.registered(handle.key) {
            EcsError::UnregisteredArchetype
        } else if !self.tables[handle.key].contains_key(handle.entity.id) {
            EcsError::MissingSlot
        } else {
            EcsError::AbsentComponent
        }
    }

    /// The cell that `handle` reaches: the one in its slot, where that is
    /// the cell that the handle names, and else the detached cell of that
    /// identity.
    pub open spec fn cell(self, handle: ComponentHandle) -> Result<StorageCell<P>, EcsError> {
        if self.attached(handle) {
            Ok(self.tables[handle.key][handle.entity.id]->0)
        } else if self.detached.contains_key(handle.cell) {
            Ok(self.detached[handle.cell])
        } else {
            Err(self.missing(handle))
        }
    }

    /// Whether `other` has the same live entities and the same tables with
    /// the same values and borrows: the two worlds differ at most in who
    /// holds a share of which cell, and in the detached cells.
    pub open spec fn same_contents(self, other: Self) -> bool {
        &&& self.entities == other.entities
        &&& self.next_cell == other.next_cell
        &&& self.tables.dom() == other.tables.dom()
        &&& forall|key: TypeKey| #[trigger]
            self.tables.contains_key(key) ==> self.tables[key].dom() == other.tables[key].dom()
        &&& forall|key: TypeKey, id: u128|
            self.tables.contains_key(key) && self.tables[key].contains_key(id) ==> same_slot(
                #[trigger] self.tables[key][id],
                other.tables[key][id],
            )
    }

    /// Whether every handle that holds a cell in this world, or through
    /// which the cell is borrowed, reaches the same cell in `after`, with its
    /// value, its borrows and its holders.
    pub open spec fn keeps_held(self, after: Self) -> bool {
        forall|handle: ComponentHandle|
            (#[trigger] self.cell(handle)) matches Ok(cell) && cell.kept() ==> after.cell(handle)
                == self.cell(handle)
    }

    /// Whether every handle of `bundles` reaches a cell that is kept for it.
    pub open spec fn keeps_all(self, bundles: Seq<(u128, Seq<ComponentHandle>)>) -> bool {
        forall|i: int, j: int|
            0 <= i < bundles.len() && 0 <= j < bundles[i].1.len() ==> (self.cell(
                #[trigger] bundles[i].1[j],
            ) matches Ok(cell) && cell.kept())
    }

    /// The world with `cell` in the place of the cell that `handle` reaches.
    pub open spec fn with_cell(self, handle: ComponentHandle, cell: StorageCell<P>) -> Self {
        if self.attached(handle) {
            self.with_table(
                handle.key,
                self.tables[handle.key].insert(handle.entity.id, Some(cell)),
            )
        } else {
            WorldModel {
                entities: self.entities,
                tables: self.tables,
                detached: if cell.kept() {
                    self.detached.insert(handle.cell, cell)
                } else {
                    self.detached.remove(handle.cell)
                },
                next_cell: self.next_cell,
            }
        }
    }

    /// The world after one more handle took a share of the cell that
    /// `handle` reaches; nothing changes where it reaches none.
    pub open spec fn hold(self, handle: ComponentHandle) -> Self {
        match self.cell(handle) {
            Err(_) => self,
            Ok(cell) => self.with_cell(handle, cell.held()),
        }
    }

    /// The world after a handle let its share of the cell that `handle`
    /// reaches go. A detached cell that nobody has a share of any more is
    /// dropped.
    pub open spec fn let_go(self, handle: ComponentHandle) -> Self {
        match self.cell(handle) {
            Err(_) => self,
            Ok(cell) => self.with_cell(handle, cell.let_go()),
        }
    }

    /// The world after each of `handles` took a share of its cell, one
    /// after the other.
    pub open spec fn hold_all(self, handles: Seq<ComponentHandle>) -> Self
        decreases handles.len(),
    {
        if handles.len() == 0 {
            self
        } else {
            self.hold_all(handles.drop_last()).hold(handles.last())
        }
    }

    /// The world after each handle of `bundles` took a share of its cell,
    /// bundle after bundle.
    pub open spec fn hold_bundles(self, bundles: Seq<(u128, Seq<ComponentHandle>)>) -> Self
        decreases bundles.len(),
    {
        if bundles.len() == 0 {
            self
        } else {
            self.hold_bundles(bundles.drop_last()).hold_all(bundles.last().1)
        }
    }

    /// The world after each of `handles` let its share go, one after the other.
    pub open spec fn let_go_all(self, handles: Seq<ComponentHandle>) -> Self
        decreases handles.len(),
    {
        if handles.len() == 0 {
            self
        } else {
            self.let_go_all(handles.drop_last()).let_go(handles.last())
        }
    }

    /// The world after each handle of `bundles` let its share go, bundle
    /// after bundle.
    pub open spec fn let_go_bundles(self, bundles: Seq<(u128, Seq<ComponentHandle>)>) -> Self
        decreases bundles.len(),
    {
        if bundles.len() == 0 {
            self
        } else {
            self.let_go_bundles(bundles.drop_last()).let_go_all(bundles.last().1)
        }
    }

    /// The world after the cell that `handle` reaches was borrowed once
    /// more, or why the borrow is refused.
    pub open spec fn borrow(self, handle: ComponentHandle) -> Result<Self, EcsError> {
        match self.cell(handle) {
            Err(e) => Err(e),
            Ok(cell) => match cell.borrowed(handle.mode) {
                Err(e) => Err(e),
                Ok(after) => Ok(self.with_cell(handle, after)),
            },
        }
    }

    /// The world after one borrow of the cell that `handle` reaches was
    /// returned, or why it cannot be returned.
    pub open spec fn release(self, handle: ComponentHandle) -> Result<Self, EcsError> {
        match self.cell(handle) {
            Err(e) => Err(e),
            Ok(cell) => match cell.released(handle.mode) {
                Err(e) => Err(e),
                Ok(after) => Ok(self.with_cell(handle, after)),
            },
        }
    }

    /// The value that the holder of `handle` reads, or why it cannot read.
    pub open spec fn read(self, handle: ComponentHandle) -> Result<P, EcsError> {
        match self.cell(handle) {
            Err(e) => Err(e),
            Ok(cell) => cell.readable(handle.mode),
        }
    }

    /// The world after the holder of `handle` wrote `value`, or why it
    /// cannot write. Only an exclusive handle writes.
    pub open spec fn write(self, handle: ComponentHandle, value: P) -> Result<Self, EcsError> {
        match self.cell(handle) {
            Err(e) => Err(e),
            Ok(cell) => if handle.mode != BorrowMode::Exclusive {
                Err(EcsError::AliasingViolation)
            } else {
                match cell.written(value) {
                    Err(e) => Err(e),
                    Ok(after) => Ok(self.with_cell(handle, after)),
                }
            },
        }
    }

    /// Whether every component type of `shape` is registered.
    pub open spec fn resolves(self, shape: Seq<Request>) -> bool {
        forall|i: int| 0 <= i < shape.len() ==> self.registered(#[trigger] shape[i].0)
    }

    /// Whether `entity` holds a value of every component type of `shape`.
    pub open spec fn holds_all(self, shape: Seq<Request>, entity: Entity) -> bool {
        forall|i: int| 0 <= i < shape.len() ==> self.has_component(#[trigger] shape[i].0, entity)
    }

    /// The predicate of the entities that hold every component type of `shape`.
    pub open spec fn matching(self, shape: Seq<Request>) -> spec_fn(Entity) -> bool {
        |e: Entity| self.holds_all(shape, e)
    }

    /// The result of a query of `shape` over `candidates`: one bundle for
    /// each candidate that holds every requested component, in the order of
    /// the candidates.
    pub open spec fn query(self, shape: Seq<Request>, candidates: Seq<Entity>) -> Seq<
        (u128, Seq<ComponentHandle>),
    > {
        candidates.filter(self.matching(shape)).map_values(self.bundle_for(shape))
    }
}

} // verus!
