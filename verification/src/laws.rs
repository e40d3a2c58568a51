//! What holds of every world: the invariant is kept by every operation, and
//! the operations relate to each other as their names promise.

use vstd::prelude::*;
use crate::archetype::occupied;
use crate::cell::{BorrowMode, BorrowState, CellId, StorageCell};
use crate::entity::{ComponentHandle, Entity, TypeKey};
use crate::error::EcsError;
use crate::lemmas::{
    lemma_filter_agree, lemma_filter_keeps_order, lemma_filter_no_duplicates, lemma_filter_order,
    lemma_filter_twice, lemma_killed_not_found, lemma_live_after_kill, lemma_live_count,
    lemma_query_exact, lemma_query_sound, lemma_result_keeps_order,
    lemma_staged_slot_id, lemma_staged_slot_some,
};
use crate::model::{other_than, probe, same_slot, staged_slot, WorldModel};
use crate::query::{Query, QueryFilter, QueryFilterFn, QueryableFn, With, Without};

verus! {

/// A borrow that is admitted keeps the borrow state well formed, and
/// returning it restores the state from before.
pub proof fn law_borrow_state_round_trip(state: BorrowState, mode: BorrowMode)
    requires
        state.wf(),
        state.admits(mode),
    ensures
        state.acquired(mode).wf(),
        state.acquired(mode).holds(mode),
        state.acquired(mode).released(mode) == state,
{
}

/// Returning a borrow keeps the borrow state well formed.
pub proof fn law_release_keeps_state(state: BorrowState, mode: BorrowMode)
    requires
        state.wf(),
        state.holds(mode),
    ensures
        state.released(mode).wf(),
{
}

/// Shared and exclusive borrows exclude each other: while a borrow in one
/// mode is outstanding, no exclusive borrow is admitted, and while the
/// exclusive borrow is outstanding, no borrow at all.
pub proof fn law_borrows_exclude(state: BorrowState, mode: BorrowMode)
    requires
        state.holds(mode),
    ensures
        !state.admits(BorrowMode::Exclusive),
        mode == BorrowMode::Exclusive ==> !state.admits(BorrowMode::Shared),
{
}

/// The empty world is well formed.
pub proof fn law_empty_wf<P>()
    ensures
        WorldModel::<P>::empty().wf(),
{
}

/// Registering a component type keeps the invariant: the new table has an
/// empty slot for every entity that is already live.
pub proof fn law_register_keeps_invariant<P>(world: WorldModel<P>, key: TypeKey)
    requires
        world.wf(),
    ensures
        world.register(key).wf(),
        world.register(key).registered(key),
        world.register(key).entities == world.entities,
{
    let after = world.register(key);
    if !world.registered(key) {
        assert forall|k: TypeKey| #[trigger]
            after.tables.contains_key(k) implies after.tables[k].dom() == after.live_ids() by {
        }
    }
}

/// Spawning keeps the invariant: from the moment an entity is live, every
/// registered table has exactly one slot for it.
pub proof fn law_spawn_keeps_invariant<P>(
    world: WorldModel<P>,
    entity: Entity,
    staged: Seq<(TypeKey, P)>,
)
    requires
        world.wf(),
        !world.is_live(entity),
        world.next_cell + staged.len() <= CellId::MAX,
    ensures
        world.spawn(entity, staged).wf(),
        world.spawn(entity, staged).is_live(entity),
        world.spawn(entity, staged).live_ids() == world.live_ids().insert(entity.id),
        forall|key: TypeKey|
            world.registered(key) ==> world.spawn(entity, staged).tables[key].contains_key(
                entity.id,
            ),
{
    let after = world.spawn(entity, staged);
    assert(after.entities.last() == entity);
    assert forall|id: u128| after.live_ids().contains(id) <==> world.live_ids().insert(
        entity.id,
    ).contains(id) by {
        let e = Entity { id };
        if world.entities.contains(e) {
            let i = choose|i: int| 0 <= i < world.entities.len() && world.entities[i] == e;
            assert(after.entities[i] == e);
        }
    }
    assert forall|key: TypeKey| #[trigger]
        after.tables.contains_key(key) implies after.tables[key].dom() == after.live_ids() by {
    }
    assert forall|key: TypeKey, id: u128|
        after.tables.contains_key(key) && occupied(
            #[trigger] after.tables[key],
            id,
        ) implies (#[trigger] after.tables[key][id])->0.state.wf() by {
        if id == entity.id {
            lemma_staged_slot_id(staged, key, world.next_cell);
        }
    }
    assert(after.cells_wf()) by {
        assert forall|key: TypeKey|
            world.tables.contains_key(key) implies #[trigger] after.tables[key]
            == world.tables[key].insert(
            entity.id,
            staged_slot(staged, key, world.next_cell),
        ) by {}
        assert forall|key: TypeKey, id: u128|
            after.tables.contains_key(key) && occupied(
                #[trigger] after.tables[key],
                id,
            ) implies (#[trigger] after.tables[key][id])->0.id < after.next_cell
            && !after.detached.contains_key(after.tables[key][id]->0.id) && (id != entity.id
            ==> occupied(world.tables[key], id) && after.tables[key][id]
            == world.tables[key][id]) && (id == entity.id ==> after.tables[key][id]->0.id
            >= world.next_cell && staged[after.tables[key][id]->0.id - world.next_cell].0
            == key) by {
            lemma_staged_slot_id(staged, key, world.next_cell);
        }
    }
}

/// Killing keeps the invariant: the slot of the entity leaves every table
/// together with the entity.
pub proof fn law_kill_keeps_invariant<P>(world: WorldModel<P>, entity: Entity)
    requires
        world.wf(),
    ensures
        world.kill(entity).wf(),
        world.kill(entity).live_ids() == world.live_ids().remove(entity.id),
{
    let after = world.kill(entity);
    lemma_filter_no_duplicates(world.entities, other_than(entity));
    assert forall|id: u128| after.live_ids().contains(id) <==> world.live_ids().remove(
        entity.id,
    ).contains(id) by {
        lemma_live_after_kill(world, entity, Entity { id });
    }
    assert forall|key: TypeKey| #[trigger]
        after.tables.contains_key(key) implies after.tables[key].dom() == after.live_ids() by {
    }
}

/// Writing a component keeps the invariant.
pub proof fn law_insert_keeps_invariant<P>(
    world: WorldModel<P>,
    entity: Entity,
    key: TypeKey,
    component: P,
)
    requires
        world.wf(),
    ensures
        world.insert(entity, key, component) matches Ok(after) ==> after.wf(),
{
    if world.insert(entity, key, component) is Ok {
        let after = world.insert(entity, key, component)->Ok_0;
        lemma_tables_after_slot(
            world,
            after,
            key,
            entity.id,
            Some(StorageCell::fresh(world.next_cell, component)),
        );
    }
}

/// Taking a component away keeps the invariant: the slot stays, empty.
pub proof fn law_remove_keeps_invariant<P>(world: WorldModel<P>, entity: Entity, key: TypeKey)
    requires
        world.wf(),
    ensures
        world.remove(entity, key).wf(),
        !world.remove(entity, key).has_component(key, entity),
{
    if world.registered(key) && world.tables[key].contains_key(entity.id) {
        lemma_tables_after_slot(world, world.remove(entity, key), key, entity.id, None);
    }
}

/// Putting another state or another value into the cell that a handle
/// reaches keeps the invariant, in the table and among the detached cells.
pub proof fn law_update_keeps_invariant<P>(
    world: WorldModel<P>,
    handle: ComponentHandle,
    cell: StorageCell<P>,
)
    requires
        world.wf(),
        world.cell(handle) is Ok,
        cell.id == world.cell(handle)->Ok_0.id,
        cell.state.wf(),
    ensures
        world.with_cell(handle, cell).wf(),
{
    let after = world.with_cell(handle, cell);
    if world.attached(handle) {
        lemma_tables_after_slot(world, after, handle.key, handle.entity.id, Some(cell));
    } else {
        assert(after.tables == world.tables);
    }
}

/// Borrowing, returning a borrow, writing through a borrow, taking a
/// share of a cell and letting it go keep the invariant.
pub proof fn law_borrow_keeps_invariant<P>(
    world: WorldModel<P>,
    handle: ComponentHandle,
    value: P,
)
    requires
        world.wf(),
    ensures
        world.borrow(handle) matches Ok(after) ==> after.wf(),
        world.release(handle) matches Ok(after) ==> after.wf(),
        world.write(handle, value) matches Ok(after) ==> after.wf(),
        world.hold(handle).wf(),
        world.let_go(handle).wf(),
{
    if world.cell(handle) is Ok {
        let cell = world.cell(handle)->Ok_0;
        if cell.borrowed(handle.mode) is Ok {
            law_update_keeps_invariant(world, handle, cell.borrowed(handle.mode)->Ok_0);
        }
        if cell.released(handle.mode) is Ok {
            law_update_keeps_invariant(world, handle, cell.released(handle.mode)->Ok_0);
        }
        if cell.written(value) is Ok {
            law_update_keeps_invariant(world, handle, cell.written(value)->Ok_0);
        }
        law_update_keeps_invariant(world, handle, cell.held());
        law_update_keeps_invariant(world, handle, cell.let_go());
    }
}

/// Where the slot of `id` in the table of `key` got another content, and
/// the cell that left it, if it is another one, went to the detached cells,
/// the world is well formed, provided that a new cell has the next identity
/// and a cell that stays has the identity that it had.
pub proof fn lemma_tables_after_slot<P>(
    world: WorldModel<P>,
    after: WorldModel<P>,
    key: TypeKey,
    id: u128,
    slot: Option<StorageCell<P>>,
)
    requires
        world.wf(),
        world.registered(key),
        world.tables[key].contains_key(id),
        after.entities == world.entities,
        after.tables == world.tables.insert(key, world.tables[key].insert(id, slot)),
        slot matches Some(cell) ==> cell.state.wf(),
        ({
            ||| {
                &&& slot matches Some(cell)
                &&& occupied(world.tables[key], id)
                &&& cell.id == world.tables[key][id]->0.id
                &&& after.detached == world.detached
                &&& after.next_cell == world.next_cell
            }
            ||| {
                &&& slot matches Some(cell) ==> cell.id == world.next_cell
                &&& after.detached == world.with_detached(world.tables[key][id]).detached
                &&& after.next_cell == (if slot is Some {
                    world.next_cell + 1
                } else {
                    world.next_cell as int
                })
            }
        }),
    ensures
        after.wf(),
{
    assert forall|k: TypeKey| #[trigger] after.tables.contains_key(k) implies after.tables[k].dom()
        == after.live_ids() by {
        assert(world.tables.contains_key(k));
        if k == key {
            assert(after.tables[k].dom() =~= world.tables[k].dom());
        }
    }
    assert forall|k: TypeKey, i: u128|
        after.tables.contains_key(k) && occupied(
            #[trigger] after.tables[k],
            i,
        ) implies (#[trigger] after.tables[k][i])->0.state.wf() && (!(k == key && i == id)
        ==> occupied(world.tables[k], i) && after.tables[k][i] == world.tables[k][i]) by {
        assert(world.tables.contains_key(k));
    }
}



/// Every table has as many slots as there are live entities.
pub proof fn law_table_size<P>(world: WorldModel<P>, key: TypeKey)
    requires
        world.wf(),
        world.registered(key),
    ensures
        world.tables[key].dom().finite(),
        world.tables[key].len() == world.entities.len(),
{
    lemma_live_count(world);
}

/// A component type that was just registered is held by no entity.
pub proof fn law_registered_type_is_empty<P>(world: WorldModel<P>, key: TypeKey, entity: Entity)
    requires
        !world.registered(key),
    ensures
        !world.register(key).has_component(key, entity),
{
}

/// A spawned entity holds exactly the component types that are registered
/// and that a payload was staged for.
pub proof fn law_spawned_holds_staged<P>(
    world: WorldModel<P>,
    entity: Entity,
    staged: Seq<(TypeKey, P)>,
    key: TypeKey,
)
    ensures
        world.spawn(entity, staged).has_component(key, entity) <==> world.registered(key)
            && exists|i: int| 0 <= i < staged.len() && (#[trigger] staged[i]).0 == key,
{
    lemma_staged_slot_some(staged, key, world.next_cell);
}

/// Spawning and killing an entity leave the components of every other
/// entity as they are.
pub proof fn law_others_untouched<P>(
    world: WorldModel<P>,
    entity: Entity,
    staged: Seq<(TypeKey, P)>,
    other: Entity,
    key: TypeKey,
)
    requires
        other != entity,
    ensures
        world.spawn(entity, staged).has_component(key, other) == world.has_component(key, other),
        world.kill(entity).has_component(key, other) == world.has_component(key, other),
{
}

/// An entity holds at most one value of a component type: writing a second
/// value replaces the first in the slot, and the table has as many slots as
/// before.
pub proof fn law_reinsert_overwrites<P>(
    world: WorldModel<P>,
    entity: Entity,
    key: TypeKey,
    first: P,
    second: P,
)
    requires
        world.insert(entity, key, first) is Ok,
        world.insert(entity, key, first)->Ok_0.insert(entity, key, second) is Ok,
    ensures
        ({
            let once = world.insert(entity, key, first)->Ok_0;
            let twice = once.insert(entity, key, second)->Ok_0;
            &&& twice.tables[key] == world.tables[key].insert(
                entity.id,
                Some(StorageCell::fresh(once.next_cell, second)),
            )
            &&& twice.tables[key].dom() == world.tables[key].dom()
            &&& twice.entities == world.entities
        }),
{
    let once = world.insert(entity, key, first)->Ok_0;
    let twice = once.insert(entity, key, second)->Ok_0;
    assert(twice.tables[key] =~= world.tables[key].insert(
        entity.id,
        Some(StorageCell::fresh(once.next_cell, second)),
    ));
    assert(twice.tables[key].dom() =~= world.tables[key].dom());
}

/// Writing a value and then reading it through a handle yields that value:
/// the cell of a value just written is free, so a borrow in either mode is
/// admitted, and its holder reads what was written.
pub proof fn law_insert_then_read<P>(
    world: WorldModel<P>,
    entity: Entity,
    key: TypeKey,
    component: P,
    mode: BorrowMode,
)
    requires
        world.insert(entity, key, component) is Ok,
    ensures
        ({
            let written = world.insert(entity, key, component)->Ok_0;
            let handle = written.handle(key, entity.id, mode);
            &&& written.has_component(key, entity)
            &&& written.borrow(handle) is Ok
            &&& written.borrow(handle)->Ok_0.read(handle) == Ok::<P, EcsError>(component)
        }),
{
}

/// A handle that holds a cell, or through which the cell is borrowed, goes
/// on reaching the cell when an entity is killed, with the value and the
/// borrows that the cell has: what is read through the handle before is
/// read through it afterwards.
pub proof fn law_handle_survives_kill<P>(
    world: WorldModel<P>,
    entity: Entity,
    handle: ComponentHandle,
)
    requires
        world.wf(),
        world.cell(handle) matches Ok(cell) && cell.kept(),
    ensures
        world.kill(entity).cell(handle) == world.cell(handle),
        world.kill(entity).read(handle) == world.read(handle),
        world.kill(entity).borrow(handle) is Ok <==> world.borrow(handle) is Ok,
{
    if world.attached(handle) && handle.entity == entity {
        assert(world.shares(handle.key, entity.id, handle.cell));
        let key = choose|key: TypeKey| world.shares(key, entity.id, handle.cell);
        assert(world.tables[key][entity.id]->0.id
            == world.tables[handle.key][entity.id]->0.id);
    }
}

/// A handle that holds a cell, or through which the cell is borrowed, goes
/// on reaching the cell when the component is overwritten: the new value
/// is held by another cell.
pub proof fn law_handle_survives_insert<P>(
    world: WorldModel<P>,
    entity: Entity,
    key: TypeKey,
    component: P,
    handle: ComponentHandle,
)
    requires
        world.wf(),
        world.cell(handle) matches Ok(cell) && cell.kept(),
    ensures
        world.insert(entity, key, component) matches Ok(after) ==> after.cell(handle)
            == world.cell(handle) && after.read(handle) == world.read(handle),
{
}

/// A handle that holds a cell, or through which the cell is borrowed, goes
/// on reaching the cell when the component is taken away from its entity.
pub proof fn law_handle_survives_remove<P>(
    world: WorldModel<P>,
    entity: Entity,
    key: TypeKey,
    handle: ComponentHandle,
)
    requires
        world.wf(),
        world.cell(handle) matches Ok(cell) && cell.kept(),
    ensures
        world.remove(entity, key).cell(handle) == world.cell(handle),
        world.remove(entity, key).read(handle) == world.read(handle),
{
}

/// What is read through a handle before an entity is killed, a component
/// is overwritten or a component is taken away is read through it
/// afterwards: the borrow that admits the read keeps the cell.
pub proof fn law_read_survives<P>(
    world: WorldModel<P>,
    handle: ComponentHandle,
    entity: Entity,
    key: TypeKey,
    component: P,
)
    requires
        world.wf(),
        world.read(handle) is Ok,
    ensures
        world.kill(entity).read(handle) == world.read(handle),
        world.remove(entity, key).read(handle) == world.read(handle),
        world.insert(entity, key, component) matches Ok(after) ==> after.read(handle)
            == world.read(handle),
{
    law_handle_survives_kill(world, entity, handle);
    law_handle_survives_remove(world, entity, key, handle);
    law_handle_survives_insert(world, entity, key, component, handle);
}

/// A borrow that was admitted stays with its cell when an entity is killed,
/// a component is overwritten or a component is taken away: the holder of
/// the borrow reads the value of the cell afterwards as before, and a
/// borrow that conflicts with it is refused afterwards as before.
pub proof fn law_borrow_survives<P>(
    world: WorldModel<P>,
    handle: ComponentHandle,
    entity: Entity,
    key: TypeKey,
    component: P,
)
    requires
        world.wf(),
        world.borrow(handle) is Ok,
    ensures
        ({
            let borrowed = world.borrow(handle)->Ok_0;
            let value = Ok::<P, EcsError>(world.cell(handle)->Ok_0.value);
            &&& borrowed.read(handle) == value
            &&& borrowed.kill(entity).read(handle) == value
            &&& borrowed.kill(entity).cell(handle) == borrowed.cell(handle)
            &&& borrowed.remove(entity, key).read(handle) == value
            &&& borrowed.remove(entity, key).cell(handle) == borrowed.cell(handle)
            &&& borrowed.insert(entity, key, component) matches Ok(after) ==> after.read(handle)
                == value && after.cell(handle) == borrowed.cell(handle)
        }),
{
    let borrowed = world.borrow(handle)->Ok_0;
    law_borrow_keeps_invariant(world, handle, component);
    law_read_survives(borrowed, handle, entity, key, component);
}

/// Killing an entity changes the live entities and the tables, but not
/// what a handle reaches that holds its cell or through which the cell is
/// borrowed.
pub proof fn law_kill_keeps_held<P>(world: WorldModel<P>, entity: Entity)
    requires
        world.wf(),
    ensures
        world.keeps_held(world.kill(entity)),
{
    assert forall|handle: ComponentHandle|
        (#[trigger] world.cell(handle)) matches Ok(cell) && cell.kept() implies world.kill(
        entity,
    ).cell(handle) == world.cell(handle) by {
        law_handle_survives_kill(world, entity, handle);
    }
}

/// Overwriting a component changes its table, but not what a handle reaches
/// that holds its cell or through which the cell is borrowed.
pub proof fn law_insert_keeps_held<P>(
    world: WorldModel<P>,
    entity: Entity,
    key: TypeKey,
    component: P,
)
    requires
        world.wf(),
    ensures
        world.insert(entity, key, component) matches Ok(after) ==> world.keeps_held(after),
{
    assert forall|handle: ComponentHandle|
        (#[trigger] world.cell(handle)) matches Ok(cell) && cell.kept() implies (world.insert(
        entity,
        key,
        component,
    ) matches Ok(after) ==> after.cell(handle) == world.cell(handle)) by {
        law_handle_survives_insert(world, entity, key, component, handle);
    }
}

/// Taking a component away changes its table, but not what a handle reaches
/// that holds its cell or through which the cell is borrowed.
pub proof fn law_remove_keeps_held<P>(world: WorldModel<P>, entity: Entity, key: TypeKey)
    requires
        world.wf(),
    ensures
        world.keeps_held(world.remove(entity, key)),
{
    assert forall|handle: ComponentHandle|
        (#[trigger] world.cell(handle)) matches Ok(cell) && cell.kept() implies world.remove(
        entity,
        key,
    ).cell(handle) == world.cell(handle) by {
        law_handle_survives_remove(world, entity, key, handle);
    }
}

/// A handle that reaches a cell goes on reaching it when another entity is
/// spawned, also under the identity of an entity that was killed.
pub proof fn law_handle_survives_spawn<P>(
    world: WorldModel<P>,
    entity: Entity,
    staged: Seq<(TypeKey, P)>,
    handle: ComponentHandle,
)
    requires
        world.wf(),
        world.cell(handle) is Ok,
        world.spawn_error(entity, staged) is None,
    ensures
        world.spawn(entity, staged).cell(handle) == world.cell(handle),
{
    if world.registered(handle.key) {
        lemma_staged_slot_id(staged, handle.key, world.next_cell);
    }
}

/// Returning a borrow that was admitted restores the world from before.
pub proof fn law_borrow_then_release<P>(world: WorldModel<P>, handle: ComponentHandle)
    requires
        world.wf(),
        world.borrow(handle) is Ok,
    ensures
        world.borrow(handle)->Ok_0.release(handle) == Ok::<WorldModel<P>, EcsError>(world),
{
    let cell = world.cell(handle)->Ok_0;
    law_borrow_state_round_trip(cell.state, handle.mode);
    let after = world.borrow(handle)->Ok_0;
    let back = after.release(handle)->Ok_0;
    if world.attached(handle) {
        assert(back.tables[handle.key] =~= world.tables[handle.key]);
        assert(back.tables =~= world.tables);
    } else {
        assert(back.detached =~= world.detached);
    }
}

/// While the exclusive borrow of a cell is outstanding, every further
/// borrow of the cell is refused as an aliasing violation; while a shared
/// borrow is outstanding, the exclusive borrow is.
pub proof fn law_conflicting_borrow_refused<P>(
    world: WorldModel<P>,
    held: ComponentHandle,
    wanted: ComponentHandle,
)
    requires
        world.borrow(held) is Ok,
        wanted.entity == held.entity,
        wanted.key == held.key,
        wanted.cell == held.cell,
        held.mode == BorrowMode::Exclusive || wanted.mode == BorrowMode::Exclusive,
    ensures
        world.borrow(held)->Ok_0.borrow(wanted) == Err::<WorldModel<P>, EcsError>(
            EcsError::AliasingViolation,
        ),
{
}

/// After an entity was killed it holds no component of any type, and it is
/// not live.
pub proof fn law_kill_completeness<P>(world: WorldModel<P>, entity: Entity, key: TypeKey)
    ensures
        !world.kill(entity).has_component(key, entity),
        !world.kill(entity).is_live(entity),
{
    lemma_live_after_kill(world, entity, entity);
}

/// An entity that was killed appears in no query that is taken afterwards,
/// whatever its shape and its filter.
pub proof fn law_killed_not_queried<P, Q: QueryableFn, F: QueryFilterFn<P>>(
    query: Query<Q, F>,
    world: WorldModel<P>,
    entity: Entity,
)
    ensures
        forall|i: int|
            0 <= i < query.result(world.kill(entity)).len() ==> (#[trigger] query.result(
                world.kill(entity),
            )[i]).0 != entity.id,
{
    let after = world.kill(entity);
    assert forall|i: int| 0 <= i < query.result(after).len() implies (#[trigger] query.result(
        after,
    )[i]).0 != entity.id by {
        lemma_killed_not_found(
            world,
            entity,
            query.shape.shape(),
            query.filter.passing_all(after),
            i,
        );
    }
}

/// A query yields exactly the entities that are live, survive the filter
/// and hold every requested component. No entity appears with fewer handles
/// than the shape has requests.
pub proof fn law_query_and_semantics<P, Q: QueryableFn, F: QueryFilterFn<P>>(
    query: Query<Q, F>,
    world: WorldModel<P>,
    entity: Entity,
)
    ensures
        ({
            let found = query.result(world);
            &&& (exists|i: int| 0 <= i < found.len() && (#[trigger] found[i]).0 == entity.id) <==> (
            world.is_live(entity) && query.filter.passing_all(world)(entity) && world.holds_all(
                query.shape.shape(),
                entity,
            ))
            &&& forall|i: int|
                0 <= i < found.len() ==> (#[trigger] found[i]).1.len() == query.shape.shape().len()
        }),
{
    lemma_query_exact(world, query.shape.shape(), query.filter.passing_all(world), entity);
}

/// The result of a query is in the order of the live entities: of two
/// bundles, the earlier stands for the entity that was spawned first.
pub proof fn law_query_keeps_order<P, Q: QueryableFn, F: QueryFilterFn<P>>(
    query: Query<Q, F>,
    world: WorldModel<P>,
)
    requires
        world.wf(),
    ensures
        ({
            let found = query.result(world);
            forall|i: int, j: int|
                0 <= i < j < found.len() ==> world.entities.index_of(
                    Entity { id: (#[trigger] found[i]).0 },
                ) < world.entities.index_of(Entity { id: (#[trigger] found[j]).0 })
        }),
{
    let passing = query.filter.passing_all(world);
    let candidates = world.entities.filter(passing);
    let found = query.result(world);
    lemma_filter_no_duplicates(world.entities, passing);
    lemma_result_keeps_order(world, query.shape.shape(), candidates);
    lemma_filter_keeps_order(world.entities, passing);
    assert forall|i: int, j: int| 0 <= i < j < found.len() implies world.entities.index_of(
        Entity { id: (#[trigger] found[i]).0 },
    ) < world.entities.index_of(Entity { id: (#[trigger] found[j]).0 }) by {
        lemma_query_sound(world, query.shape.shape(), candidates, i);
        lemma_query_sound(world, query.shape.shape(), candidates, j);
    }
}

/// A filter for the entities with one component and a filter for the
/// entities without another yield the same entities in whichever order they
/// are applied, one after the other or as a conjunction.
pub proof fn law_filter_order<P>(
    world: WorldModel<P>,
    entities: Seq<Entity>,
    with: TypeKey,
    without: TypeKey,
)
    ensures
        ({
            let holding = QueryFilter::<P>::passing(&With(with), world);
            let lacking = QueryFilter::<P>::passing(&Without(without), world);
            let one_way = QueryFilterFn::<P>::passing_all(&(With(with), Without(without)), world);
            let other_way = QueryFilterFn::<P>::passing_all(
                &(Without(without), With(with)),
                world,
            );
            &&& entities.filter(holding).filter(lacking) == entities.filter(lacking).filter(holding)
            &&& entities.filter(one_way) == entities.filter(holding).filter(lacking)
            &&& entities.filter(other_way) == entities.filter(lacking).filter(holding)
        }),
{
    let holding = QueryFilter::<P>::passing(&With(with), world);
    let lacking = QueryFilter::<P>::passing(&Without(without), world);
    lemma_filter_order(entities, holding, lacking);
    lemma_filter_twice(entities, holding, lacking);
    lemma_filter_twice(entities, lacking, holding);
    lemma_filter_agree(
        entities,
        QueryFilterFn::<P>::passing_all(&(With(with), Without(without)), world),
        |e: Entity| holding(e) && lacking(e),
    );
    lemma_filter_agree(
        entities,
        QueryFilterFn::<P>::passing_all(&(Without(without), With(with)), world),
        |e: Entity| lacking(e) && holding(e),
    );
}

/// The search for a free identity has one outcome, which is not live, and
/// it is the candidate itself where the candidate is not live.
pub proof fn law_first_free<P>(world: WorldModel<P>, candidate: u128, a: u128, b: u128)
    requires
        world.is_first_free(candidate, a),
    ensures
        !world.is_live(Entity { id: a }),
        world.is_first_free(candidate, b) ==> a == b,
        !world.is_live(Entity { id: candidate }) ==> a == candidate,
{
    let steps_a = choose|steps: int| world.found_after(candidate, a, steps);
    if !world.is_live(Entity { id: candidate }) && steps_a > 0 {
        assert(world.live_ids().contains(probe(candidate, 0)));
    }
}

/// Worlds with the same contents have the same live entities and the same
/// registered component types, and an entity holds in both the same
/// components, in the same cells, with the same values and borrows.
pub proof fn law_same_contents<P>(
    one: WorldModel<P>,
    other: WorldModel<P>,
    key: TypeKey,
    entity: Entity,
    mode: BorrowMode,
)
    requires
        one.same_contents(other),
    ensures
        one.is_live(entity) == other.is_live(entity),
        one.registered(key) == other.registered(key),
        one.has_component(key, entity) == other.has_component(key, entity),
        one.has_component(key, entity) ==> {
            let handle = one.handle(key, entity.id, mode);
            &&& other.handle(key, entity.id, mode) == handle
            &&& other.cell(handle)->Ok_0.value == one.cell(handle)->Ok_0.value
            &&& other.cell(handle)->Ok_0.state == one.cell(handle)->Ok_0.state
            &&& other.read(handle) == one.read(handle)
        },
{
    if one.registered(key) {
        assert(other.tables.dom().contains(key));
        if one.tables[key].contains_key(entity.id) {
            assert(other.tables[key].dom().contains(entity.id));
            assert(same_slot(one.tables[key][entity.id], other.tables[key][entity.id]));
        } else {
            assert(!other.tables[key].dom().contains(entity.id));
        }
    } else {
        assert(!other.tables.dom().contains(key));
    }
}

/// Taking a share of a cell and letting it go change who holds the cell,
/// and nothing of the live entities or of what the tables hold, values and
/// borrows included.
pub proof fn law_shares_keep_contents<P>(world: WorldModel<P>, handle: ComponentHandle)
    ensures
        world.same_contents(world.hold(handle)),
        world.same_contents(world.let_go(handle)),
{
    if world.attached(handle) {
        let slots = world.tables[handle.key];
        let held = world.hold(handle);
        let left = world.let_go(handle);
        assert(held.tables.dom() =~= world.tables.dom());
        assert(left.tables.dom() =~= world.tables.dom());
        assert(held.tables[handle.key].dom() =~= slots.dom());
        assert(left.tables[handle.key].dom() =~= slots.dom());
    }
}

/// The same for the shares of a sequence of handles.
pub proof fn law_shares_of_all_keep_contents<P>(
    world: WorldModel<P>,
    handles: Seq<ComponentHandle>,
)
    ensures
        world.same_contents(world.hold_all(handles)),
        world.same_contents(world.let_go_all(handles)),
    decreases handles.len(),
{
    if handles.len() > 0 {
        law_shares_of_all_keep_contents(world, handles.drop_last());
        law_shares_keep_contents(world.hold_all(handles.drop_last()), handles.last());
        law_shares_keep_contents(world.let_go_all(handles.drop_last()), handles.last());
    }
}

/// The same for the shares of the handles of the bundles of a result: to
/// take a query and to give its result back changes nothing of the live
/// entities or of what the tables hold.
pub proof fn law_shares_of_bundles_keep_contents<P>(
    world: WorldModel<P>,
    bundles: Seq<(u128, Seq<ComponentHandle>)>,
)
    ensures
        world.same_contents(world.hold_bundles(bundles)),
        world.same_contents(world.let_go_bundles(bundles)),
    decreases bundles.len(),
{
    if bundles.len() > 0 {
        law_shares_of_bundles_keep_contents(world, bundles.drop_last());
        law_shares_of_all_keep_contents(
            world.hold_bundles(bundles.drop_last()),
            bundles.last().1,
        );
        law_shares_of_all_keep_contents(
            world.let_go_bundles(bundles.drop_last()),
            bundles.last().1,
        );
    }
}

/// Taking a share of a cell leaves every handle reaching the cell that it
/// reached, with its value and its borrows and no holder less; and the
/// handle that took the share holds its cell.
pub proof fn law_hold_keeps_handles<P>(
    world: WorldModel<P>,
    held: ComponentHandle,
    handle: ComponentHandle,
)
    requires
        world.wf(),
        world.cell(handle) is Ok,
    ensures
        world.hold(held).wf(),
        world.hold(held).cell(handle) is Ok,
        world.hold(held).cell(handle)->Ok_0.value == world.cell(handle)->Ok_0.value,
        world.hold(held).cell(handle)->Ok_0.state == world.cell(handle)->Ok_0.state,
        world.hold(held).cell(handle)->Ok_0.holders >= world.cell(handle)->Ok_0.holders,
        handle == held ==> world.hold(held).cell(handle)->Ok_0.holders > 0,
{
    law_borrow_keeps_invariant(world, held, world.cell(handle)->Ok_0.value);
}

/// The same for the shares that a sequence of handles takes, one after the
/// other.
pub proof fn law_hold_all_keeps_handles<P>(
    world: WorldModel<P>,
    held: Seq<ComponentHandle>,
    handle: ComponentHandle,
)
    requires
        world.wf(),
        world.cell(handle) is Ok,
    ensures
        world.hold_all(held).wf(),
        world.hold_all(held).cell(handle) is Ok,
        world.hold_all(held).cell(handle)->Ok_0.value == world.cell(handle)->Ok_0.value,
        world.hold_all(held).cell(handle)->Ok_0.state == world.cell(handle)->Ok_0.state,
        world.hold_all(held).cell(handle)->Ok_0.holders >= world.cell(handle)->Ok_0.holders,
        held.contains(handle) ==> world.hold_all(held).cell(handle)->Ok_0.holders > 0,
    decreases held.len(),
{
    if held.len() > 0 {
        let before = world.hold_all(held.drop_last());
        law_hold_all_keeps_handles(world, held.drop_last(), handle);
        law_hold_keeps_handles(before, held.last(), handle);
        if held.contains(handle) && handle != held.last() {
            let i = choose|i: int| 0 <= i < held.len() && held[i] == handle;
            assert(held.drop_last()[i] == handle);
        }
    }
}

/// The same for the shares that the handles of the bundles of a result
/// take, bundle after bundle.
pub proof fn law_hold_bundles_keeps_handles<P>(
    world: WorldModel<P>,
    bundles: Seq<(u128, Seq<ComponentHandle>)>,
    handle: ComponentHandle,
)
    requires
        world.wf(),
        world.cell(handle) is Ok,
    ensures
        world.hold_bundles(bundles).wf(),
        world.hold_bundles(bundles).cell(handle) is Ok,
        world.hold_bundles(bundles).cell(handle)->Ok_0.value == world.cell(handle)->Ok_0.value,
        world.hold_bundles(bundles).cell(handle)->Ok_0.state == world.cell(handle)->Ok_0.state,
        world.hold_bundles(bundles).cell(handle)->Ok_0.holders >= world.cell(
            handle,
        )->Ok_0.holders,
        (exists|i: int| 0 <= i < bundles.len() && (#[trigger] bundles[i]).1.contains(handle))
            ==> world.hold_bundles(bundles).cell(handle)->Ok_0.holders > 0,
    decreases bundles.len(),
{
    if bundles.len() > 0 {
        let before = world.hold_bundles(bundles.drop_last());
        law_hold_bundles_keeps_handles(world, bundles.drop_last(), handle);
        law_hold_all_keeps_handles(before, bundles.last().1, handle);
        if exists|i: int| 0 <= i < bundles.len() && (#[trigger] bundles[i]).1.contains(handle) {
            let i = choose|i: int|
                0 <= i < bundles.len() && (#[trigger] bundles[i]).1.contains(handle);
            if i < bundles.len() - 1 {
                assert(bundles.drop_last()[i].1.contains(handle));
            }
        }
    }
}

/// A handle that a query yields reaches the cell of a component that the
/// entity holds, and holds a share of it once the query is taken: the cell
/// is kept for the handle.
pub proof fn law_result_holds_its_cells<P, Q: QueryableFn, F: QueryFilterFn<P>>(
    query: Query<Q, F>,
    world: WorldModel<P>,
    i: int,
    j: int,
)
    requires
        world.wf(),
        0 <= i < query.result(world).len(),
        0 <= j < query.result(world)[i].1.len(),
    ensures
        ({
            let found = query.result(world);
            let taken = world.hold_bundles(found);
            let handle = found[i].1[j];
            let payload = world.tables[handle.key][handle.entity.id]->0.value;
            &&& taken.wf()
            &&& world.has_component(handle.key, handle.entity)
            &&& taken.cell(handle) matches Ok(cell) && cell.kept() && cell.value == payload
        }),
{
    let found = query.result(world);
    let handle = found[i].1[j];
    lemma_query_sound(
        world,
        query.shape.shape(),
        world.entities.filter(query.filter.passing_all(world)),
        i,
    );
    assert(world.has_component(query.shape.shape()[j].0, handle.entity));
    assert(world.attached(handle));
    assert(found[i].1.contains(handle));
    law_hold_bundles_keeps_handles(world, found, handle);
}

/// The result of a query is a snapshot: a handle that the query yields goes
/// on reaching the payload that the entity had when the query was taken,
/// whichever entity is killed afterwards, and the killed entity holds no
/// component.
pub proof fn law_result_survives_kill<P, Q: QueryableFn, F: QueryFilterFn<P>>(
    query: Query<Q, F>,
    world: WorldModel<P>,
    i: int,
    j: int,
    killed: Entity,
)
    requires
        world.wf(),
        0 <= i < query.result(world).len(),
        0 <= j < query.result(world)[i].1.len(),
    ensures
        ({
            let found = query.result(world);
            let taken = world.hold_bundles(found);
            let handle = found[i].1[j];
            let payload = world.tables[handle.key][handle.entity.id]->0.value;
            &&& taken.kill(killed).cell(handle) matches Ok(cell) && cell.value == payload
            &&& taken.kill(killed).read(handle) == taken.read(handle)
            &&& !taken.kill(killed).has_component(handle.key, killed)
        }),
{
    let found = query.result(world);
    law_result_holds_its_cells(query, world, i, j);
    law_handle_survives_kill(world.hold_bundles(found), killed, found[i].1[j]);
}

/// The same when a component is overwritten or taken away after the query:
/// the handle goes on reaching the payload from when the query was taken.
pub proof fn law_result_survives_overwrite<P, Q: QueryableFn, F: QueryFilterFn<P>>(
    query: Query<Q, F>,
    world: WorldModel<P>,
    i: int,
    j: int,
    entity: Entity,
    key: TypeKey,
    component: P,
)
    requires
        world.wf(),
        0 <= i < query.result(world).len(),
        0 <= j < query.result(world)[i].1.len(),
    ensures
        ({
            let found = query.result(world);
            let taken = world.hold_bundles(found);
            let handle = found[i].1[j];
            let payload = world.tables[handle.key][handle.entity.id]->0.value;
            &&& taken.insert(entity, key, component) matches Ok(after) ==> (after.cell(
                handle,
            ) matches Ok(cell) && cell.value == payload)
            &&& taken.remove(entity, key).cell(handle) matches Ok(cell) && cell.value == payload
        }),
{
    let found = query.result(world);
    let taken = world.hold_bundles(found);
    law_result_holds_its_cells(query, world, i, j);
    law_handle_survives_insert(taken, entity, key, component, found[i].1[j]);
    law_handle_survives_remove(taken, entity, key, found[i].1[j]);
}

} // verus!
