//! Queries: a requested shape of borrows and a filter, resolved against a
//! world to a snapshot of component handles.

use vstd::prelude::*;
use crate::cell::BorrowMode;
use crate::entity::{ComponentHandle, Entity, TypeKey};
use crate::error::EcsError;
use crate::laws::{law_result_holds_its_cells, law_shares_of_bundles_keep_contents};
use crate::lemmas::{lemma_filter_agree, lemma_filter_all, lemma_filter_twice};
use crate::model::{Request, WorldModel};
use crate::archetype::{Archetype, ComponentArchetype};
use crate::world::{World, WorldData};

verus! {

/// A predicate on entities that narrows the candidates of a query.
pub trait QueryFilter<P> {
    /// The predicate of the entities that survive the filter in `world`.
    spec fn passing(&self, world: WorldModel<P>) -> spec_fn(Entity) -> bool;

    /// Retains the entities that survive the filter, in their order.
    fn apply_filter(&self, world: &World<P>, entities: &mut Vec<Entity>)
        ensures
            final(entities)@ == old(entities)@.filter(self.passing(world@)),
    ;
}

/// Retains the entities that hold a value of the component type.
#[derive(Clone, Copy, Debug, PartialEq, Eq, Structural)]
pub struct With(pub TypeKey);

/// Retains the entities that hold no value of the component type.
#[derive(Clone, Copy, Debug, PartialEq, Eq, Structural)]
pub struct Without(pub TypeKey);

/// Retains every entity.
#[derive(Clone, Copy, Debug, PartialEq, Eq, Structural)]
pub struct NoFilter;

/// Retains the entities for which holding a value of the component type
/// `key` is as `wanted` says.
fn retain_by_component<P>(world: &World<P>, entities: &mut Vec<Entity>, key: TypeKey, wanted: bool)
    ensures
        final(entities)@ == old(entities)@.filter(
            |e: Entity| world@.has_component(key, e) == wanted,
        ),
{
    let ghost pred = |e: Entity| world@.has_component(key, e) == wanted;
    let mut kept: Vec<Entity> = Vec::new();
    let mut i: usize = 0;
    while i < entities.len()
        invariant
            i <= entities.len(),
            *entities == *old(entities),
            pred == |e: Entity| world@.has_component(key, e) == wanted,
            kept@ == entities@.take(i as int).filter(pred),
        decreases entities.len() - i,
    {
        proof {
            assert(entities@.take(i + 1) =~= entities@.take(i as int).push(entities@[i as int]));
            entities@.take(i as int).lemma_filter_push(entities@[i as int], pred);
        }
        if world.has_component(key, &entities[i]) == wanted {
            kept.push(entities[i]);
        }
        i = i + 1;
    }
    proof {
        assert(entities@.take(entities.len() as int) =~= entities@);
    }
    *entities = kept;
}

impl<P> QueryFilter<P> for With {
    open spec fn passing(&self, world: WorldModel<P>) -> spec_fn(Entity) -> bool {
        |e: Entity| world.has_component(self.0, e)
    }

    fn apply_filter(&self, world: &World<P>, entities: &mut Vec<Entity>) {
        retain_by_component(world, entities, self.0, true);
        proof {
            lemma_filter_agree(
                old(entities)@,
                |e: Entity| world@.has_component(self.0, e) == true,
                self.passing(world@),
            );
        }
    }
}

impl<P> QueryFilter<P> for Without {
    open spec fn passing(&self, world: WorldModel<P>) -> spec_fn(Entity) -> bool {
        |e: Entity| !world.has_component(self.0, e)
    }

    fn apply_filter(&self, world: &World<P>, entities: &mut Vec<Entity>) {
        retain_by_component(world, entities, self.0, false);
        proof {
            lemma_filter_agree(
                old(entities)@,
                |e: Entity| world@.has_component(self.0, e) == false,
                self.passing(world@),
            );
        }
    }
}

impl<P> QueryFilter<P> for NoFilter {
    open spec fn passing(&self, world: WorldModel<P>) -> spec_fn(Entity) -> bool {
        |e: Entity| true
    }

    fn apply_filter(&self, world: &World<P>, entities: &mut Vec<Entity>) {
        proof {
            lemma_filter_all(entities@, self.passing(world@));
        }
    }
}

/// The identity of an entity, as a function.
pub open spec fn id_of() -> spec_fn(Entity) -> u128 {
    |e: Entity| e.id
}

/// The identities of `entities`, in their order.
fn ids_of(entities: &Vec<Entity>) -> (ids: Vec<u128>)
    ensures
        ids@ == entities@.map_values(id_of()),
{
    let mut ids: Vec<u128> = Vec::with_capacity(entities.len());
    let mut i: usize = 0;
    while i < entities.len()
        invariant
            i <= entities.len(),
            ids@ == entities@.take(i as int).map_values(id_of()),
        decreases entities.len() - i,
    {
        ids.push(entities[i].id);
        i = i + 1;
    }
    ids
}

/// A conjunction of filters: an entity survives where it survives each of
/// them. The filters are applied one after the other, in their order.
pub trait QueryFilterFn<P> {
    /// The predicate of the entities that survive every filter in `world`.
    spec fn passing_all(&self, world: WorldModel<P>) -> spec_fn(Entity) -> bool;

    /// Retains the entities that survive every filter, in their order, and
    /// hands their identities back.
    fn apply_filters(&self, world: &World<P>, entities: &mut Vec<Entity>) -> (ids: Vec<u128>)
        ensures
            final(entities)@ == old(entities)@.filter(self.passing_all(world@)),
            ids@ == final(entities)@.map_values(id_of()),
    ;
}

impl<P> QueryFilterFn<P> for With {
    open spec fn passing_all(&self, world: WorldModel<P>) -> spec_fn(Entity) -> bool {
        self.passing(world)
    }

    fn apply_filters(&self, world: &World<P>, entities: &mut Vec<Entity>) -> (ids: Vec<u128>) {
        self.apply_filter(world, entities);
        ids_of(entities)
    }
}

impl<P> QueryFilterFn<P> for Without {
    open spec fn passing_all(&self, world: WorldModel<P>) -> spec_fn(Entity) -> bool {
        self.passing(world)
    }

    fn apply_filters(&self, world: &World<P>, entities: &mut Vec<Entity>) -> (ids: Vec<u128>) {
        self.apply_filter(world, entities);
        ids_of(entities)
    }
}

impl<P> QueryFilterFn<P> for NoFilter {
    open spec fn passing_all(&self, world: WorldModel<P>) -> spec_fn(Entity) -> bool {
        self.passing(world)
    }

    fn apply_filters(&self, world: &World<P>, entities: &mut Vec<Entity>) -> (ids: Vec<u128>) {
        self.apply_filter(world, entities);
        ids_of(entities)
    }
}

impl<P, Z: QueryFilter<P>> QueryFilterFn<P> for (Z, ) {
    open spec fn passing_all(&self, world: WorldModel<P>) -> spec_fn(Entity) -> bool {
        self.0.passing(world)
    }

    fn apply_filters(&self, world: &World<P>, entities: &mut Vec<Entity>) -> (ids: Vec<u128>) {
        self.0.apply_filter(world, entities);
        ids_of(entities)
    }
}

impl<P, Y: QueryFilter<P>, Z: QueryFilter<P>> QueryFilterFn<P> for (Y, Z) {
    open spec fn passing_all(&self, world: WorldModel<P>) -> spec_fn(Entity) -> bool {
        |e: Entity| self.0.passing(world)(e) && self.1.passing(world)(e)
    }

    fn apply_filters(&self, world: &World<P>, entities: &mut Vec<Entity>) -> (ids: Vec<u128>) {
        self.0.apply_filter(world, entities);
        self.1.apply_filter(world, entities);
        proof {
            lemma_filter_twice(old(entities)@, self.0.passing(world@), self.1.passing(world@));
        }
        ids_of(entities)
    }
}

/// The request for a shared borrow of the component type.
#[derive(Clone, Copy, Debug, PartialEq, Eq, Structural)]
pub struct Ref(pub TypeKey);

/// The request for the exclusive borrow of the component type.
#[derive(Clone, Copy, Debug, PartialEq, Eq, Structural)]
pub struct RefMut(pub TypeKey);

/// One requested component of a query.
pub trait Queryable {
    /// The component type and the borrow mode that are requested.
    spec fn request(&self) -> Request;

    /// The component type that is requested.
    fn type_id(&self) -> (key: TypeKey)
        ensures
            key == self.request().0,
    ;

    /// The mode in which the component is to be borrowed.
    fn mode(&self) -> (mode: BorrowMode)
        ensures
            mode == self.request().1,
    ;
}

impl Queryable for Ref {
    open spec fn request(&self) -> Request {
        (self.0, BorrowMode::Shared)
    }

    fn type_id(&self) -> (key: TypeKey) {
        self.0
    }

    fn mode(&self) -> (mode: BorrowMode) {
        BorrowMode::Shared
    }
}

impl Queryable for RefMut {
    open spec fn request(&self) -> Request {
        (self.0, BorrowMode::Exclusive)
    }

    fn type_id(&self) -> (key: TypeKey) {
        self.0
    }

    fn mode(&self) -> (mode: BorrowMode) {
        BorrowMode::Exclusive
    }
}

/// The shape of a query: its requests, in order.
pub trait QueryableFn {
    /// The requests of the shape.
    spec fn shape(&self) -> Seq<Request>;

    /// The requests of the shape.
    fn type_ids(&self) -> (requests: Vec<Request>)
        ensures
            requests@ == self.shape(),
    ;
}

impl<Z: Queryable> QueryableFn for Z {
    open spec fn shape(&self) -> Seq<Request> {
        seq![self.request()]
    }

    fn type_ids(&self) -> (requests: Vec<Request>) {
        let mut requests = Vec::with_capacity(1);
        requests.push((self.type_id(), self.mode()));
        requests
    }
}

impl<Z: Queryable> QueryableFn for (Z, ) {
    open spec fn shape(&self) -> Seq<Request> {
        seq![self.0.request()]
    }

    fn type_ids(&self) -> (requests: Vec<Request>) {
        let mut requests = Vec::with_capacity(1);
        requests.push((self.0.type_id(), self.0.mode()));
        requests
    }
}

impl<Y: Queryable, Z: Queryable> QueryableFn for (Y, Z) {
    open spec fn shape(&self) -> Seq<Request> {
        seq![self.0.request(), self.1.request()]
    }

    fn type_ids(&self) -> (requests: Vec<Request>) {
        let mut requests = Vec::with_capacity(2);
        requests.push((self.0.type_id(), self.0.mode()));
        requests.push((self.1.type_id(), self.1.mode()));
        requests
    }
}

impl<Z: Queryable> QueryableFn for Vec<Z> {
    open spec fn shape(&self) -> Seq<Request> {
        Seq::new(self@.len(), |i: int| self@[i].request())
    }

    fn type_ids(&self) -> (requests: Vec<Request>) {
        let mut requests = Vec::with_capacity(self.len());
        let mut i: usize = 0;
        while i < self.len()
            invariant
                i <= self.len(),
                requests@ == self.shape().take(i as int),
            decreases self.len() - i,
        {
            requests.push((self[i].type_id(), self[i].mode()));
            i = i + 1;
        }
        requests
    }
}

/// A query: the shape of the borrows that are requested, and the filter
/// that narrows the entities beforehand.
pub struct Query<Q, F> {
    pub shape: Q,
    pub filter: F,
}

/// The snapshot that a query yields: for each entity that matches, in the
/// order of the live entities, its identity and one handle for each request
/// of the shape. What happens to the world afterwards does not change it.
pub struct QueryResult {
    pub bundles: Vec<(u128, Vec<ComponentHandle>)>,
}

/// A bundle as identity and sequence of handles.
pub open spec fn bundle_view() -> spec_fn((u128, Vec<ComponentHandle>)) -> (
    u128,
    Seq<ComponentHandle>,
) {
    |bundle: (u128, Vec<ComponentHandle>)| (bundle.0, bundle.1@)
}

impl View for QueryResult {
    type V = Seq<(u128, Seq<ComponentHandle>)>;

    open spec fn view(&self) -> Seq<(u128, Seq<ComponentHandle>)> {
        self.bundles@.map_values(bundle_view())
    }
}

/// A copy of `entities`.
fn copy_of(entities: &Vec<Entity>) -> (copy: Vec<Entity>)
    ensures
        copy@ == entities@,
{
    let mut copy: Vec<Entity> = Vec::with_capacity(entities.len());
    let mut i: usize = 0;
    while i < entities.len()
        invariant
            i <= entities.len(),
            copy@ == entities@.take(i as int),
        decreases entities.len() - i,
    {
        copy.push(entities[i]);
        i = i + 1;
    }
    copy
}

impl<Q: QueryableFn, F> Query<Q, F> {
    /// The query of `shape` among the entities that survive `filter`.
    pub fn new(shape: Q, filter: F) -> (query: Self)
        ensures
            query.shape == shape,
            query.filter == filter,
    {
        Query { shape, filter }
    }

    /// What the query yields in `world`: the live entities that survive the
    /// filter and hold every requested component, each with its handles.
    pub open spec fn result<P>(&self, world: WorldModel<P>) -> Seq<
        (u128, Seq<ComponentHandle>),
    > where F: QueryFilterFn<P> 
     {
        world.query(self.shape.shape(), world.entities.filter(self.filter.passing_all(world)))
    }

    /// The handles of the entity with identity `id`, one for each request,
    /// where the entity holds every requested component.
    fn resolve<P>(
        world: &World<P>,
        tables: &Vec<&ComponentArchetype<P>>,
        requests: &Vec<Request>,
        id: u128,
    ) -> (handles: Option<Vec<ComponentHandle>>)
        requires
            tables.len() == requests.len(),
            forall|m: int|
                0 <= m < requests.len() ==> world@.registered((#[trigger] requests[m]).0)
                    && tables[m].key() == requests[m].0 && tables[m].slots()
                    == world@.tables[requests[m].0],
        ensures
            match handles {
                Some(list) => world@.holds_all(requests@, Entity { id }) && list@
                    == world@.handles_for(requests@, Entity { id }),
                None => !world@.holds_all(requests@, Entity { id }),
            },
    {
        let ghost entity = Entity { id };
        let mut handles: Vec<ComponentHandle> = Vec::with_capacity(requests.len());
        let mut m: usize = 0;
        while m < requests.len()
            invariant
                m <= requests.len(),
                entity == (Entity { id }),
                tables.len() == requests.len(),
                forall|n: int|
                    0 <= n < requests.len() ==> world@.registered((#[trigger] requests[n]).0)
                        && tables[n].key() == requests[n].0 && tables[n].slots()
                        == world@.tables[requests[n].0],
                handles@ == world@.handles_for(requests@, entity).take(m as int),
                forall|n: int|
                    0 <= n < m ==> world@.has_component((#[trigger] requests[n]).0, entity),
            decreases requests.len() - m,
        {
            match tables[m].get_component_with_id(&id, requests[m].1) {
                Some(handle) => {
                    handles.push(handle);
                },
                None => {
                    return None;
                },
            }
            m = m + 1;
        }
        Some(handles)
    }
}

impl<P, Q: QueryableFn, F: QueryFilterFn<P>> WorldData<P> for Query<Q, F> {
    type Data = QueryResult;

    /// Resolves the query against the world as it is now. Every requested
    /// component type must be registered. Each handle of the result takes a
    /// share of its cell, so it goes on reaching the cell when the entity
    /// is killed or the component is overwritten or taken away; nothing
    /// else of the world changes, and no cell is borrowed.
    fn take(&self, world: &mut World<P>) -> (taken: Result<QueryResult, EcsError>)
        ensures
            match taken {
                Ok(found) => {
                    &&& old(world)@.resolves(self.shape.shape())
                    &&& found@ == self.result(old(world)@)
                    &&& final(world)@ == old(world)@.hold_bundles(found@)
                    &&& final(world)@.keeps_all(found@)
                    &&& old(world)@.same_contents(final(world)@)
                },
                Err(e) => {
                    &&& e == EcsError::UnregisteredArchetype
                    &&& !old(world)@.resolves(self.shape.shape())
                    &&& *final(world) == *old(world)
                },
            },
    {
        let shared: &World<P> = world;
        let requests = self.shape.type_ids();
        let mut tables: Vec<&ComponentArchetype<P>> = Vec::with_capacity(requests.len());
        let mut j: usize = 0;
        while j < requests.len()
            invariant
                j <= requests.len(),
                tables.len() == j,
                *shared == *old(world),
                requests@ == self.shape.shape(),
                forall|m: int|
                    0 <= m < j ==> shared@.registered((#[trigger] requests[m]).0) && tables[m].key()
                        == requests[m].0 && tables[m].slots() == shared@.tables[requests[m].0],
            decreases requests.len() - j,
        {
            match shared.get_archetype_const(requests[j].0) {
                Some(table) => {
                    tables.push(table);
                },
                None => {
                    return Err(EcsError::UnregisteredArchetype);
                },
            }
            j = j + 1;
        }
        let mut candidates = copy_of(shared.entities());
        let ids = self.filter.apply_filters(shared, &mut candidates);
        let ghost matching = shared@.matching(requests@);
        let mut bundles: Vec<(u128, Vec<ComponentHandle>)> = Vec::new();
        let mut i: usize = 0;
        while i < ids.len()
            invariant
                i <= ids.len(),
                ids@ == candidates@.map_values(id_of()),
                matching == shared@.matching(requests@),
                tables.len() == requests.len(),
                forall|m: int|
                    0 <= m < requests.len() ==> shared@.registered((#[trigger] requests[m]).0)
                        && tables[m].key() == requests[m].0 && tables[m].slots()
                        == shared@.tables[requests[m].0],
                bundles@.map_values(bundle_view()) == shared@.query(
                    requests@,
                    candidates@.take(i as int),
                ),
            decreases ids.len() - i,
        {
            let ghost entity = candidates@[i as int];
            proof {
                assert(candidates@.take(i + 1) =~= candidates@.take(i as int).push(entity));
                candidates@.take(i as int).lemma_filter_push(entity, matching);
            }
            match Self::resolve(shared, &tables, &requests, ids[i]) {
                Some(handles) => {
                    bundles.push((ids[i], handles));
                    assert(candidates@.take(i as int).filter(matching).push(entity).map_values(
                        shared@.bundle_for(requests@),
                    ) =~= candidates@.take(i as int).filter(matching).map_values(
                        shared@.bundle_for(requests@),
                    ).push((entity.id, shared@.handles_for(requests@, entity))));
                },
                None => {},
            }
            i = i + 1;
        }
        assert(candidates@.take(ids.len() as int) =~= candidates@);
        let ghost found = bundles@.map_values(bundle_view());
        let mut b: usize = 0;
        while b < bundles.len()
            invariant
                b <= bundles.len(),
                found == bundles@.map_values(bundle_view()),
                world@ == old(world)@.hold_bundles(found.take(b as int)),
            decreases bundles.len() - b,
        {
            let ghost start = world@;
            let mut h: usize = 0;
            while h < bundles[b].1.len()
                invariant
                    b < bundles.len(),
                    h <= bundles[b as int].1.len(),
                    world@ == start.hold_all(bundles[b as int].1@.take(h as int)),
                decreases bundles[b as int].1.len() - h,
            {
                world.hold(&bundles[b].1[h]);
                proof {
                    let handles = bundles[b as int].1@;
                    assert(handles.take(h + 1).drop_last() =~= handles.take(h as int));
                    assert(handles.take(h + 1).last() == handles[h as int]);
                }
                h = h + 1;
            }
            proof {
                let handles = bundles[b as int].1@;
                assert(handles.take(handles.len() as int) =~= handles);
                assert(found.take(b + 1).drop_last() =~= found.take(b as int));
                assert(found.take(b + 1).last() == found[b as int]);
            }
            b = b + 1;
        }
        proof {
            assert(found.take(bundles.len() as int) =~= found);
            assert forall|i: int, j: int|
                0 <= i < found.len() && 0 <= j < found[i].1.len() implies (world@.cell(
                #[trigger] found[i].1[j],
            ) matches Ok(cell) && cell.kept()) by {
                law_result_holds_its_cells(*self, old(world)@, i, j);
            }
            law_shares_of_bundles_keep_contents(old(world)@, found);
        }
        Ok(QueryResult { bundles })
    }

    /// Gives the result back: each of its handles lets its share of its
    /// cell go. A cell that left its table meanwhile is dropped when nobody
    /// has a share of it any more. Nothing changes of the live entities or
    /// of what the tables hold.
    fn release(&self, data: QueryResult, world: &mut World<P>)
        ensures
            final(world)@ == old(world)@.let_go_bundles(data@),
            old(world)@.same_contents(final(world)@),
    {
        let ghost given = data@;
        proof {
            law_shares_of_bundles_keep_contents(old(world)@, given);
        }
        let mut b: usize = 0;
        while b < data.bundles.len()
            invariant
                b <= data.bundles.len(),
                given == data.bundles@.map_values(bundle_view()),
                world@ == old(world)@.let_go_bundles(given.take(b as int)),
            decreases data.bundles.len() - b,
        {
            let ghost start = world@;
            let mut h: usize = 0;
            while h < data.bundles[b].1.len()
                invariant
                    b < data.bundles.len(),
                    h <= data.bundles[b as int].1.len(),
                    world@ == start.let_go_all(data.bundles[b as int].1@.take(h as int)),
                decreases data.bundles[b as int].1.len() - h,
            {
                world.let_go(&data.bundles[b].1[h]);
                proof {
                    let handles = data.bundles[b as int].1@;
                    assert(handles.take(h + 1).drop_last() =~= handles.take(h as int));
                    assert(handles.take(h + 1).last() == handles[h as int]);
                }
                h = h + 1;
            }
            proof {
                let handles = data.bundles[b as int].1@;
                assert(handles.take(handles.len() as int) =~= handles);
                assert(given.take(b + 1).drop_last() =~= given.take(b as int));
                assert(given.take(b + 1).last() == given[b as int]);
            }
            b = b + 1;
        }
        assert(given.take(data.bundles.len() as int) =~= given);
    }
}

} // verus!
