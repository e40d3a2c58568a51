//! Lemmas about sequences and about the model of a world, on which the
//! laws and the proofs of the operations rest.

use vstd::prelude::*;
use crate::cell::{BorrowState, CellId};
use crate::entity::{Entity, TypeKey};
use crate::model::{other_than, probe, staged_slot, Request, WorldModel};

verus! {

/// Filtering by predicates that agree on every element gives the same.
pub proof fn lemma_filter_agree<A>(s: Seq<A>, p: spec_fn(A) -> bool, q: spec_fn(A) -> bool)
    requires
        forall|a: A| #[trigger] p(a) == q(a),
    ensures
        s.filter(p) == s.filter(q),
    decreases s.len(),
{
    reveal(Seq::filter);
    if s.len() > 0 {
        lemma_filter_agree(s.drop_last(), p, q);
    }
}

/// Filtering by a predicate that holds of every element changes nothing.
pub proof fn lemma_filter_all<A>(s: Seq<A>, p: spec_fn(A) -> bool)
    requires
        forall|a: A| #[trigger] p(a),
    ensures
        s.filter(p) == s,
    decreases s.len(),
{
    reveal(Seq::filter);
    if s.len() > 0 {
        lemma_filter_all(s.drop_last(), p);
    }
}

/// Filtering twice is filtering by the conjunction.
pub proof fn lemma_filter_twice<A>(s: Seq<A>, p: spec_fn(A) -> bool, q: spec_fn(A) -> bool)
    ensures
        s.filter(p).filter(q) == s.filter(|a: A| p(a) && q(a)),
    decreases s.len(),
{
    reveal(Seq::filter);
    if s.len() > 0 {
        lemma_filter_twice(s.drop_last(), p, q);
        if p(s.last()) {
            s.drop_last().filter(p).lemma_filter_push(s.last(), q);
        }
    }
}

/// A staged slot, where it holds a value, holds it in a cell that nobody
/// has borrowed, with the identity that the payload got: that of the place
/// of the payload among the staged ones, counted from `first`.
pub proof fn lemma_staged_slot_id<P>(staged: Seq<(TypeKey, P)>, key: TypeKey, first: CellId)
    requires
        first + staged.len() <= CellId::MAX,
    ensures
        staged_slot(staged, key, first) matches Some(cell) ==> {
            &&& cell.state == BorrowState::Free
            &&& first <= cell.id < first + staged.len()
            &&& staged[cell.id - first].0 == key
        },
    decreases staged.len(),
{
    if staged.len() > 0 && staged.last().0 != key {
        lemma_staged_slot_id(staged.drop_last(), key, first);
    }
}

/// What is live after a kill: every entity that was live, but the one killed.
pub proof fn lemma_live_after_kill<P>(world: WorldModel<P>, entity: Entity, other: Entity)
    ensures
        world.kill(entity).is_live(other) <==> world.is_live(other) && other != entity,
{
    let kept = world.entities.filter(other_than(entity));
    broadcast use vstd::seq_lib::group_filter_ensures;

    if kept.contains(other) {
        world.entities.lemma_filter_contains_rev(other_than(entity), other);
    }
}

/// Filtering a sequence without duplicates leaves no duplicates.
pub proof fn lemma_filter_no_duplicates<A>(s: Seq<A>, pred: spec_fn(A) -> bool)
    requires
        s.no_duplicates(),
    ensures
        s.filter(pred).no_duplicates(),
    decreases s.len(),
{
    reveal(Seq::filter);
    if s.len() > 0 {
        let rest = s.drop_last();
        lemma_filter_no_duplicates(rest, pred);
        if pred(s.last()) {
            let kept = rest.filter(pred);
            assert forall|i: int| 0 <= i < kept.len() implies kept[i] != s.last() by {
                rest.lemma_filter_contains_rev(pred, kept[i]);
            }
        }
    }
}


/// An entity that was killed is in no result over the entities that are
/// live afterwards, whatever the shape and the predicate.
pub proof fn lemma_killed_not_found<P>(
    world: WorldModel<P>,
    entity: Entity,
    shape: Seq<Request>,
    passing: spec_fn(Entity) -> bool,
    i: int,
)
    requires
        0 <= i < world.kill(entity).query(
            shape,
            world.kill(entity).entities.filter(passing),
        ).len(),
    ensures
        world.kill(entity).query(shape, world.kill(entity).entities.filter(passing))[i].0
            != entity.id,
{
    let after = world.kill(entity);
    let found = after.query(shape, after.entities.filter(passing));
    let hit = Entity { id: found[i].0 };
    lemma_query_sound(after, shape, after.entities.filter(passing), i);
    after.entities.lemma_filter_contains_rev(passing, hit);
    lemma_live_after_kill(world, entity, hit);
}

/// Every bundle of a query stands for a candidate that holds every
/// requested component, and carries exactly the handles of the shape.
pub proof fn lemma_query_sound<P>(
    world: WorldModel<P>,
    shape: Seq<Request>,
    candidates: Seq<Entity>,
    i: int,
)
    requires
        0 <= i < world.query(shape, candidates).len(),
    ensures
        ({
            let bundle = world.query(shape, candidates)[i];
            let entity = Entity { id: bundle.0 };
            &&& candidates.contains(entity)
            &&& world.holds_all(shape, entity)
            &&& bundle.1 == world.handles_for(shape, entity)
            &&& bundle.1.len() == shape.len()
        }),
{
    broadcast use vstd::seq_lib::group_filter_ensures;

    let kept = candidates.filter(world.matching(shape));
    let entity = kept[i];
    candidates.lemma_filter_contains_rev(world.matching(shape), entity);
}

/// A result over the live entities that satisfy a predicate holds exactly
/// the entities that are live, satisfy the predicate and hold every
/// requested component; none appears with fewer handles than the shape has
/// requests.
pub proof fn lemma_query_exact<P>(
    world: WorldModel<P>,
    shape: Seq<Request>,
    passing: spec_fn(Entity) -> bool,
    entity: Entity,
)
    ensures
        ({
            let found = world.query(shape, world.entities.filter(passing));
            &&& (exists|i: int| 0 <= i < found.len() && (#[trigger] found[i]).0 == entity.id) <==> (
            world.is_live(entity) && passing(entity) && world.holds_all(shape, entity))
            &&& forall|i: int| 0 <= i < found.len() ==> (#[trigger] found[i]).1.len() == shape.len()
        }),
{
    broadcast use vstd::seq_lib::group_filter_ensures;

    let candidates = world.entities.filter(passing);
    let kept = candidates.filter(world.matching(shape));
    let found = world.query(shape, candidates);
    if exists|i: int| 0 <= i < found.len() && (#[trigger] found[i]).0 == entity.id {
        let i = choose|i: int| 0 <= i < found.len() && (#[trigger] found[i]).0 == entity.id;
        lemma_query_sound(world, shape, candidates, i);
        world.entities.lemma_filter_contains_rev(passing, entity);
    }
    if world.is_live(entity) && passing(entity) && world.holds_all(shape, entity) {
        let j = choose|j: int| 0 <= j < world.entities.len() && world.entities[j] == entity;
        assert(candidates.contains(world.entities[j]));
        let k = choose|k: int| 0 <= k < candidates.len() && candidates[k] == entity;
        assert(kept.contains(candidates[k]));
        let i = choose|i: int| 0 <= i < kept.len() && kept[i] == entity;
        assert(found[i].0 == entity.id);
    }
    assert forall|i: int| 0 <= i < found.len() implies (#[trigger] found[i]).1.len()
        == shape.len() by {
        lemma_query_sound(world, shape, candidates, i);
    }
}

/// The bundles of a result come in the order of the candidates: of two
/// bundles, the earlier stands for the candidate that comes first.
pub proof fn lemma_result_keeps_order<P>(
    world: WorldModel<P>,
    shape: Seq<Request>,
    candidates: Seq<Entity>,
)
    requires
        candidates.no_duplicates(),
    ensures
        ({
            let found = world.query(shape, candidates);
            forall|i: int, j: int|
                0 <= i < j < found.len() ==> candidates.index_of(
                    Entity { id: (#[trigger] found[i]).0 },
                ) < candidates.index_of(Entity { id: (#[trigger] found[j]).0 })
        }),
{
    let kept = candidates.filter(world.matching(shape));
    let found = world.query(shape, candidates);
    lemma_filter_keeps_order(candidates, world.matching(shape));
    assert forall|i: int, j: int| 0 <= i < j < found.len() implies candidates.index_of(
        Entity { id: (#[trigger] found[i]).0 },
    ) < candidates.index_of(Entity { id: (#[trigger] found[j]).0 }) by {
        assert(kept[i] == Entity { id: found[i].0 });
        assert(kept[j] == Entity { id: found[j].0 });
    }
}

/// Filtering a sequence without duplicates keeps the order of what stays.
pub proof fn lemma_filter_keeps_order<A>(s: Seq<A>, pred: spec_fn(A) -> bool)
    requires
        s.no_duplicates(),
    ensures
        forall|i: int, j: int|
            0 <= i < j < s.filter(pred).len() ==> s.index_of(#[trigger] s.filter(pred)[i])
                < s.index_of(#[trigger] s.filter(pred)[j]),
    decreases s.len(),
{
    reveal(Seq::filter);
    let kept = s.filter(pred);
    if s.len() > 0 {
        let rest = s.drop_last();
        lemma_filter_keeps_order(rest, pred);
        let kept_rest = rest.filter(pred);
        assert forall|i: int, j: int| 0 <= i < j < kept.len() implies s.index_of(
            #[trigger] kept[i],
        ) < s.index_of(#[trigger] kept[j]) by {
            assert forall|k: int| 0 <= k < kept_rest.len() implies s.index_of(kept_rest[k])
                == rest.index_of(kept_rest[k]) && rest.index_of(kept_rest[k]) < rest.len() by {
                rest.lemma_filter_contains_rev(pred, kept_rest[k]);
            }
        }
    }
}

/// Two predicates retain the same elements in whichever order they are applied.
pub proof fn lemma_filter_order<A>(s: Seq<A>, p: spec_fn(A) -> bool, q: spec_fn(A) -> bool)
    ensures
        s.filter(p).filter(q) == s.filter(q).filter(p),
{
    lemma_filter_twice(s, p, q);
    lemma_filter_twice(s, q, p);
    lemma_filter_agree(s, |a: A| p(a) && q(a), |a: A| q(a) && p(a));
}

/// There are as many live identities as live entities.
pub proof fn lemma_live_count<P>(world: WorldModel<P>)
    requires
        world.entities.no_duplicates(),
    ensures
        world.live_ids().finite(),
        world.live_ids().len() == world.entities.len(),
{
    let ids = world.entities.map_values(|e: Entity| e.id);
    ids.unique_seq_to_set();
    vstd::seq_lib::seq_to_set_is_finite(ids);
    assert forall|id: u128| ids.to_set().contains(id) <==> world.live_ids().contains(id) by {
        if ids.contains(id) {
            let i = choose|i: int| 0 <= i < ids.len() && ids[i] == id;
            assert(world.entities[i] == Entity { id });
        }
        if world.entities.contains(Entity { id }) {
            let i = choose|i: int|
                0 <= i < world.entities.len() && world.entities[i] == Entity { id };
            assert(ids[i] == id);
        }
    }
    assert(ids.to_set() =~= world.live_ids());
}

/// Where the first `steps` probes from `candidate` all hit live identities,
/// there are at least `steps` live entities.
pub proof fn lemma_probes_bounded<P>(world: WorldModel<P>, candidate: u128, steps: nat)
    requires
        world.entities.no_duplicates(),
        steps <= usize::MAX + 1,
        forall|t: int| 0 <= t < steps ==> world.live_ids().contains(#[trigger] probe(candidate, t)),
    ensures
        steps <= world.entities.len(),
{
    let probes = Seq::new(steps, |t: int| probe(candidate, t));
    probes.unique_seq_to_set();
    lemma_live_count(world);
    vstd::set_lib::lemma_len_subset(probes.to_set(), world.live_ids());
}

/// A slot staged for a component type holds a value exactly where a payload
/// was staged under that type.
pub proof fn lemma_staged_slot_some<P>(staged: Seq<(TypeKey, P)>, key: TypeKey, first: CellId)
    ensures
        staged_slot(staged, key, first) is Some <==> exists|i: int|
            0 <= i < staged.len() && (#[trigger] staged[i]).0 == key,
    decreases staged.len(),
{
    if staged.len() > 0 {
        let rest = staged.drop_last();
        lemma_staged_slot_some(rest, key, first);
        if staged.last().0 != key {
            if exists|i: int| 0 <= i < rest.len() && (#[trigger] rest[i]).0 == key {
                let i = choose|i: int| 0 <= i < rest.len() && (#[trigger] rest[i]).0 == key;
                assert(staged[i].0 == key);
            }
            if exists|i: int| 0 <= i < staged.len() && (#[trigger] staged[i]).0 == key {
                let i = choose|i: int| 0 <= i < staged.len() && (#[trigger] staged[i]).0 == key;
                assert(rest[i].0 == key);
            }
        }
    }
}

} // verus!
