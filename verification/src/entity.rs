//! Entities and what names their components.

use vstd::prelude::*;
use crate::cell::{BorrowMode, CellId};
use crate::error::EcsError;
use crate::world::World;

verus! {

/// The key of a component type: all payloads stored under one key share one
/// archetype table.
pub type TypeKey = u64;

/// An identity with no data of its own; the join key across all tables.
///
/// The identity is the 128-bit value of a UUID.
#[derive(Clone, Copy, Debug, PartialEq, Eq, Hash, Structural)]
pub struct Entity {
    pub id: u128,
}

impl Default for Entity {
    /// The entity with the nil identity.
    fn default() -> (entity: Self)
        ensures
            entity.id == 0,
    {
        Entity { id: 0 }
    }
}

/// A handle to the storage cell of one component of one entity, together
/// with the mode in which it is meant to be borrowed. The handle carries the
/// identity of the cell, so a handle that has a share of its cell goes on
/// reaching that cell when the entity is killed or the component is
/// overwritten or taken away.
#[derive(Clone, Copy, Debug, PartialEq, Eq, Structural)]
pub struct ComponentHandle {
    pub entity: Entity,
    pub key: TypeKey,
    pub mode: BorrowMode,
    pub cell: CellId,
}

/// A payload type that can be stored. It tells the key of its component
/// type; payloads that answer the same key share a table.
pub trait Component {
    /// The key of the component type of this payload.
    fn type_key(&self) -> TypeKey;
}

/// Whether `id` is the value of a UUID of version 4: the version bits say
/// 4, and the variant bits say RFC 4122.
pub open spec fn is_version_4(id: u128) -> bool {
    id & 0x0000_0000_0000_f000_c000_0000_0000_0000u128
        == 0x0000_0000_0000_4000_8000_0000_0000_0000u128
}

/// A fresh random identity: calls `uuid::Uuid::new_v4` and hands back the
/// 128-bit value of the UUID (`Uuid::as_u128`). The generator fills all
/// bits at random but the six that mark version 4 and the RFC 4122 variant;
/// that is all that is claimed of the result. Two calls may return the same
/// value. `new_v4` panics where the operating system yields no random bytes.
#[verifier::external_body]
pub(crate) fn random_id() -> (id: u128)
    ensures
        is_version_4(id),
{
    uuid::Uuid::new_v4().as_u128()
}

/// Pairs `component` with the key that it tells of itself.
pub fn keyed<C: Component>(component: C) -> (pair: (TypeKey, C))
    ensures
        call_ensures(<C as Component>::type_key, (&component,), pair.0),
        pair.1 == component,
{
    let key = component.type_key();
    (key, component)
}

/// An ordered aggregate of payloads, each with the key of its component
/// type, for inserting many components in one call.
pub trait Bundle<P>: Sized {
    /// The payloads with their keys, in the order of the aggregate.
    spec fn components(self) -> Seq<(TypeKey, P)>;

    /// Takes the aggregate apart.
    fn fetch_components(self) -> (list: Vec<(TypeKey, P)>)
        ensures
            list@ == self.components(),
    ;
}

impl<P> Bundle<P> for (TypeKey, P) {
    open spec fn components(self) -> Seq<(TypeKey, P)> {
        seq![self]
    }

    fn fetch_components(self) -> (list: Vec<(TypeKey, P)>) {
        let mut list = Vec::with_capacity(1);
        list.push(self);
        list
    }
}

impl<P> Bundle<P> for ((TypeKey, P), (TypeKey, P)) {
    open spec fn components(self) -> Seq<(TypeKey, P)> {
        seq![self.0, self.1]
    }

    fn fetch_components(self) -> (list: Vec<(TypeKey, P)>) {
        let mut list = Vec::with_capacity(2);
        list.push(self.0);
        list.push(self.1);
        list
    }
}

impl<P> Bundle<P> for Vec<(TypeKey, P)> {
    open spec fn components(self) -> Seq<(TypeKey, P)> {
        self@
    }

    fn fetch_components(self) -> (list: Vec<(TypeKey, P)>) {
        self
    }
}

/// Stages the components of an entity before the entity becomes visible in
/// every registered table at once.
pub struct EntityBuilder<'a, P> {
    pub entity: Entity,
    pub components: Vec<(TypeKey, P)>,
    pub world: &'a mut World<P>,
}

impl<'a, P> EntityBuilder<'a, P> {
    /// A builder for `entity` in `world`, with nothing staged.
    pub fn new(entity: Entity, world: &'a mut World<P>) -> (builder: Self)
        ensures
            builder.entity == entity,
            builder.components@ == Seq::<(TypeKey, P)>::empty(),
            *builder.world == *old(world),
            *final(builder.world) == *final(world),
    {
        EntityBuilder { entity, components: Vec::new(), world }
    }

    /// Stages the components of `bundle`, after those staged before.
    pub fn with_components<B: Bundle<P>>(self, bundle: B) -> (builder: Self)
        ensures
            builder.entity == self.entity,
            builder.components@ == self.components@ + bundle.components(),
            *builder.world == *old(self.world),
            *final(builder.world) == *final(self.world),
    {
        let mut builder = self;
        let mut list = bundle.fetch_components();
        builder.components.append(&mut list);
        builder
    }

    /// Stages `component` under the key that it tells of itself, after the
    /// components staged before.
    pub fn with(self, component: P) -> (builder: Self) where P: Component
        ensures
            builder.entity == self.entity,
            exists|key: TypeKey|
                call_ensures(<P as Component>::type_key, (&component,), key)
                    && builder.components@ == self.components@.push((key, component)),
            *builder.world == *old(self.world),
            *final(builder.world) == *final(self.world),
    {
        let pair = keyed(component);
        let builder = self.with_components(pair);
        assert(builder.components@ =~= self.components@.push((pair.0, component)));
        builder
    }

    /// Spawns the entity with what was staged, and hands its identity back.
    /// The world is unchanged where the entity is live already, a staged
    /// payload is of a component type that is not registered, or the cell
    /// identities do not suffice.
    pub fn spawn(self) -> (spawned: Result<Entity, EcsError>)
        ensures
            match old(self.world)@.spawn_error(self.entity, self.components@) {
                Some(e) => spawned == Err::<Entity, EcsError>(e) && final(self.world)@ == old(
                    self.world,
                )@,
                None => spawned == Ok::<Entity, EcsError>(self.entity) && final(self.world)@
                    == old(self.world)@.spawn(self.entity, self.components@),
            },
    {
        let EntityBuilder { entity, components, world } = self;
        match world.spawn(entity, components) {
            Ok(()) => Ok(entity),
            Err(e) => Err(e),
        }
    }
}

} // verus!
