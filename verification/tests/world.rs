use gecs::archetype::Archetype;
use gecs::cell::BorrowMode;
use gecs::entity::{Component, ComponentHandle, Entity, EntityBuilder, TypeKey};
use gecs::error::EcsError;
use gecs::storage::Storage;
use gecs::world::World;

const POSITION: TypeKey = 1;
const VELOCITY: TypeKey = 2;
const HEALTH: TypeKey = 3;

#[derive(Clone, Debug, PartialEq)]
enum Data {
    Position { x: i32, y: i32 },
    Velocity { dx: i32, dy: i32 },
    Health(u32),
}

impl Component for Data {
    fn type_key(&self) -> TypeKey {
        match self {
            Data::Position { .. } => POSITION,
            Data::Velocity { .. } => VELOCITY,
            Data::Health(_) => HEALTH,
        }
    }
}

/// The handle to the component, or one that reaches nothing where the
/// entity holds no such component.
/// A handle to the component, which holds its cell, or one that reaches
/// nothing where the entity holds no such component.
fn handle(
    world: &mut World<Data>,
    entity: Entity,
    key: TypeKey,
    mode: BorrowMode,
) -> ComponentHandle {
    let nowhere = ComponentHandle { entity, key, mode, cell: u64::MAX };
    world.get_component(key, &entity, mode).unwrap_or(nowhere)
}

fn shared(world: &mut World<Data>, entity: Entity, key: TypeKey) -> ComponentHandle {
    handle(world, entity, key, BorrowMode::Shared)
}

fn exclusive(world: &mut World<Data>, entity: Entity, key: TypeKey) -> ComponentHandle {
    handle(world, entity, key, BorrowMode::Exclusive)
}

fn fetch(world: &mut World<Data>, entity: Entity, key: TypeKey) -> Result<Data, EcsError> {
    let handle = shared(world, entity, key);
    let value = world.borrow(&handle).and_then(|_| world.read(&handle).map(|v| v.clone()));
    if value.is_ok() {
        world.release(&handle)?;
    }
    world.let_go(&handle);
    value
}

#[test]
fn a_new_world_is_empty() {
    let world: World<Data> = World::new();
    assert!(world.entities().is_empty());
    assert!(world.get_archetype_const(POSITION).is_none());
    assert!(!world.has_component(POSITION, &Entity { id: 1 }));
    assert_eq!(world.storage().entity_len(), 0);
    let storage: Storage<Data> = Storage::new();
    assert_eq!(storage.entity_len(), 0);
}

#[test]
fn registering_twice_changes_nothing() {
    let mut world: World<Data> = World::new();
    world.new_archetype(POSITION);
    let e = world.create_entity().with(Data::Position { x: 1, y: 2 }).spawn().unwrap();
    world.new_archetype(POSITION);
    assert!(world.has_component(POSITION, &e));
    assert_eq!(fetch(&mut world, e, POSITION), Ok(Data::Position { x: 1, y: 2 }));
    assert_eq!(world.get_archetype_const(POSITION).unwrap().get_size(), 1);
}

#[test]
fn a_late_archetype_has_a_slot_for_every_live_entity() {
    let mut world: World<Data> = World::new();
    world.new_archetype(POSITION);
    let e1 = world.create_entity().with(Data::Position { x: 1, y: 2 }).spawn().unwrap();
    let e2 = world.create_entity().spawn().unwrap();
    world.new_archetype(HEALTH);
    let table = world.get_archetype_const(HEALTH).unwrap();
    assert_eq!(table.type_id(), HEALTH);
    assert_eq!(table.get_size(), 2);
    assert!(!world.has_component(HEALTH, &e1));
    assert!(!world.has_component(HEALTH, &e2));
    assert_eq!(world.insert_component(&e2, HEALTH, Data::Health(3)), Ok(()));
    assert!(world.has_component(HEALTH, &e2));
}

#[test]
fn every_table_has_one_slot_for_each_live_entity() {
    let mut world: World<Data> = World::new();
    world.new_archetype(POSITION);
    world.new_archetype(VELOCITY);
    let mut spawned = Vec::new();
    for i in 0..5 {
        spawned.push(world.create_entity().with(Data::Position { x: i, y: i }).spawn().unwrap());
        assert_eq!(world.get_archetype_const(POSITION).unwrap().get_size(), spawned.len());
        assert_eq!(world.get_archetype_const(VELOCITY).unwrap().get_size(), spawned.len());
    }
    world.kill(&spawned[2]);
    assert_eq!(world.entities().len(), 4);
    assert_eq!(world.get_archetype_const(POSITION).unwrap().get_size(), 4);
    assert_eq!(world.get_archetype_const(VELOCITY).unwrap().get_size(), 4);
    assert_eq!(
        world.entities().clone(),
        vec![spawned[0], spawned[1], spawned[3], spawned[4]]
    );
}

#[test]
fn get_archetype_finds_the_table_of_a_payload() {
    let mut world: World<Data> = World::new();
    world.new_archetype(VELOCITY);
    let table = world.get_archetype(&Data::Velocity { dx: 0, dy: 0 }).unwrap();
    assert_eq!(table.type_id(), VELOCITY);
    assert!(world.get_archetype(&Data::Health(1)).is_none());
}

#[test]
fn insert_then_fetch_yields_the_payload() {
    let mut world: World<Data> = World::new();
    world.new_archetype(POSITION);
    let e = world.create_entity().spawn().unwrap();
    assert!(!world.has_component(POSITION, &e));
    assert_eq!(world.insert_component(&e, POSITION, Data::Position { x: 3, y: 4 }), Ok(()));
    assert!(world.has_component(POSITION, &e));
    assert_eq!(fetch(&mut world, e, POSITION), Ok(Data::Position { x: 3, y: 4 }));
}

#[test]
fn a_second_insert_overwrites() {
    let mut world: World<Data> = World::new();
    world.new_archetype(HEALTH);
    let e = world.create_entity().with(Data::Health(1)).spawn().unwrap();
    assert_eq!(world.insert_component(&e, HEALTH, Data::Health(2)), Ok(()));
    assert_eq!(fetch(&mut world, e, HEALTH), Ok(Data::Health(2)));
    let table = world.get_archetype_const(HEALTH).unwrap();
    assert_eq!(table.get_size(), 1);
    assert_eq!(table.get_components(BorrowMode::Shared).len(), 1);
}

#[test]
fn insert_needs_the_archetype_and_the_entity() {
    let mut world: World<Data> = World::new();
    let e = world.create_entity().spawn().unwrap();
    assert_eq!(
        world.insert_component(&e, HEALTH, Data::Health(2)),
        Err(EcsError::UnregisteredArchetype)
    );
    world.new_archetype(HEALTH);
    let stranger = Entity { id: e.id ^ 1 };
    assert_eq!(
        world.insert_component(&stranger, HEALTH, Data::Health(2)),
        Err(EcsError::MissingSlot)
    );
    assert!(!world.has_component(HEALTH, &stranger));
    assert_eq!(world.entities().len(), 1);
}

#[test]
fn remove_component_leaves_the_entity_and_its_other_components() {
    let mut world: World<Data> = World::new();
    world.new_archetype(POSITION);
    world.new_archetype(HEALTH);
    let e = world
        .create_entity()
        .with(Data::Position { x: 1, y: 1 })
        .with(Data::Health(9))
        .spawn()
        .unwrap();
    world.remove_component(&e, HEALTH);
    assert!(!world.has_component(HEALTH, &e));
    assert!(world.has_component(POSITION, &e));
    assert_eq!(world.entities().clone(), vec![e]);
    assert_eq!(world.get_archetype_const(HEALTH).unwrap().get_size(), 1);
    world.remove_component(&e, VELOCITY);
    world.remove_component(&Entity { id: e.id ^ 1 }, POSITION);
    assert!(world.has_component(POSITION, &e));
}

#[test]
fn kill_takes_every_component_away() {
    let mut world: World<Data> = World::new();
    world.new_archetype(POSITION);
    world.new_archetype(HEALTH);
    let e1 = world
        .create_entity()
        .with(Data::Position { x: 1, y: 1 })
        .with(Data::Health(9))
        .spawn()
        .unwrap();
    let e2 = world.create_entity().with(Data::Health(5)).spawn().unwrap();
    world.kill(&e1);
    assert!(!world.has_component(POSITION, &e1));
    assert!(!world.has_component(HEALTH, &e1));
    assert!(!world.has_component(VELOCITY, &e1));
    assert!(world.has_component(HEALTH, &e2));
    assert_eq!(world.entities().clone(), vec![e2]);
    assert_eq!(
        world.insert_component(&e1, HEALTH, Data::Health(1)),
        Err(EcsError::MissingSlot)
    );
}

#[test]
fn killing_an_entity_that_is_not_live_changes_nothing() {
    let mut world: World<Data> = World::new();
    world.new_archetype(HEALTH);
    let e = world.create_entity().with(Data::Health(5)).spawn().unwrap();
    world.kill(&Entity { id: e.id ^ 1 });
    assert_eq!(world.entities().clone(), vec![e]);
    assert!(world.has_component(HEALTH, &e));
}

#[test]
fn a_handle_survives_the_kill_of_its_entity() {
    let mut world: World<Data> = World::new();
    world.new_archetype(HEALTH);
    let e = world.create_entity().with(Data::Health(5)).spawn().unwrap();
    let held = shared(&mut world, e, HEALTH);
    let idle = exclusive(&mut world, e, HEALTH);
    assert_eq!(world.borrow(&held), Ok(()));
    world.kill(&e);
    assert!(!world.has_component(HEALTH, &e));
    assert_eq!(world.get_component(HEALTH, &e, BorrowMode::Shared), None);
    assert_eq!(world.read(&held), Ok(&Data::Health(5)));
    assert_eq!(world.borrow(&idle), Err(EcsError::AliasingViolation));
    assert_eq!(world.release(&held), Ok(()));
    assert_eq!(world.borrow(&idle), Ok(()));
    assert_eq!(world.write(&idle, Data::Health(6)), Ok(()));
    assert_eq!(world.read(&idle), Ok(&Data::Health(6)));
    assert_eq!(world.release(&idle), Ok(()));
    assert_eq!(world.borrow(&held), Ok(()));
    assert_eq!(world.read(&held), Ok(&Data::Health(6)));
}

#[test]
fn a_handle_does_not_reach_the_entity_that_is_spawned_under_the_same_identity() {
    let mut world: World<Data> = World::new();
    world.new_archetype(HEALTH);
    let e = Entity { id: 7 };
    assert_eq!(world.spawn(e, vec![(HEALTH, Data::Health(1))]), Ok(()));
    let old = shared(&mut world, e, HEALTH);
    world.kill(&e);
    assert_eq!(world.spawn(e, vec![(HEALTH, Data::Health(2))]), Ok(()));
    let new = shared(&mut world, e, HEALTH);
    assert_ne!(old.cell, new.cell);
    assert_eq!(world.borrow(&old), Ok(()));
    assert_eq!(world.borrow(&new), Ok(()));
    assert_eq!(world.read(&old), Ok(&Data::Health(1)));
    assert_eq!(world.read(&new), Ok(&Data::Health(2)));
}

#[test]
fn a_handle_survives_an_overwrite_and_a_removal() {
    let mut world: World<Data> = World::new();
    world.new_archetype(HEALTH);
    let e = world.create_entity().with(Data::Health(1)).spawn().unwrap();
    let first = exclusive(&mut world, e, HEALTH);
    assert_eq!(world.borrow(&first), Ok(()));
    assert_eq!(world.insert_component(&e, HEALTH, Data::Health(2)), Ok(()));
    let second = shared(&mut world, e, HEALTH);
    assert_ne!(first.cell, second.cell);
    assert_eq!(world.read(&first), Ok(&Data::Health(1)));
    assert_eq!(world.write(&first, Data::Health(10)), Ok(()));
    assert_eq!(world.release(&first), Ok(()));
    assert_eq!(world.borrow(&second), Ok(()));
    assert_eq!(world.read(&second), Ok(&Data::Health(2)));
    world.remove_component(&e, HEALTH);
    assert!(!world.has_component(HEALTH, &e));
    assert_eq!(world.read(&second), Ok(&Data::Health(2)));
    assert_eq!(world.release(&second), Ok(()));
    assert_eq!(world.borrow(&first), Ok(()));
    assert_eq!(world.read(&first), Ok(&Data::Health(10)));
}

#[test]
fn a_detached_cell_is_dropped_when_the_last_share_is_let_go() {
    let mut world: World<Data> = World::new();
    world.new_archetype(HEALTH);
    world.new_archetype(POSITION);
    let e = world
        .create_entity()
        .with(Data::Health(1))
        .with(Data::Position { x: 0, y: 0 })
        .spawn()
        .unwrap();
    let other = world.create_entity().with(Data::Health(3)).spawn().unwrap();
    let table = world.get_archetype_const(POSITION).unwrap();
    let unheld = table.get_component(&e, BorrowMode::Shared).unwrap();
    let first = shared(&mut world, e, HEALTH);
    let second = shared(&mut world, e, HEALTH);
    let attached = shared(&mut world, other, HEALTH);
    assert_eq!(first, second);
    assert_eq!(world.borrow(&first), Ok(()));
    world.kill(&e);
    assert_eq!(world.borrow(&unheld), Err(EcsError::MissingSlot));
    assert_eq!(world.read(&first), Ok(&Data::Health(1)));
    world.let_go(&first);
    assert_eq!(world.read(&second), Ok(&Data::Health(1)));
    world.let_go(&second);
    assert_eq!(world.read(&second), Ok(&Data::Health(1)));
    assert_eq!(world.release(&first), Ok(()));
    assert_eq!(world.borrow(&second), Err(EcsError::MissingSlot));
    assert_eq!(world.read(&first), Err(EcsError::MissingSlot));
    world.let_go(&attached);
    world.let_go(&attached);
    assert_eq!(world.borrow(&attached), Ok(()));
    assert_eq!(world.read(&attached), Ok(&Data::Health(3)));
    assert_eq!(world.entities().clone(), vec![other]);
}

#[test]
fn a_copy_of_a_handle_takes_its_own_share() {
    let mut world: World<Data> = World::new();
    world.new_archetype(HEALTH);
    let e = world.create_entity().with(Data::Health(1)).spawn().unwrap();
    let handle = shared(&mut world, e, HEALTH);
    let copy = handle;
    world.hold(&copy);
    world.kill(&e);
    world.let_go(&handle);
    assert_eq!(world.borrow(&copy), Ok(()));
    assert_eq!(world.read(&copy), Ok(&Data::Health(1)));
    assert_eq!(world.release(&copy), Ok(()));
    world.let_go(&copy);
    assert_eq!(world.borrow(&copy), Err(EcsError::MissingSlot));
    world.hold(&copy);
    world.let_go(&copy);
    assert_eq!(world.borrow(&copy), Err(EcsError::MissingSlot));
}

#[test]
fn spawn_is_all_or_nothing() {
    let mut world: World<Data> = World::new();
    world.new_archetype(POSITION);
    let spawned = world
        .create_entity()
        .with(Data::Position { x: 1, y: 1 })
        .with(Data::Health(9))
        .spawn();
    assert_eq!(spawned, Err(EcsError::UnregisteredArchetype));
    assert!(world.entities().is_empty());
    assert_eq!(world.get_archetype_const(POSITION).unwrap().get_size(), 0);
}

#[test]
fn an_entity_is_spawned_once() {
    let mut world: World<Data> = World::new();
    world.new_archetype(HEALTH);
    let e = Entity { id: 7 };
    assert_eq!(world.spawn(e, vec![(HEALTH, Data::Health(1))]), Ok(()));
    assert_eq!(world.spawn(e, vec![(HEALTH, Data::Health(2))]), Err(EcsError::DuplicateEntity));
    assert_eq!(world.spawn(e, vec![(VELOCITY, Data::Health(2))]), Err(EcsError::DuplicateEntity));
    assert_eq!(EntityBuilder::new(e, &mut world).spawn(), Err(EcsError::DuplicateEntity));
    assert_eq!(world.entities().clone(), vec![e]);
    assert_eq!(fetch(&mut world, e, HEALTH), Ok(Data::Health(1)));
}

#[test]
fn the_last_payload_staged_for_a_type_wins() {
    let mut world: World<Data> = World::new();
    world.new_archetype(HEALTH);
    world.new_archetype(POSITION);
    let e = world
        .create_entity()
        .with(Data::Health(1))
        .with(Data::Position { x: 0, y: 0 })
        .with(Data::Health(2))
        .spawn()
        .unwrap();
    assert_eq!(fetch(&mut world, e, HEALTH), Ok(Data::Health(2)));
    assert_eq!(fetch(&mut world, e, POSITION), Ok(Data::Position { x: 0, y: 0 }));
}

#[test]
fn a_payload_is_stored_under_the_key_it_is_staged_with() {
    let mut world: World<Data> = World::new();
    world.new_archetype(HEALTH);
    world.new_archetype(POSITION);
    let e = Entity { id: 1 };
    assert_eq!(world.spawn(e, vec![(POSITION, Data::Health(4))]), Ok(()));
    assert!(world.has_component(POSITION, &e));
    assert!(!world.has_component(HEALTH, &e));
    assert_eq!(fetch(&mut world, e, POSITION), Ok(Data::Health(4)));
}

#[test]
fn entities_are_live_in_spawn_order() {
    let mut world: World<Data> = World::new();
    let a = Entity { id: 30 };
    let b = Entity { id: 10 };
    let c = Entity { id: 20 };
    assert_eq!(world.spawn(a, Vec::new()), Ok(()));
    assert_eq!(world.spawn(b, Vec::new()), Ok(()));
    assert_eq!(world.spawn(c, Vec::new()), Ok(()));
    assert_eq!(world.entities().clone(), vec![a, b, c]);
    assert!(world.storage().is_live(&b));
    assert!(!world.storage().is_live(&Entity { id: 11 }));
    world.kill(&b);
    assert_eq!(world.entities().clone(), vec![a, c]);
    assert!(!world.storage().is_live(&b));
}

#[test]
fn a_free_candidate_is_taken_as_it_is() {
    let mut world: World<Data> = World::new();
    assert_eq!(world.fresh_entity(5), Entity { id: 5 });
    assert_eq!(world.spawn(Entity { id: 6 }, Vec::new()), Ok(()));
    assert_eq!(world.fresh_entity(5), Entity { id: 5 });
    assert_eq!(world.fresh_entity(7), Entity { id: 7 });
}

#[test]
fn a_live_candidate_gives_way_to_the_next_free_identity() {
    let mut world: World<Data> = World::new();
    for id in [5, 6, 7, 9] {
        assert_eq!(world.spawn(Entity { id }, Vec::new()), Ok(()));
    }
    assert_eq!(world.fresh_entity(5), Entity { id: 8 });
    assert_eq!(world.fresh_entity(6), Entity { id: 8 });
    assert_eq!(world.fresh_entity(9), Entity { id: 10 });
    assert_eq!(world.fresh_entity(4), Entity { id: 4 });
}

#[test]
fn the_search_for_a_free_identity_wraps_around() {
    let mut world: World<Data> = World::new();
    for id in [u128::MAX - 1, u128::MAX, 0, 1] {
        assert_eq!(world.spawn(Entity { id }, Vec::new()), Ok(()));
    }
    assert_eq!(world.fresh_entity(u128::MAX - 1), Entity { id: 2 });
    assert_eq!(world.fresh_entity(u128::MAX), Entity { id: 2 });
}

#[test]
fn created_entities_have_fresh_random_identities() {
    let mut world: World<Data> = World::new();
    let mut seen = Vec::new();
    for _ in 0..64 {
        let builder = world.create_entity();
        assert!(builder.components.is_empty());
        let e = builder.spawn().unwrap();
        assert!(!seen.contains(&e));
        assert_eq!(uuid::Uuid::from_u128(e.id).get_version_num(), 4);
        assert_eq!(
            e.id & 0x0000_0000_0000_f000_c000_0000_0000_0000,
            0x0000_0000_0000_4000_8000_0000_0000_0000
        );
        assert_ne!(e, Entity::default());
        seen.push(e);
    }
    assert_eq!(world.entities().clone(), seen);
}

#[test]
fn creating_an_entity_does_not_make_it_visible() {
    let mut world: World<Data> = World::new();
    world.new_archetype(HEALTH);
    let builder = world.create_entity().with(Data::Health(1));
    let e = builder.entity;
    assert!(builder.world.entities().is_empty());
    assert!(!builder.world.has_component(HEALTH, &e));
    assert_eq!(builder.spawn(), Ok(e));
    assert_eq!(world.entities().clone(), vec![e]);
}

#[test]
fn the_default_entity_has_the_nil_identity() {
    assert_eq!(Entity::default(), Entity { id: 0 });
    assert_eq!(uuid::Uuid::from_u128(Entity::default().id), uuid::Uuid::nil());
}

#[test]
fn borrows_through_the_world() {
    let mut world: World<Data> = World::new();
    world.new_archetype(HEALTH);
    let e = world.create_entity().with(Data::Health(1)).spawn().unwrap();
    let reader = shared(&mut world, e, HEALTH);
    let writer = exclusive(&mut world, e, HEALTH);
    assert_eq!(world.read(&reader), Err(EcsError::AliasingViolation));
    assert_eq!(world.borrow(&reader), Ok(()));
    assert_eq!(world.borrow(&reader), Ok(()));
    assert_eq!(world.borrow(&writer), Err(EcsError::AliasingViolation));
    assert_eq!(world.write(&writer, Data::Health(2)), Err(EcsError::AliasingViolation));
    assert_eq!(world.write(&reader, Data::Health(2)), Err(EcsError::AliasingViolation));
    assert_eq!(world.read(&reader), Ok(&Data::Health(1)));
    assert_eq!(world.release(&reader), Ok(()));
    assert_eq!(world.release(&reader), Ok(()));
    assert_eq!(world.release(&reader), Err(EcsError::AliasingViolation));
    assert_eq!(world.borrow(&writer), Ok(()));
    assert_eq!(world.borrow(&reader), Err(EcsError::AliasingViolation));
    assert_eq!(world.write(&writer, Data::Health(2)), Ok(()));
    assert_eq!(world.read(&writer), Ok(&Data::Health(2)));
    assert_eq!(world.release(&writer), Ok(()));
    assert_eq!(fetch(&mut world, e, HEALTH), Ok(Data::Health(2)));
}

#[test]
fn a_handle_needs_its_archetype_and_its_value() {
    let mut world: World<Data> = World::new();
    world.new_archetype(HEALTH);
    let e = world.create_entity().spawn().unwrap();
    let unregistered = shared(&mut world, e, POSITION);
    assert_eq!(world.borrow(&unregistered), Err(EcsError::UnregisteredArchetype));
    assert_eq!(world.release(&unregistered), Err(EcsError::UnregisteredArchetype));
    assert_eq!(world.read(&unregistered), Err(EcsError::UnregisteredArchetype));
    let handle = exclusive(&mut world, e, POSITION);
    assert_eq!(
        world.write(&handle, Data::Health(1)),
        Err(EcsError::UnregisteredArchetype)
    );
    let absent = shared(&mut world, e, HEALTH);
    assert_eq!(world.borrow(&absent), Err(EcsError::AbsentComponent));
    assert_eq!(world.release(&absent), Err(EcsError::AbsentComponent));
    assert_eq!(world.read(&absent), Err(EcsError::AbsentComponent));
    let handle = exclusive(&mut world, e, HEALTH);
    assert_eq!(world.write(&handle, Data::Health(1)), Err(EcsError::AbsentComponent));
}

#[test]
fn borrows_of_different_cells_do_not_conflict() {
    let mut world: World<Data> = World::new();
    world.new_archetype(HEALTH);
    world.new_archetype(POSITION);
    let e1 = world
        .create_entity()
        .with(Data::Health(1))
        .with(Data::Position { x: 0, y: 0 })
        .spawn()
        .unwrap();
    let e2 = world.create_entity().with(Data::Health(2)).spawn().unwrap();
    let handle = exclusive(&mut world, e1, HEALTH);
    assert_eq!(world.borrow(&handle), Ok(()));
    let handle = exclusive(&mut world, e2, HEALTH);
    assert_eq!(world.borrow(&handle), Ok(()));
    let handle = exclusive(&mut world, e1, POSITION);
    assert_eq!(world.borrow(&handle), Ok(()));
    let handle = shared(&mut world, e1, HEALTH);
    assert_eq!(world.borrow(&handle), Err(EcsError::AliasingViolation));
}
