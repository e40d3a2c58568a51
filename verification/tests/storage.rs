use gecs::archetype::Archetype;
use gecs::cell::BorrowMode;
use gecs::entity::{Entity, TypeKey};
use gecs::error::EcsError;
use gecs::storage::Storage;

const NAME: TypeKey = 1;
const AGE: TypeKey = 2;

fn storage_of_two() -> (Storage<&'static str>, Entity, Entity) {
    let mut storage = Storage::new();
    storage.new_archetype(NAME);
    storage.new_archetype(AGE);
    let a = Entity { id: 10 };
    let b = Entity { id: 20 };
    assert_eq!(storage.spawn(a, vec![(NAME, "a"), (AGE, "1")]), Ok(()));
    assert_eq!(storage.spawn(b, vec![(NAME, "b")]), Ok(()));
    (storage, a, b)
}

fn value(storage: &mut Storage<&'static str>, entity: Entity, key: TypeKey) -> &'static str {
    let handle = storage.get_component(key, &entity, BorrowMode::Shared).unwrap();
    storage.borrow(&handle).unwrap();
    let found = *storage.read(&handle).unwrap();
    storage.release(&handle).unwrap();
    found
}

#[test]
fn a_new_storage_is_empty() {
    let storage: Storage<u8> = Storage::new();
    assert_eq!(storage.entity_len(), 0);
    assert!(storage.entities().is_empty());
    assert!(storage.get_archetype(NAME).is_none());
    assert!(!storage.is_live(&Entity { id: 0 }));
}

#[test]
fn the_storage_knows_who_is_live_and_who_holds_what() {
    let (mut storage, a, b) = storage_of_two();
    assert_eq!(storage.entity_len(), 2);
    assert_eq!(storage.entities().clone(), vec![a, b]);
    assert!(storage.is_live(&a) && storage.is_live(&b));
    assert!(!storage.is_live(&Entity { id: 30 }));
    assert!(storage.has_component(NAME, &a));
    assert!(storage.has_component(AGE, &a));
    assert!(storage.has_component(NAME, &b));
    assert!(!storage.has_component(AGE, &b));
    assert!(!storage.has_component(3, &a));
    assert_eq!(value(&mut storage, a, AGE), "1");
    assert_eq!(value(&mut storage, b, NAME), "b");
}

#[test]
fn every_table_of_the_storage_follows_the_live_entities() {
    let (mut storage, a, b) = storage_of_two();
    assert_eq!(storage.get_archetype(NAME).unwrap().get_size(), 2);
    assert_eq!(storage.get_archetype(AGE).unwrap().get_size(), 2);
    storage.new_archetype(3);
    assert_eq!(storage.get_archetype(3).unwrap().get_size(), 2);
    assert_eq!(storage.get_archetype(3).unwrap().type_id(), 3);
    storage.kill(&a);
    for key in [NAME, AGE, 3] {
        assert_eq!(storage.get_archetype(key).unwrap().get_size(), 1);
        assert!(!storage.has_component(key, &a));
    }
    assert_eq!(storage.entities().clone(), vec![b]);
    assert_eq!(storage.entity_len(), 1);
    assert!(!storage.is_live(&a));
    assert_eq!(storage.spawn(a, vec![(3, "again")]), Ok(()));
    assert_eq!(storage.entities().clone(), vec![b, a]);
    assert!(storage.has_component(3, &a));
    assert!(!storage.has_component(NAME, &a));
}

#[test]
fn the_storage_refuses_what_the_world_refuses() {
    let (mut storage, a, b) = storage_of_two();
    assert_eq!(storage.spawn(a, Vec::new()), Err(EcsError::DuplicateEntity));
    assert_eq!(
        storage.spawn(Entity { id: 30 }, vec![(NAME, "c"), (9, "x")]),
        Err(EcsError::UnregisteredArchetype)
    );
    assert_eq!(storage.entity_len(), 2);
    assert_eq!(storage.get_archetype(NAME).unwrap().get_size(), 2);
    assert_eq!(storage.insert_component(&a, 9, "x"), Err(EcsError::UnregisteredArchetype));
    assert_eq!(storage.insert_component(&Entity { id: 30 }, AGE, "x"), Err(EcsError::MissingSlot));
    assert_eq!(storage.insert_component(&b, AGE, "2"), Ok(()));
    assert_eq!(value(&mut storage, b, AGE), "2");
    storage.remove_component(&b, AGE);
    assert!(!storage.has_component(AGE, &b));
    assert!(storage.is_live(&b));
    let writer = storage.get_component(NAME, &a, BorrowMode::Exclusive).unwrap();
    let reader = storage.get_component(NAME, &a, BorrowMode::Shared).unwrap();
    assert_eq!(storage.write(&writer, "z"), Err(EcsError::AliasingViolation));
    assert_eq!(storage.borrow(&writer), Ok(()));
    assert_eq!(storage.borrow(&reader), Err(EcsError::AliasingViolation));
    assert_eq!(storage.write(&reader, "z"), Err(EcsError::AliasingViolation));
    assert_eq!(storage.write(&writer, "z"), Ok(()));
    assert_eq!(storage.read(&writer), Ok(&"z"));
    assert_eq!(storage.release(&reader), Err(EcsError::AliasingViolation));
    assert_eq!(storage.release(&writer), Ok(()));
    assert_eq!(value(&mut storage, a, NAME), "z");
}

#[test]
fn the_storage_finds_a_free_identity() {
    let (storage, a, b) = storage_of_two();
    assert_eq!(storage.fresh_entity(a.id), Entity { id: 11 });
    assert_eq!(storage.fresh_entity(b.id), Entity { id: 21 });
    assert_eq!(storage.fresh_entity(15), Entity { id: 15 });
    assert_eq!(storage.fresh_entity(u128::MAX), Entity { id: u128::MAX });
}

#[test]
fn the_storage_keeps_the_cells_of_a_killed_entity_for_their_holders() {
    let (mut storage, a, _b) = storage_of_two();
    let name = storage.get_component(NAME, &a, BorrowMode::Shared).unwrap();
    let age = storage.get_component(AGE, &a, BorrowMode::Shared).unwrap();
    assert_ne!(name.cell, age.cell);
    assert_eq!(storage.borrow(&age), Ok(()));
    storage.let_go(&age);
    storage.kill(&a);
    assert_eq!(storage.get_component(NAME, &a, BorrowMode::Shared), None);
    assert_eq!(storage.borrow(&name), Ok(()));
    assert_eq!(storage.read(&name), Ok(&"a"));
    assert_eq!(storage.read(&age), Ok(&"1"));
    assert_eq!(storage.release(&name), Ok(()));
    assert_eq!(storage.read(&age), Ok(&"1"));
    storage.hold(&age);
    assert_eq!(storage.release(&age), Ok(()));
    assert_eq!(storage.borrow(&age), Ok(()));
    storage.let_go(&age);
    assert_eq!(storage.release(&age), Ok(()));
    assert_eq!(storage.borrow(&age), Err(EcsError::MissingSlot));
    storage.let_go(&name);
    assert_eq!(storage.borrow(&name), Err(EcsError::MissingSlot));
}
