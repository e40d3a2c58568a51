use gecs::archetype::{Archetype, ComponentArchetype};
use gecs::cell::{BorrowMode, BorrowState, StorageCell};
use gecs::entity::{ComponentHandle, Entity};
use gecs::error::EcsError;

fn table_with(ids: &[u128]) -> ComponentArchetype<&'static str> {
    let mut table = ComponentArchetype::new(4, ids.len());
    for id in ids {
        table.add_entity(&Entity { id: *id });
    }
    table
}

fn free(id: u64, value: &'static str) -> StorageCell<&'static str> {
    StorageCell { id, value, state: BorrowState::Free, holders: 0 }
}

#[test]
fn a_new_table_is_empty() {
    let table: ComponentArchetype<u8> = ComponentArchetype::new(4, 16);
    assert_eq!(table.type_id(), 4);
    assert_eq!(table.get_size(), 0);
    assert!(table.get_components(BorrowMode::Shared).is_empty());
}

#[test]
fn add_entity_gives_one_empty_slot() {
    let mut table = table_with(&[1, 2]);
    assert_eq!(table.get_size(), 2);
    assert_eq!(table.get_component(&Entity { id: 1 }, BorrowMode::Shared), None);
    table.add_entity(&Entity { id: 1 });
    assert_eq!(table.get_size(), 2);
}

#[test]
fn add_entity_keeps_the_value_of_a_slot() {
    let mut table = table_with(&[1]);
    let e = Entity { id: 1 };
    assert_eq!(table.set_component(&e, 4, 0, "a"), Ok(None));
    table.add_entity(&e);
    assert!(table.get_component(&e, BorrowMode::Shared).is_some());
}

#[test]
fn set_component_needs_a_slot() {
    let mut table = table_with(&[1]);
    assert_eq!(table.set_component(&Entity { id: 2 }, 4, 0, "a"), Err(EcsError::MissingSlot));
    assert_eq!(table.get_size(), 1);
    assert_eq!(table.get_component(&Entity { id: 2 }, BorrowMode::Shared), None);
}

#[test]
fn set_component_refuses_another_type() {
    let mut table = table_with(&[1]);
    assert_eq!(table.set_component(&Entity { id: 1 }, 5, 0, "a"), Err(EcsError::TypeMismatch));
    assert_eq!(table.set_component(&Entity { id: 2 }, 5, 0, "a"), Err(EcsError::TypeMismatch));
    assert_eq!(table.get_component(&Entity { id: 1 }, BorrowMode::Shared), None);
}

#[test]
fn get_component_names_the_cell() {
    let mut table = table_with(&[1, 2]);
    let e = Entity { id: 2 };
    assert_eq!(table.set_component(&e, 4, 17, "a"), Ok(None));
    assert_eq!(
        table.get_component(&e, BorrowMode::Exclusive),
        Some(ComponentHandle { entity: e, key: 4, mode: BorrowMode::Exclusive, cell: 17 })
    );
    assert_eq!(
        table.get_component_with_id(&2, BorrowMode::Shared),
        Some(ComponentHandle { entity: e, key: 4, mode: BorrowMode::Shared, cell: 17 })
    );
    assert_eq!(table.get_component_with_id(&1, BorrowMode::Shared), None);
    assert_eq!(table.get_component_with_id(&3, BorrowMode::Shared), None);
}

#[test]
fn set_component_overwrites_and_hands_the_old_cell_back() {
    let mut table = table_with(&[1]);
    let e = Entity { id: 1 };
    assert_eq!(table.set_component(&e, 4, 0, "first"), Ok(None));
    assert_eq!(table.set_component(&e, 4, 1, "second"), Ok(Some(free(0, "first"))));
    assert_eq!(table.get_size(), 1);
    assert_eq!(table.get_component(&e, BorrowMode::Shared).unwrap().cell, 1);
    assert_eq!(table.borrow(1, BorrowMode::Shared), Ok(()));
    assert_eq!(table.read(1, BorrowMode::Shared), Ok(&"second"));
}

#[test]
fn an_overwritten_cell_keeps_its_borrows() {
    let mut table = table_with(&[1]);
    let e = Entity { id: 1 };
    assert_eq!(table.set_component(&e, 4, 0, "first"), Ok(None));
    assert_eq!(table.borrow(1, BorrowMode::Exclusive), Ok(()));
    assert_eq!(
        table.set_component(&e, 4, 1, "second"),
        Ok(Some(StorageCell { id: 0, value: "first", state: BorrowState::Exclusive, holders: 0 }))
    );
    assert_eq!(table.components[&1], Some(free(1, "second")));
    assert_eq!(table.borrow(1, BorrowMode::Exclusive), Ok(()));
}

#[test]
fn remove_empties_the_slot_and_keeps_it() {
    let mut table = table_with(&[1, 2]);
    let e = Entity { id: 1 };
    assert_eq!(table.set_component(&e, 4, 0, "a"), Ok(None));
    assert_eq!(table.remove(&e), Some(free(0, "a")));
    assert_eq!(table.remove(&e), None);
    assert_eq!(table.get_size(), 2);
    assert_eq!(table.get_component(&e, BorrowMode::Shared), None);
    assert_eq!(table.set_component(&e, 4, 1, "b"), Ok(None));
    assert_eq!(table.remove(&Entity { id: 9 }), None);
    assert_eq!(table.get_size(), 2);
}

#[test]
fn kill_drops_the_slot_and_hands_the_cell_back() {
    let mut table = table_with(&[1, 2]);
    let e = Entity { id: 1 };
    assert_eq!(table.set_component(&e, 4, 3, "a"), Ok(None));
    assert_eq!(table.borrow(1, BorrowMode::Shared), Ok(()));
    assert_eq!(
        table.kill(&e),
        Some(StorageCell { id: 3, value: "a", state: BorrowState::Shared(1), holders: 0 })
    );
    assert_eq!(table.get_size(), 1);
    assert_eq!(table.set_component(&e, 4, 4, "b"), Err(EcsError::MissingSlot));
    assert_eq!(table.kill(&e), None);
    assert_eq!(table.kill(&Entity { id: 2 }), None);
    assert_eq!(table.get_size(), 0);
}

#[test]
fn get_components_lists_the_entities_with_a_value() {
    let mut table = table_with(&[1, 2, 3]);
    assert_eq!(table.set_component(&Entity { id: 1 }, 4, 10, "a"), Ok(None));
    assert_eq!(table.set_component(&Entity { id: 3 }, 4, 11, "c"), Ok(None));
    let all = table.get_components(BorrowMode::Shared);
    assert_eq!(all.len(), 2);
    assert_eq!(
        all[&1],
        ComponentHandle { entity: Entity { id: 1 }, key: 4, mode: BorrowMode::Shared, cell: 10 }
    );
    assert_eq!(
        all[&3],
        ComponentHandle { entity: Entity { id: 3 }, key: 4, mode: BorrowMode::Shared, cell: 11 }
    );
    assert!(!all.contains_key(&2));
}

#[test]
fn borrow_needs_a_value() {
    let mut table = table_with(&[1]);
    assert_eq!(table.borrow(2, BorrowMode::Shared), Err(EcsError::MissingSlot));
    assert_eq!(table.borrow(1, BorrowMode::Shared), Err(EcsError::AbsentComponent));
    assert_eq!(table.release(2, BorrowMode::Shared), Err(EcsError::MissingSlot));
    assert_eq!(table.release(1, BorrowMode::Shared), Err(EcsError::AbsentComponent));
    assert_eq!(table.read(2, BorrowMode::Shared), Err(EcsError::MissingSlot));
    assert_eq!(table.read(1, BorrowMode::Shared), Err(EcsError::AbsentComponent));
    assert_eq!(table.write(2, "x"), Err(EcsError::MissingSlot));
    assert_eq!(table.write(1, "x"), Err(EcsError::AbsentComponent));
    assert_eq!(table.get_size(), 1);
}

#[test]
fn many_readers_or_one_writer() {
    let mut table = table_with(&[1]);
    assert_eq!(table.set_component(&Entity { id: 1 }, 4, 0, "a"), Ok(None));
    assert_eq!(table.borrow(1, BorrowMode::Shared), Ok(()));
    assert_eq!(table.borrow(1, BorrowMode::Shared), Ok(()));
    assert_eq!(table.borrow(1, BorrowMode::Exclusive), Err(EcsError::AliasingViolation));
    assert_eq!(table.release(1, BorrowMode::Shared), Ok(()));
    assert_eq!(table.borrow(1, BorrowMode::Exclusive), Err(EcsError::AliasingViolation));
    assert_eq!(table.release(1, BorrowMode::Shared), Ok(()));
    assert_eq!(table.borrow(1, BorrowMode::Exclusive), Ok(()));
    assert_eq!(table.borrow(1, BorrowMode::Shared), Err(EcsError::AliasingViolation));
    assert_eq!(table.borrow(1, BorrowMode::Exclusive), Err(EcsError::AliasingViolation));
    assert_eq!(table.release(1, BorrowMode::Exclusive), Ok(()));
    assert_eq!(table.release(1, BorrowMode::Exclusive), Err(EcsError::AliasingViolation));
    assert_eq!(table.components[&1], Some(free(0, "a")));
}

#[test]
fn reading_and_writing_need_the_borrow() {
    let mut table = table_with(&[1]);
    assert_eq!(table.set_component(&Entity { id: 1 }, 4, 0, "a"), Ok(None));
    assert_eq!(table.read(1, BorrowMode::Shared), Err(EcsError::AliasingViolation));
    assert_eq!(table.write(1, "b"), Err(EcsError::AliasingViolation));
    assert_eq!(table.borrow(1, BorrowMode::Shared), Ok(()));
    assert_eq!(table.read(1, BorrowMode::Shared), Ok(&"a"));
    assert_eq!(table.read(1, BorrowMode::Exclusive), Err(EcsError::AliasingViolation));
    assert_eq!(table.write(1, "b"), Err(EcsError::AliasingViolation));
    assert_eq!(table.release(1, BorrowMode::Shared), Ok(()));
    assert_eq!(table.borrow(1, BorrowMode::Exclusive), Ok(()));
    assert_eq!(table.write(1, "b"), Ok(()));
    assert_eq!(table.read(1, BorrowMode::Exclusive), Ok(&"b"));
    assert_eq!(table.read(1, BorrowMode::Shared), Err(EcsError::AliasingViolation));
    assert_eq!(table.write(1, "c"), Ok(()));
    assert_eq!(table.release(1, BorrowMode::Exclusive), Ok(()));
    assert_eq!(table.borrow(1, BorrowMode::Shared), Ok(()));
    assert_eq!(table.read(1, BorrowMode::Shared), Ok(&"c"));
    assert_eq!(table.get_component(&Entity { id: 1 }, BorrowMode::Shared).unwrap().cell, 0);
}
