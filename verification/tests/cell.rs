use gecs::cell::{BorrowMode, BorrowState, StorageCell};
use gecs::error::EcsError;

#[test]
fn a_free_cell_admits_either_borrow() {
    assert_eq!(BorrowState::Free.acquire(BorrowMode::Shared), Some(BorrowState::Shared(1)));
    assert_eq!(BorrowState::Free.acquire(BorrowMode::Exclusive), Some(BorrowState::Exclusive));
}

#[test]
fn shared_borrows_are_counted() {
    assert_eq!(BorrowState::Shared(1).acquire(BorrowMode::Shared), Some(BorrowState::Shared(2)));
    assert_eq!(BorrowState::Shared(7).acquire(BorrowMode::Shared), Some(BorrowState::Shared(8)));
    assert_eq!(BorrowState::Shared(2).release(BorrowMode::Shared), Some(BorrowState::Shared(1)));
    assert_eq!(BorrowState::Shared(1).release(BorrowMode::Shared), Some(BorrowState::Free));
}

#[test]
fn the_count_of_shared_borrows_does_not_wrap() {
    assert_eq!(BorrowState::Shared(usize::MAX).acquire(BorrowMode::Shared), None);
    assert_eq!(
        BorrowState::Shared(usize::MAX - 1).acquire(BorrowMode::Shared),
        Some(BorrowState::Shared(usize::MAX))
    );
}

#[test]
fn shared_and_exclusive_exclude_each_other() {
    assert_eq!(BorrowState::Shared(1).acquire(BorrowMode::Exclusive), None);
    assert_eq!(BorrowState::Exclusive.acquire(BorrowMode::Shared), None);
    assert_eq!(BorrowState::Exclusive.acquire(BorrowMode::Exclusive), None);
}

#[test]
fn only_an_outstanding_borrow_is_returned() {
    assert_eq!(BorrowState::Free.release(BorrowMode::Shared), None);
    assert_eq!(BorrowState::Free.release(BorrowMode::Exclusive), None);
    assert_eq!(BorrowState::Shared(3).release(BorrowMode::Exclusive), None);
    assert_eq!(BorrowState::Exclusive.release(BorrowMode::Shared), None);
    assert_eq!(BorrowState::Exclusive.release(BorrowMode::Exclusive), Some(BorrowState::Free));
    assert_eq!(BorrowState::Shared(0).release(BorrowMode::Shared), None);
}

#[test]
fn acquire_then_release_restores_the_state() {
    for state in [BorrowState::Free, BorrowState::Shared(1), BorrowState::Shared(41)] {
        let held = state.acquire(BorrowMode::Shared).unwrap();
        assert_eq!(held.release(BorrowMode::Shared), Some(state));
    }
    let held = BorrowState::Free.acquire(BorrowMode::Exclusive).unwrap();
    assert_eq!(held.release(BorrowMode::Exclusive), Some(BorrowState::Free));
}

#[test]
fn a_new_cell_is_free() {
    let cell = StorageCell::new(9, 5u8);
    assert_eq!(cell, StorageCell { id: 9, value: 5, state: BorrowState::Free, holders: 0 });
    assert!(!cell.is_kept());
}

#[test]
fn a_cell_counts_its_borrows_and_keeps_its_identity() {
    let mut cell = StorageCell::new(3, 'a');
    assert_eq!(cell.read(BorrowMode::Shared), Err(EcsError::AliasingViolation));
    assert_eq!(cell.write('b'), Err(EcsError::AliasingViolation));
    assert_eq!(cell.release(BorrowMode::Shared), Err(EcsError::AliasingViolation));
    assert_eq!(cell.borrow(BorrowMode::Shared), Ok(()));
    assert_eq!(cell.borrow(BorrowMode::Shared), Ok(()));
    assert_eq!(
        cell,
        StorageCell { id: 3, value: 'a', state: BorrowState::Shared(2), holders: 0 }
    );
    assert!(cell.is_kept());
    assert_eq!(cell.borrow(BorrowMode::Exclusive), Err(EcsError::AliasingViolation));
    assert_eq!(cell.read(BorrowMode::Shared), Ok(&'a'));
    assert_eq!(cell.release(BorrowMode::Shared), Ok(()));
    assert_eq!(cell.release(BorrowMode::Shared), Ok(()));
    assert_eq!(cell.borrow(BorrowMode::Exclusive), Ok(()));
    assert_eq!(cell.write('b'), Ok(()));
    assert_eq!(
        cell,
        StorageCell { id: 3, value: 'b', state: BorrowState::Exclusive, holders: 0 }
    );
    assert_eq!(cell.read(BorrowMode::Exclusive), Ok(&'b'));
    assert_eq!(cell.release(BorrowMode::Exclusive), Ok(()));
    assert_eq!(cell, StorageCell { id: 3, value: 'b', state: BorrowState::Free, holders: 0 });
}

#[test]
fn a_cell_counts_its_holders() {
    let mut cell = StorageCell::new(3, 'a');
    cell.drop_holder();
    assert_eq!(cell.holders, 0);
    cell.hold();
    cell.hold();
    assert_eq!(cell.holders, 2);
    assert!(cell.is_kept());
    cell.drop_holder();
    assert!(cell.is_kept());
    cell.drop_holder();
    assert_eq!(cell, StorageCell { id: 3, value: 'a', state: BorrowState::Free, holders: 0 });
    assert!(!cell.is_kept());
}

#[test]
fn the_count_of_holders_does_not_wrap() {
    let mut cell =
        StorageCell { id: 3, value: 'a', state: BorrowState::Free, holders: usize::MAX - 1 };
    cell.hold();
    assert_eq!(cell.holders, usize::MAX);
    cell.hold();
    assert_eq!(cell.holders, usize::MAX);
    cell.drop_holder();
    assert_eq!(cell.holders, usize::MAX);
    assert!(cell.is_kept());
}
