//! Storage cells: a payload together with its borrow state.
//!
//! A cell admits any number of shared borrows at a time, or exactly one
//! exclusive borrow, never both. The state is an explicit flag that every
//! borrow and release checks and updates.

use vstd::prelude::*;
use crate::error::EcsError;

verus! {

/// How a component is borrowed.
#[derive(Clone, Copy, Debug, PartialEq, Eq, Structural)]
pub enum BorrowMode {
    /// Read-only; any number of holders.
    Shared,
    /// Read-write; a single holder.
    Exclusive,
}

/// The borrows that are outstanding on one storage cell.
#[derive(Clone, Copy, Debug, PartialEq, Eq, Structural)]
pub enum BorrowState {
    /// Nobody holds a borrow.
    Free,
    /// The given number of shared borrows are outstanding.
    Shared(usize),
    /// One exclusive borrow is outstanding.
    Exclusive,
}

impl BorrowState {
    /// A shared state counts at least one holder.
    pub open spec fn wf(self) -> bool {
        self matches BorrowState::Shared(n) ==> n >= 1
    }

    /// Whether a further borrow in `mode` is compatible with the outstanding ones.
    pub open spec fn admits(self, mode: BorrowMode) -> bool {
        match self {
            BorrowState::Free => true,
            BorrowState::Shared(n) => mode == BorrowMode::Shared && n < usize::MAX,
            BorrowState::Exclusive => false,
        }
    }

    /// The state after one more borrow in `mode`; meaningful where `admits` holds.
    pub open spec fn acquired(self, mode: BorrowMode) -> BorrowState {
        match mode {
            BorrowMode::Exclusive => BorrowState::Exclusive,
            BorrowMode::Shared => match self {
                BorrowState::Shared(n) => BorrowState::Shared((n + 1) as usize),
                _ => BorrowState::Shared(1),
            },
        }
    }

    /// Whether a borrow in `mode` is outstanding.
    pub open spec fn holds(self, mode: BorrowMode) -> bool {
        match self {
            BorrowState::Free => false,
            BorrowState::Shared(n) => mode == BorrowMode::Shared && n >= 1,
            BorrowState::Exclusive => mode == BorrowMode::Exclusive,
        }
    }

    /// The state after one borrow in `mode` was returned; meaningful where `holds` holds.
    pub open spec fn released(self, mode: BorrowMode) -> BorrowState {
        match self {
            BorrowState::Shared(n) => if n > 1 {
                BorrowState::Shared((n - 1) as usize)
            } else {
                BorrowState::Free
            },
            _ => BorrowState::Free,
        }
    }

    /// Whether a borrow in `mode` is outstanding.
    pub fn is_held(self, mode: BorrowMode) -> (held: bool)
        ensures
            held == self.holds(mode),
    {
        match self {
            BorrowState::Free => false,
            BorrowState::Shared(n) => match mode {
                BorrowMode::Shared => n >= 1,
                BorrowMode::Exclusive => false,
            },
            BorrowState::Exclusive => match mode {
                BorrowMode::Shared => false,
                BorrowMode::Exclusive => true,
            },
        }
    }

    /// Registers one more borrow in `mode`, or refuses it.
    pub fn acquire(self, mode: BorrowMode) -> (next: Option<BorrowState>)
        ensures
            next == if self.admits(mode) {
                Some(self.acquired(mode))
            } else {
                None
            },
    {
        match self {
            BorrowState::Free => match mode {
                BorrowMode::Shared => Some(BorrowState::Shared(1)),
                BorrowMode::Exclusive => Some(BorrowState::Exclusive),
            },
            BorrowState::Shared(n) => match mode {
                BorrowMode::Shared => if n < usize::MAX {
                    Some(BorrowState::Shared(n + 1))
                } else {
                    None
                },
                BorrowMode::Exclusive => None,
            },
            BorrowState::Exclusive => None,
        }
    }

    /// Returns one borrow in `mode`, or refuses where none is outstanding.
    pub fn release(self, mode: BorrowMode) -> (next: Option<BorrowState>)
        ensures
            next == if self.holds(mode) {
                Some(self.released(mode))
            } else {
                None
            },
    {
        match self {
            BorrowState::Free => None,
            BorrowState::Shared(n) => match mode {
                BorrowMode::Shared => if n > 1 {
                    Some(BorrowState::Shared(n - 1))
                } else if n == 1 {
                    Some(BorrowState::Free)
                } else {
                    None
                },
                BorrowMode::Exclusive => None,
            },
            BorrowState::Exclusive => match mode {
                BorrowMode::Shared => None,
                BorrowMode::Exclusive => Some(BorrowState::Free),
            },
        }
    }
}

/// The identity of a storage cell. No two cells of a world share one, and
/// none is given out twice, so a handle that carries the identity of a cell
/// reaches that cell and no other for as long as the world keeps the cell.
pub type CellId = u64;

/// One component value of one entity, with the borrows outstanding on it
/// and the number of handles that hold a share of it. The table holds the
/// cell while the cell is in its slot; a cell that left its slot is kept
/// for as long as a handle holds it or a borrow is outstanding on it.
#[derive(Debug, PartialEq, Eq)]
pub struct StorageCell<P> {
    /// The identity of the cell.
    pub id: CellId,
    /// The component value.
    pub value: P,
    /// The borrows that are outstanding.
    pub state: BorrowState,
    /// The number of handles that hold a share of the cell.
    pub holders: usize,
}

impl<P> StorageCell<P> {
    /// A cell with the identity `id` that nobody has borrowed yet.
    pub fn new(id: CellId, value: P) -> (cell: Self)
        ensures
            cell == Self::fresh(id, value),
    {
        StorageCell { id, value, state: BorrowState::Free, holders: 0 }
    }

    /// The cell that `new` makes.
    pub open spec fn fresh(id: CellId, value: P) -> Self {
        StorageCell { id, value, state: BorrowState::Free, holders: 0 }
    }

    /// The same cell in another borrow state.
    pub open spec fn with_state(self, state: BorrowState) -> Self {
        StorageCell { id: self.id, value: self.value, state, holders: self.holders }
    }

    /// The same cell with another value.
    pub open spec fn with_value(self, value: P) -> Self {
        StorageCell { id: self.id, value, state: self.state, holders: self.holders }
    }

    /// Whether somebody besides the table has a share of the cell: a handle
    /// holds it, or a borrow is outstanding on it.
    pub open spec fn kept(self) -> bool {
        self.holders > 0 || self.state != BorrowState::Free
    }

    /// The cell with one more holder. The count does not wrap: a cell that
    /// has had as many holders as can be counted is never let go.
    pub open spec fn held(self) -> Self {
        StorageCell {
            id: self.id,
            value: self.value,
            state: self.state,
            holders: if self.holders < usize::MAX {
                (self.holders + 1) as usize
            } else {
                self.holders
            },
        }
    }

    /// The cell with one holder less.
    pub open spec fn let_go(self) -> Self {
        StorageCell {
            id: self.id,
            value: self.value,
            state: self.state,
            holders: if 0 < self.holders < usize::MAX {
                (self.holders - 1) as usize
            } else {
                self.holders
            },
        }
    }

    /// Whether somebody besides the table has a share of the cell.
    pub fn is_kept(&self) -> (kept: bool)
        ensures
            kept == self.kept(),
    {
        self.holders > 0 || self.state != BorrowState::Free
    }

    /// Counts one more holder.
    pub fn hold(&mut self)
        ensures
            *final(self) == old(self).held(),
    {
        if self.holders < usize::MAX {
            self.holders = self.holders + 1;
        }
    }

    /// Counts one holder less.
    pub fn drop_holder(&mut self)
        ensures
            *final(self) == old(self).let_go(),
    {
        if 0 < self.holders && self.holders < usize::MAX {
            self.holders = self.holders - 1;
        }
    }

    /// The cell after one more borrow in `mode`, or why the borrow is refused.
    pub open spec fn borrowed(self, mode: BorrowMode) -> Result<Self, EcsError> {
        if self.state.admits(mode) {
            Ok(self.with_state(self.state.acquired(mode)))
        } else {
            Err(EcsError::AliasingViolation)
        }
    }

    /// The cell after one borrow in `mode` was returned, or why it cannot be.
    pub open spec fn released(self, mode: BorrowMode) -> Result<Self, EcsError> {
        if self.state.holds(mode) {
            Ok(self.with_state(self.state.released(mode)))
        } else {
            Err(EcsError::AliasingViolation)
        }
    }

    /// The value that a holder of a borrow in `mode` reads, or why it cannot.
    pub open spec fn readable(self, mode: BorrowMode) -> Result<P, EcsError> {
        if self.state.holds(mode) {
            Ok(self.value)
        } else {
            Err(EcsError::AliasingViolation)
        }
    }

    /// The cell after the holder of the exclusive borrow wrote `value`, or
    /// why it cannot write.
    pub open spec fn written(self, value: P) -> Result<Self, EcsError> {
        if self.state.holds(BorrowMode::Exclusive) {
            Ok(self.with_value(value))
        } else {
            Err(EcsError::AliasingViolation)
        }
    }

    /// Registers one more borrow in `mode` on the cell.
    pub fn borrow(&mut self, mode: BorrowMode) -> (done: Result<(), EcsError>)
        ensures
            match old(self).borrowed(mode) {
                Ok(cell) => done is Ok && *final(self) == cell,
                Err(e) => done == Err::<(), EcsError>(e) && *final(self) == *old(self),
            },
    {
        match self.state.acquire(mode) {
            Some(state) => {
                self.state = state;
                Ok(())
            },
            None => Err(EcsError::AliasingViolation),
        }
    }

    /// Returns one borrow in `mode` on the cell.
    pub fn release(&mut self, mode: BorrowMode) -> (done: Result<(), EcsError>)
        ensures
            match old(self).released(mode) {
                Ok(cell) => done is Ok && *final(self) == cell,
                Err(e) => done == Err::<(), EcsError>(e) && *final(self) == *old(self),
            },
    {
        match self.state.release(mode) {
            Some(state) => {
                self.state = state;
                Ok(())
            },
            None => Err(EcsError::AliasingViolation),
        }
    }

    /// The value of the cell, for the holder of a borrow in `mode`.
    pub fn read(&self, mode: BorrowMode) -> (value: Result<&P, EcsError>)
        ensures
            match self.readable(mode) {
                Ok(v) => value == Ok::<&P, EcsError>(&v),
                Err(e) => value == Err::<&P, EcsError>(e),
            },
    {
        if self.state.is_held(mode) {
            Ok(&self.value)
        } else {
            Err(EcsError::AliasingViolation)
        }
    }

    /// Replaces the value of the cell, for the holder of the exclusive borrow.
    pub fn write(&mut self, value: P) -> (done: Result<(), EcsError>)
        ensures
            match old(self).written(value) {
                Ok(cell) => done is Ok && *final(self) == cell,
                Err(e) => done == Err::<(), EcsError>(e) && *final(self) == *old(self),
            },
    {
        if self.state.is_held(BorrowMode::Exclusive) {
            self.value = value;
            Ok(())
        } else {
            Err(EcsError::AliasingViolation)
        }
    }
}

} // verus!
