//! The ways in which an operation on the world can fail.

use vstd::prelude::*;

verus! {

/// Why an operation was refused. Apart from [`EcsError::AbsentComponent`]
/// and [`EcsError::CellsExhausted`] every variant reports a mistake of the
/// caller; an operation that returns one of them has changed nothing.
#[derive(Clone, Copy, Debug, PartialEq, Eq, Structural)]
pub enum EcsError {
    /// A component type was named that has no archetype table.
    UnregisteredArchetype,
    /// A payload was written for an entity that has no slot in the table.
    MissingSlot,
    /// A payload was handed to the table of another component type.
    TypeMismatch,
    /// A borrow was requested, used or returned against the borrow state of
    /// its storage cell.
    AliasingViolation,
    /// The entity has a slot in the table, but the slot holds no value.
    AbsentComponent,
    /// An entity was spawned whose identity is already live.
    DuplicateEntity,
    /// A storage cell was to be made, and every cell identity is given out.
    CellsExhausted,
}

} // verus!
