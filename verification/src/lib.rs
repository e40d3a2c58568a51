//! An entity-component-system runtime.
//!
//! Components are stored per component type in archetype tables keyed by
//! entity identity. A [`world::World`] owns the tables and the list of live
//! entities, a [`query::Query`] resolves a requested shape of borrows and a
//! filter to a snapshot of component handles, and a system brackets a
//! function call with the take and the release of its world data.
//!
//! A component value lives in a storage cell with an identity of its own.
//! A handle carries that identity and takes a share of the cell, so what a
//! handle reaches does not change when its entity is killed or the component
//! is overwritten or taken away: the cell leaves its table and stays with
//! the world until the last holder lets it go.
//!
//! What a world holds is modelled by [`model::WorldModel`]; every operation
//! is specified as a function on that model, and [`laws`] states what holds
//! of those functions.

pub mod archetype;
pub mod cell;
pub mod entity;
pub mod error;
pub mod laws;
pub mod lemmas;
pub mod model;
pub mod query;
pub mod storage;
pub mod system;
pub mod world;
