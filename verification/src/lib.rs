//! Simulation core of a turn-based tactical game on a hexagonal grid.
//!
//! The crate is layered, leaves first:
//! - [`hex`]: axial hex coordinates, the distance metric, adjacency, and
//!   hexagonal field generation;
//! - [`unit`]: the unit data model and the pure combat / movement rules;
//! - [`player`]: the per-session player roster entry;
//! - [`world`]: an explicit entity table (generation-checked ids, typed
//!   optional components) standing in for a generic entity store;
//! - [`pathfind`]: breadth-first routing over the free cells of the field;
//! - [`session`]: the session state machine that interprets input events,
//!   drives multi-tick movement and resolves combat.

pub mod hex;
pub mod player;
pub mod unit;
pub mod world;
pub mod pathfind;
pub mod session;
