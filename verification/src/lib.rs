//! A grid-based pathfinding and map-management engine.
//!
//! The library owns a rectangular tile grid, generates randomized or fixed
//! wall layouts, builds 4-directional adjacency that treats walls as removed
//! nodes, and runs an A*-style search that is re-evaluated every simulation
//! step as a tracked agent moves. Rendering, timing and input polling are
//! left to the embedding program; they consume read-only snapshots of the
//! grid and feed plain input events into the entry points here.

pub mod grid;
pub mod input;
pub mod layout;
pub mod rng;
pub mod search;
pub mod tile;
pub mod world;
