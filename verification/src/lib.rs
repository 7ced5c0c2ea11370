//! Verified core of a multiplayer world simulation server.
//!
//! The library owns all mutable world state: an arena-indexed store of
//! entities with fixed-point kinematics, a uniform-grid spatial index,
//! and a single-threaded coordinator that handles an ordered stream of
//! messages and returns the outbound effects each one produces.
//! Steering for autonomous agents is computed from frozen snapshots of
//! that state.  All coordinates are integers in milliunits, so every
//! arithmetic step is exact and proved free of overflow.

pub mod agent;
pub mod fixed;
pub mod game;
pub mod rng;
pub mod spatial;
pub mod terrain;
pub mod vec3;
pub mod world;

pub use fixed::SCALE;
