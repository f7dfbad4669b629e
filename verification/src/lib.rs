//! Server core of a distributed task-graph workflow manager.
//!
//! Clients submit sessions of tasks connected by data objects; the server
//! keeps the dataflow graph, schedules tasks onto workers and reconciles
//! object placement. This crate holds the graph state and the decision
//! logic; the network front end drives it from outside and performs the
//! control messages the library emits.

/// Qualified identifiers and address types used throughout the graph.
pub mod ids;
/// Duplicate-free vectors used as the graph's membership sets.
pub mod sets;
/// The entity store and its well-formedness predicate.
pub mod graph;
/// Mutation helpers that preserve well-formedness.
pub mod links;
/// Decimal rendering used in generated names.
pub mod text;
/// Names inside a worker's working directory.
pub mod workdir;
/// The state driver: the public mutation API of the server core.
pub mod state;
