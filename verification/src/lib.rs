//! Reconstruction of a causal/dependency graph from a flat, time-ordered
//! sequence of compiler trace events, plus a simplification pass that elides
//! events which produced no observable result.

pub mod event;
pub mod graph;
pub mod laws;
