//! A combinatorial local-search optimizer for team composition.
//!
//! A [`catalog::Game`] holds a pool of champions and a set of trait
//! definitions.  The engine scores fixed-length sequences of champion keys,
//! improves them by exhaustive single-substitution local search, and drives
//! repeated local search with random perturbation (iterated local search)
//! to escape local optima.  Two scoring modes are supported: one maximizes
//! the number of active traits, the other minimizes a penalty count.

pub mod catalog;
pub mod scoring;
pub mod laws;
pub mod model;
pub mod rng;
pub mod search;
