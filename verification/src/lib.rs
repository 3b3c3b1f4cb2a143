//! Path-tree aggregation engine.
//!
//! Folds a flat collection of scanned file and registry-key paths, each
//! annotated with success, duplication and change status, into a hierarchical
//! tree with per-node expansion state, ignore flags and derived visibility,
//! ready for progressive-disclosure display.

pub mod launcher;
pub mod laws;
pub mod node;
pub mod order;
pub mod path_key;
pub mod rows;
pub mod scan;
pub mod tree;
