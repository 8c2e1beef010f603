//! Merkle mountain ranges: an append-only list of digests that is summed up
//! by the roots of a few perfect binary trees.

pub mod shape;
pub mod accumulator;
pub mod laws;
pub mod archival;
