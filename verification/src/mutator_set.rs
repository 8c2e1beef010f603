//! The mutator set: an accumulator to which commitments are added and from
//! which they are removed, with proofs that a commitment is still in it.

pub mod commitment;
pub mod chunk_proof;
pub mod membership_proof;
pub mod removal_record;
pub mod accumulator;
pub mod archival;
pub mod update;
pub mod laws;
pub mod refinement;
pub mod soundness;
pub mod lifecycle;
pub mod interface;
