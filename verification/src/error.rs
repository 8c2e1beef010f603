//! The ways in which an operation on a mutator set can fail.

use vstd::prelude::*;

verus! {

/// Why an operation on a mutator set, or on one of its parts, did not go
/// through.
#[derive(Clone, Copy, Debug, PartialEq, Eq, Structural)]
pub enum MutatorSetError {
    /// A leaf, a chunk or a bit was asked for beyond what exists.
    IndexOutOfRange,
    /// The light form was asked for a leaf, which it does not keep.
    LeafNotRetained,
    /// The full form was asked for a leaf that it no longer keeps.
    LeafPruned,
    /// A bit was asked for in a chunk whose content is not kept here.
    ChunkNotFound,
    /// A chunk that came with a removal does not fit the peaks of the chunks.
    BadChunkProof,
    /// A removal found a bit of its index set to be set already.
    AlreadySpent,
    /// A membership proof could not be brought up to date.
    CannotUpdate,
}

} // verus!
