//! What a node holds of the block that is being mined.

use std::collections::HashMap;
use vstd::prelude::*;
use crate::digest::Digest;

verus! {

/// The greatest number of block proposals that a node keeps for guessers
/// outside of it, so that such proposals cannot use up all memory.
pub const MAX_NUM_EXPORTED_BLOCK_PROPOSAL_STORED: usize = 10_000;

/// What a node holds of the block that is being mined. `P` is a block
/// proposal, `B` a block, `S` the state of the mining task.
#[derive(Debug)]
pub struct MiningState<P, B, S> {
    /// The proposal on which guessers work.
    pub block_proposal: P,
    /// The proposals that were handed to guessers outside of the node, each
    /// under its digest. All of them are for the next block.
    pub exported_block_proposals: HashMap<Digest, B>,
    /// Whether the node guesses or composes, and since when.
    pub mining_status: S,
}

} // verus!
