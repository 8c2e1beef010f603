//! The proof that a commitment is in the set and has not been removed.

use vstd::prelude::*;
use crate::digest::Digest;
use crate::mmr::accumulator::copy_digests;
use crate::mutator_set::chunk_proof::ChunkProof;
use crate::mutator_set::chunk_proof::ChunkProofView;
use crate::mutator_set::chunk_proof::copy_entries;
use crate::mutator_set::chunk_proof::views;

verus! {

/// What the holder of an item keeps to show that the item is in the set.
#[derive(Debug)]
pub struct MembershipProof {
    pub sender_randomness: Digest,
    pub receiver_preimage: Digest,
    /// The place of the commitment in the list of commitments.
    pub aocl_leaf_index: u64,
    /// The path from the commitment to a peak of the list of commitments.
    pub aocl_auth_path: Vec<Digest>,
    /// The seed from which the bits that stand for the item are drawn.
    pub index_set_seed: Digest,
    /// The chunks that hold bits of the item and have left the window.
    pub chunk_proofs: Vec<ChunkProof>,
}

/// What a membership proof is, as mathematics.
pub struct MembershipProofView {
    pub sender_randomness: Digest,
    pub receiver_preimage: Digest,
    pub aocl_leaf_index: u64,
    pub aocl_auth_path: Seq<Digest>,
    pub index_set_seed: Digest,
    pub chunk_proofs: Seq<ChunkProofView>,
}

impl View for MembershipProof {
    type V = MembershipProofView;

    open spec fn view(&self) -> MembershipProofView {
        MembershipProofView {
            sender_randomness: self.sender_randomness,
            receiver_preimage: self.receiver_preimage,
            aocl_leaf_index: self.aocl_leaf_index,
            aocl_auth_path: self.aocl_auth_path@,
            index_set_seed: self.index_set_seed,
            chunk_proofs: views(self.chunk_proofs@),
        }
    }
}

impl Clone for MembershipProof {
    fn clone(&self) -> (res: Self)
        ensures
            res@ == self@,
    {
        MembershipProof {
            sender_randomness: self.sender_randomness,
            receiver_preimage: self.receiver_preimage,
            aocl_leaf_index: self.aocl_leaf_index,
            aocl_auth_path: copy_digests(&self.aocl_auth_path),
            index_set_seed: self.index_set_seed,
            chunk_proofs: copy_entries(&self.chunk_proofs),
        }
    }
}

} // verus!
