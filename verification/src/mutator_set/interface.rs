//! What the two forms of the mutator set have in common, and what only the
//! full form can do.

use vstd::prelude::*;
use crate::digest::Digest;
use crate::error::MutatorSetError;
use crate::mutator_set::accumulator::MutatorSetAccumulator;
use crate::mutator_set::archival::ArchivalMutatorSet;
use crate::mutator_set::commitment::index_set_spec;
use crate::mutator_set::membership_proof::MembershipProof;
use crate::mutator_set::membership_proof::MembershipProofView;

verus! {

/// A mutator set that can check membership proofs and sum itself up in a
/// digest. Both forms can.
pub trait MutatorSet {
    /// Whether the parts of the set fit each other.
    spec fn sound(&self) -> bool;

    /// Whether `proof` shows that `item` is in the set.
    spec fn accepts(&self, item: Digest, proof: MembershipProofView) -> bool;

    /// The digest that stands for the whole set.
    spec fn summary(&self) -> Digest;

    /// Whether `proof` shows that `item` is in the set.
    fn verify(&self, item: &Digest, proof: &MembershipProof) -> (ok: bool)
        requires
            self.sound(),
        ensures
            ok == self.accepts(*item, proof@),
    ;

    /// The digest that stands for the whole set.
    fn accumulator_digest(&self) -> (res: Digest)
        requires
            self.sound(),
        ensures
            res == self.summary(),
    ;
}

/// A mutator set that keeps enough to make a membership proof anew. Only
/// the full form does.
pub trait Restore: MutatorSet {
    /// Whether a proof can be made anew for the item with the given opening
    /// at `leaf_index`: the set keeps the commitment to it, and not all of
    /// its bits are set.
    spec fn restorable(
        &self,
        item: Digest,
        sender_randomness: Digest,
        receiver_preimage: Digest,
        leaf_index: u64,
    ) -> bool;

    /// Whether none of the bits of the item is set.
    spec fn unspent(
        &self,
        item: Digest,
        sender_randomness: Digest,
        receiver_preimage: Digest,
        leaf_index: u64,
    ) -> bool;

    /// Makes anew the membership proof for the item with the given opening.
    /// A proof is made exactly where one can be made, and it is accepted
    /// where none of the bits of the item is set.
    fn restore_membership_proof(
        &self,
        item: &Digest,
        sender_randomness: &Digest,
        receiver_preimage: &Digest,
        aocl_leaf_index: u64,
    ) -> (res: Result<MembershipProof, MutatorSetError>)
        requires
            self.sound(),
        ensures
            res is Ok <==> self.restorable(
                *item,
                *sender_randomness,
                *receiver_preimage,
                aocl_leaf_index,
            ),
            res is Ok && self.unspent(*item, *sender_randomness, *receiver_preimage, aocl_leaf_index)
                ==> self.accepts(*item, res->Ok_0@),
    ;
}

impl MutatorSet for MutatorSetAccumulator {
    open spec fn sound(&self) -> bool {
        self.wf()
    }

    open spec fn accepts(&self, item: Digest, proof: MembershipProofView) -> bool {
        self@.verifies(item, proof)
    }

    open spec fn summary(&self) -> Digest {
        self@.digest()
    }

    fn verify(&self, item: &Digest, proof: &MembershipProof) -> (ok: bool) {
        MutatorSetAccumulator::verify(self, item, proof)
    }

    fn accumulator_digest(&self) -> (res: Digest) {
        MutatorSetAccumulator::accumulator_digest(self)
    }
}

impl MutatorSet for ArchivalMutatorSet {
    open spec fn sound(&self) -> bool {
        self.wf()
    }

    open spec fn accepts(&self, item: Digest, proof: MembershipProofView) -> bool {
        self@.verifies(item, proof)
    }

    open spec fn summary(&self) -> Digest {
        self@.light().digest()
    }

    fn verify(&self, item: &Digest, proof: &MembershipProof) -> (ok: bool) {
        ArchivalMutatorSet::verify(self, item, proof)
    }

    fn accumulator_digest(&self) -> (res: Digest) {
        ArchivalMutatorSet::accumulator_digest(self)
    }
}

impl Restore for ArchivalMutatorSet {
    open spec fn restorable(
        &self,
        item: Digest,
        sender_randomness: Digest,
        receiver_preimage: Digest,
        leaf_index: u64,
    ) -> bool {
        &&& self@.retains(item, sender_randomness, receiver_preimage, leaf_index)
        &&& !self@.all_set(
            index_set_spec(self@.params, item, sender_randomness, receiver_preimage, leaf_index),
        )
    }

    open spec fn unspent(
        &self,
        item: Digest,
        sender_randomness: Digest,
        receiver_preimage: Digest,
        leaf_index: u64,
    ) -> bool {
        !self@.any_set(
            index_set_spec(self@.params, item, sender_randomness, receiver_preimage, leaf_index),
        )
    }

    fn restore_membership_proof(
        &self,
        item: &Digest,
        sender_randomness: &Digest,
        receiver_preimage: &Digest,
        aocl_leaf_index: u64,
    ) -> (res: Result<MembershipProof, MutatorSetError>) {
        ArchivalMutatorSet::restore_membership_proof(
            self,
            item,
            sender_randomness,
            receiver_preimage,
            aocl_leaf_index,
        )
    }
}

} // verus!
