//! The life of a membership proof: fresh when it is made, valid while the
//! set accepts it, stale once the set has moved on, and invalid for good
//! once the item is spent or the proof cannot be mended.

use vstd::prelude::*;
use crate::digest::Digest;
use crate::mutator_set::archival::ArchivalMutatorSet;
use crate::mutator_set::archival::ArchiveView;
use crate::mutator_set::commitment::commit;
use crate::mutator_set::commitment::index_set_spec;
use crate::mutator_set::commitment::receiver_digest;
use crate::mutator_set::laws::law_restored_proof_verifies;
use crate::mutator_set::membership_proof::MembershipProof;
use crate::mutator_set::membership_proof::MembershipProofView;

verus! {

/// Where a membership proof stands.
#[derive(Clone, Copy, Debug, PartialEq, Eq, Structural)]
pub enum ProofState {
    /// Made together with the addition, and not yet checked.
    Fresh,
    /// Accepted by the set as it is now.
    Valid,
    /// The set has changed since the proof was made or mended, and no bit of
    /// the item is known to be set.
    StaleButUpdatable,
    /// The item is spent, or the proof cannot be mended. Nothing leads on
    /// from here.
    Invalid,
}

/// What can happen to a membership proof.
#[derive(Clone, Copy, Debug, PartialEq, Eq, Structural)]
pub enum ProofEvent {
    /// The set has checked the proof and accepted it.
    Accepted,
    /// A commitment was added to the set, or the bits of another item were
    /// set.
    SetChanged,
    /// The proof has been brought up to date with the set.
    Updated,
    /// The proof could not be brought up to date.
    UpdateFailed,
    /// The bits of the item itself were found to be set.
    Spent,
}

impl ProofState {
    /// The state that `event` leads to from this one.
    pub open spec fn after(self, event: ProofEvent) -> ProofState {
        match (self, event) {
            (ProofState::Invalid, _) => ProofState::Invalid,
            (_, ProofEvent::Spent) => ProofState::Invalid,
            (_, ProofEvent::UpdateFailed) => ProofState::Invalid,
            (_, ProofEvent::SetChanged) => ProofState::StaleButUpdatable,
            (_, ProofEvent::Accepted) => ProofState::Valid,
            (_, ProofEvent::Updated) => ProofState::Valid,
        }
    }

    /// The state that all of `events` lead to from this one, one after the
    /// other.
    pub open spec fn after_all(self, events: Seq<ProofEvent>) -> ProofState
        decreases events.len(),
    {
        if events.len() == 0 {
            self
        } else {
            self.after(events[0]).after_all(events.drop_first())
        }
    }

    /// The state that `event` leads to from this one.
    pub fn next(self, event: ProofEvent) -> (res: ProofState)
        ensures
            res == self.after(event),
    {
        match self {
            ProofState::Invalid => ProofState::Invalid,
            _ => match event {
                ProofEvent::Spent => ProofState::Invalid,
                ProofEvent::UpdateFailed => ProofState::Invalid,
                ProofEvent::SetChanged => ProofState::StaleButUpdatable,
                ProofEvent::Accepted => ProofState::Valid,
                ProofEvent::Updated => ProofState::Valid,
            },
        }
    }
}

/// Nothing leads on from an invalid proof.
pub proof fn law_invalid_for_good(events: Seq<ProofEvent>)
    ensures
        ProofState::Invalid.after_all(events) == ProofState::Invalid,
    decreases events.len(),
{
    if events.len() > 0 {
        law_invalid_for_good(events.drop_first());
    }
}

/// Once the item is spent the proof is invalid, whatever came before and
/// whatever comes after.
pub proof fn law_spent_is_invalid(state: ProofState, events: Seq<ProofEvent>)
    ensures
        state.after(ProofEvent::Spent).after_all(events) == ProofState::Invalid,
{
    law_invalid_for_good(events);
}

impl ArchiveView {
    /// Where `proof` for `item` stands with this set: valid where the set
    /// accepts it; invalid where the set does not keep the commitment to the
    /// item or a bit of the item is set; else stale, and to be mended.
    pub open spec fn state_of(self, item: Digest, proof: MembershipProofView) -> ProofState {
        if self.verifies(item, proof) {
            ProofState::Valid
        } else if !self.retains(
            item,
            proof.sender_randomness,
            proof.receiver_preimage,
            proof.aocl_leaf_index,
        ) || self.any_set(
            index_set_spec(
                self.params,
                item,
                proof.sender_randomness,
                proof.receiver_preimage,
                proof.aocl_leaf_index,
            ),
        ) {
            ProofState::Invalid
        } else {
            ProofState::StaleButUpdatable
        }
    }
}

impl ArchivalMutatorSet {
    /// Where `proof` for `item` stands with this set.
    pub fn proof_state(&self, item: &Digest, proof: &MembershipProof) -> (res: ProofState)
        requires
            self.wf(),
        ensures
            res == self@.state_of(*item, proof@),
    {
        if self.verify(item, proof) {
            return ProofState::Valid;
        }
        let receiver = receiver_digest(&proof.receiver_preimage);
        let record = commit(item, &proof.sender_randomness, &receiver);
        match self.get_leaf(proof.aocl_leaf_index) {
            Err(_) => {
                return ProofState::Invalid;
            },
            Ok(leaf) => {
                if leaf != record.canonical_commitment {
                    return ProofState::Invalid;
                }
            },
        }
        if self.any_bit_set(
            item,
            &proof.sender_randomness,
            &proof.receiver_preimage,
            proof.aocl_leaf_index,
        ) {
            ProofState::Invalid
        } else {
            ProofState::StaleButUpdatable
        }
    }
}

/// A stale proof can be mended: where a proof is stale, the proof that the
/// set makes anew for the item is valid.
pub proof fn law_stale_can_be_mended(set: ArchiveView, item: Digest, proof: MembershipProofView)
    requires
        set.wf(),
        set.leaves.len() <= u64::MAX,
        set.state_of(item, proof) == ProofState::StaleButUpdatable,
    ensures
        set.state_of(
            item,
            set.proof_for(
                item,
                proof.sender_randomness,
                proof.receiver_preimage,
                proof.aocl_leaf_index,
            ),
        ) == ProofState::Valid,
{
    law_restored_proof_verifies(
        set,
        item,
        proof.sender_randomness,
        proof.receiver_preimage,
        proof.aocl_leaf_index,
    );
}

} // verus!
