//! Membership proofs made anew for many items at once.

use vstd::prelude::*;
use crate::digest::Digest;
use crate::mutator_set::archival::ArchivalMutatorSet;
use crate::mutator_set::archival::ArchiveView;
use crate::mutator_set::commitment::index_set_spec;
use crate::mutator_set::membership_proof::MembershipProof;
use crate::mutator_set::membership_proof::MembershipProofView;

verus! {

/// An item for which a membership proof is asked, with what opens the
/// commitment to it and the place of the commitment.
#[derive(Clone, Copy, Debug, PartialEq, Eq, Structural)]
pub struct RequestMsMembershipProofEx {
    pub item: Digest,
    pub sender_randomness: Digest,
    pub receiver_preimage: Digest,
    pub aocl_leaf_index: u64,
}

/// The proofs that could be made, with the block at which they hold.
#[derive(Debug)]
pub struct ResponseMsMembershipProofEx {
    pub height: u64,
    pub block_id: Digest,
    pub proofs: Vec<MembershipProof>,
}

/// Whether a proof can be made anew for `request`: the set keeps the
/// commitment to the item, and not all bits of the item are set.
pub open spec fn restorable(set: ArchiveView, request: RequestMsMembershipProofEx) -> bool {
    &&& set.retains(
        request.item,
        request.sender_randomness,
        request.receiver_preimage,
        request.aocl_leaf_index,
    )
    &&& !set.all_set(
        index_set_spec(
            set.params,
            request.item,
            request.sender_randomness,
            request.receiver_preimage,
            request.aocl_leaf_index,
        ),
    )
}

/// The proofs for those of `requests` for which one can be made, in the
/// order of the requests.
pub open spec fn restored(set: ArchiveView, requests: Seq<RequestMsMembershipProofEx>) -> Seq<
    MembershipProofView,
>
    decreases requests.len(),
{
    if requests.len() == 0 {
        Seq::empty()
    } else {
        let before = restored(set, requests.drop_last());
        let last = requests.last();
        if restorable(set, last) {
            before.push(
                set.proof_for(
                    last.item,
                    last.sender_randomness,
                    last.receiver_preimage,
                    last.aocl_leaf_index,
                ),
            )
        } else {
            before
        }
    }
}

/// The commitment at `leaf_index`, as the interface hands it out: none
/// beyond the last.
pub open spec fn utxo_digest_spec(set: ArchiveView, leaf_index: u64) -> Option<Digest> {
    if leaf_index < set.leaves.len() {
        Some(set.leaves[leaf_index as int])
    } else {
        None
    }
}

/// Looks up the commitment at `leaf_index`.
pub fn get_utxo_digest(set: &ArchivalMutatorSet, leaf_index: u64) -> (res: Option<Digest>)
    ensures
        res == utxo_digest_spec(set@, leaf_index),
{
    match set.get_leaf(leaf_index) {
        Ok(leaf) => Some(leaf),
        Err(_) => None,
    }
}

/// The proofs of a list, each as mathematics.
pub open spec fn proof_views(proofs: Seq<MembershipProof>) -> Seq<MembershipProofView> {
    Seq::new(proofs.len(), |k: int| proofs[k]@)
}

/// Makes membership proofs anew for all of `requests` for which that can
/// be done, and reports them with the block at which they hold. A request
/// for which no proof can be made is passed over.
pub fn generate_restore_membership_proof(
    set: &ArchivalMutatorSet,
    requests: &Vec<RequestMsMembershipProofEx>,
    height: u64,
    block_id: Digest,
) -> (res: ResponseMsMembershipProofEx)
    requires
        set.wf(),
    ensures
        res.height == height,
        res.block_id == block_id,
        proof_views(res.proofs@) == restored(set@, requests@),
{
    let mut proofs: Vec<MembershipProof> = Vec::new();
    let mut i: usize = 0;
    proof {
        assert(requests@.take(0) =~= Seq::<RequestMsMembershipProofEx>::empty());
        assert(proof_views(proofs@) =~= restored(set@, requests@.take(0)));
    }
    while i < requests.len()
        invariant
            i <= requests.len(),
            set.wf(),
            proof_views(proofs@) == restored(set@, requests@.take(i as int)),
        decreases requests.len() - i,
    {
        proof {
            assert(requests@.take(i as int + 1).drop_last() =~= requests@.take(i as int));
        }
        let request = requests[i];
        let ghost before = proofs@;
        match set.restore_membership_proof(
            &request.item,
            &request.sender_randomness,
            &request.receiver_preimage,
            request.aocl_leaf_index,
        ) {
            Ok(proof) => {
                proofs.push(proof);
                assert(proof_views(proofs@) =~= proof_views(before).push(proof@));
            },
            Err(_) => {},
        }
        i = i + 1;
    }
    assert(requests@.take(requests.len() as int) =~= requests@);
    ResponseMsMembershipProofEx { height, block_id, proofs }
}

} // verus!
