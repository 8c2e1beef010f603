//! What holds of proofs and digests over a whole log of operations.

use vstd::prelude::*;
use crate::digest::Digest;
use crate::mutator_set::accumulator::AccumulatorView;
use crate::mutator_set::archival::ArchiveView;
use crate::mutator_set::archival::lemma_item_in_range;
use crate::mutator_set::commitment::indices_from_seed;
use crate::mutator_set::laws::lemma_added_bits;
use crate::mutator_set::laws::lemma_added_wf;
use crate::mutator_set::laws::lemma_chunks_bounded;
use crate::mutator_set::laws::lemma_genuine_verifies;
use crate::mutator_set::laws::lemma_light_added;
use crate::mutator_set::laws::lemma_removed_bits;
use crate::mutator_set::laws::lemma_removed_wf;
use crate::mutator_set::laws::proof_genuine;
use crate::mutator_set::laws::record_genuine;
use crate::mutator_set::membership_proof::MembershipProofView;
use crate::mutator_set::refinement::lemma_genuine_after_addition;
use crate::mutator_set::refinement::lemma_genuine_after_removal;
use crate::mutator_set::refinement::lemma_light_removed;
use crate::mutator_set::update::OperationView;
use crate::swbf::bits::hits;

verus! {

impl ArchiveView {
    /// The set after `operation`.
    pub open spec fn applied(self, operation: OperationView) -> ArchiveView {
        match operation {
            OperationView::Addition(commitment) => self.added(commitment),
            OperationView::Removal(record) => self.removed(record.index_set),
        }
    }

    /// The set after all of `log`, one operation after the other.
    pub open spec fn run(self, log: Seq<OperationView>) -> ArchiveView
        decreases log.len(),
    {
        if log.len() == 0 {
            self
        } else {
            self.applied(log[0]).run(log.drop_first())
        }
    }
}

/// Whether `operation` is one that `set` can take from an honest party: an
/// addition that leaves the number of commitments within 64 bits, or a
/// removal whose record is made from what the set holds.
pub open spec fn operation_genuine(set: ArchiveView, operation: OperationView) -> bool {
    match operation {
        OperationView::Addition(_) => set.leaves.len() < u64::MAX,
        OperationView::Removal(record) => record_genuine(set, record),
    }
}

/// Whether each operation of `log` is one that the set can take from an
/// honest party at the time at which it comes.
pub open spec fn log_genuine(set: ArchiveView, log: Seq<OperationView>) -> bool
    decreases log.len(),
{
    log.len() == 0 || (operation_genuine(set, log[0]) && log_genuine(
        set.applied(log[0]),
        log.drop_first(),
    ))
}

/// Whether `operation` sets none of the bits at `indices`.
pub open spec fn spares(operation: OperationView, indices: Seq<u128>) -> bool {
    match operation {
        OperationView::Addition(_) => true,
        OperationView::Removal(record) => forall|i: int|
            0 <= i < indices.len() ==> !hits(record.index_set, #[trigger] indices[i] as int),
    }
}

/// Whether no operation of `log` sets one of the bits at `indices`.
pub open spec fn log_spares(log: Seq<OperationView>, indices: Seq<u128>) -> bool {
    forall|k: int| 0 <= k < log.len() ==> spares(#[trigger] log[k], indices)
}

/// One honest operation keeps a set well-formed, and the light form
/// follows it.
pub proof fn lemma_step_agrees(set: ArchiveView, operation: OperationView)
    requires
        set.wf(),
        set.leaves.len() <= u64::MAX,
        operation_genuine(set, operation),
    ensures
        set.applied(operation).wf(),
        set.applied(operation).leaves.len() <= u64::MAX,
        set.light().replayable(operation),
        set.applied(operation).light() == set.light().applied(operation),
{
    lemma_chunks_bounded(set);
    match operation {
        OperationView::Addition(commitment) => {
            lemma_added_wf(set, commitment);
            lemma_light_added(set, commitment);
        },
        OperationView::Removal(record) => {
            lemma_removed_wf(set, record.index_set);
            lemma_light_removed(set, record);
        },
    }
}

/// One honest operation that spares the bits of an item leaves them unset,
/// and the proof for the item, brought up to date, stays a proof made from
/// what the set holds.
pub proof fn lemma_step_keeps_proof(
    set: ArchiveView,
    item: Digest,
    proof: MembershipProofView,
    operation: OperationView,
)
    requires
        set.wf(),
        set.leaves.len() <= u64::MAX,
        proof_genuine(set, item, proof),
        !set.any_set(indices_from_seed(set.params, proof.index_set_seed, proof.aocl_leaf_index)),
        operation_genuine(set, operation),
        spares(
            operation,
            indices_from_seed(set.params, proof.index_set_seed, proof.aocl_leaf_index),
        ),
    ensures
        proof_genuine(set.applied(operation), item, set.light().proof_after(proof, operation)),
        !set.applied(operation).any_set(
            indices_from_seed(set.params, proof.index_set_seed, proof.aocl_leaf_index),
        ),
{
    let indices = indices_from_seed(set.params, proof.index_set_seed, proof.aocl_leaf_index);
    let after = set.applied(operation);
    lemma_chunks_bounded(set);
    lemma_item_in_range(set, proof.index_set_seed, proof.aocl_leaf_index);
    match operation {
        OperationView::Addition(commitment) => {
            lemma_added_wf(set, commitment);
            lemma_genuine_after_addition(set, item, proof, commitment);
            assert forall|i: int| 0 <= i < indices.len() implies !after.bit(
                #[trigger] indices[i] as int,
            ) by {
                assert(set.holds(indices[i] as int));
                assert(!set.bit(indices[i] as int));
                lemma_item_in_range(after, proof.index_set_seed, proof.aocl_leaf_index);
                assert(after.holds(indices[i] as int));
                lemma_added_bits(set, commitment, indices[i] as int);
            }
        },
        OperationView::Removal(record) => {
            lemma_genuine_after_removal(set, item, proof, record);
            assert forall|i: int| 0 <= i < indices.len() implies !after.bit(
                #[trigger] indices[i] as int,
            ) by {
                assert(set.holds(indices[i] as int));
                assert(!set.bit(indices[i] as int));
                lemma_removed_bits(set, record.index_set, indices[i] as int);
            }
        },
    }
}

/// The two forms agree: over a log of honest operations the light form
/// comes to the light form of what the full form comes to, and so both
/// have the same digest.
pub proof fn law_forms_agree(set: ArchiveView, log: Seq<OperationView>)
    requires
        set.wf(),
        set.leaves.len() <= u64::MAX,
        log_genuine(set, log),
    ensures
        set.run(log).wf(),
        set.run(log).light() == set.light().run(log),
        set.run(log).light().digest() == set.light().run(log).digest(),
    decreases log.len(),
{
    if log.len() > 0 {
        lemma_step_agrees(set, log[0]);
        law_forms_agree(set.applied(log[0]), log.drop_first());
    }
}

/// Update soundness: a proof made for an item from what the set holds,
/// brought up to date over a log of honest operations none of which sets a
/// bit of the item, is accepted by the light form that has taken the same
/// log, and by the full form.
pub proof fn law_update_soundness(
    set: ArchiveView,
    item: Digest,
    proof: MembershipProofView,
    log: Seq<OperationView>,
)
    requires
        set.wf(),
        set.leaves.len() <= u64::MAX,
        proof_genuine(set, item, proof),
        !set.any_set(indices_from_seed(set.params, proof.index_set_seed, proof.aocl_leaf_index)),
        log_genuine(set, log),
        log_spares(
            log,
            indices_from_seed(set.params, proof.index_set_seed, proof.aocl_leaf_index),
        ),
    ensures
        set.light().proof_after_log(proof, log) is Some,
        set.light().run(log).verifies(item, set.light().proof_after_log(proof, log)->Some_0),
        set.run(log).verifies(item, set.light().proof_after_log(proof, log)->Some_0),
    decreases log.len(),
{
    if log.len() == 0 {
        lemma_chunks_bounded(set);
        lemma_genuine_verifies(set, item, proof);
    } else {
        let rest = log.drop_first();
        let indices = indices_from_seed(set.params, proof.index_set_seed, proof.aocl_leaf_index);
        assert(spares(log[0], indices));
        lemma_step_agrees(set, log[0]);
        lemma_step_keeps_proof(set, item, proof, log[0]);
        assert forall|k: int| 0 <= k < rest.len() implies spares(#[trigger] rest[k], indices) by {
            assert(rest[k] == log[k + 1]);
        }
        let next = set.light().proof_after(proof, log[0]);
        assert(next.index_set_seed == proof.index_set_seed);
        assert(next.aocl_leaf_index == proof.aocl_leaf_index);
        law_update_soundness(set.applied(log[0]), item, next, rest);
    }
}

/// Digest determinism: two sets that are equal and take the same log come to
/// the same digest. Every operation is a function of the set and of what it
/// is handed.
pub proof fn law_digest_determinism(
    one: AccumulatorView,
    other: AccumulatorView,
    log: Seq<OperationView>,
)
    requires
        one == other,
    ensures
        one.run(log) == other.run(log),
        one.run(log).digest() == other.run(log).digest(),
{
}

} // verus!
