//! What holds of the mutator set, whatever is added to it and removed from
//! it.

use vstd::prelude::*;
use crate::digest::Digest;
use crate::digest::hash_pair_spec;
use crate::mmr::laws::lemma_append_fresh_path;
use crate::mmr::laws::lemma_append_peaks;
use crate::mmr::laws::lemma_path_authenticates;
use crate::mmr::shape::authenticates;
use crate::mmr::shape::carry;
use crate::mmr::shape::merging_peaks;
use crate::mmr::shape::path_of;
use crate::mmr::shape::shaped;
use crate::mutator_set::accumulator::AccumulatorView;
use crate::mutator_set::archival::ArchiveView;
use crate::mutator_set::archival::lemma_item_in_range;
use crate::mutator_set::chunk_proof::ChunkProofView;
use crate::mutator_set::chunk_proof::distinct;
use crate::mutator_set::chunk_proof::has_chunk;
use crate::mutator_set::commitment::commitment_spec;
use crate::mutator_set::commitment::index_seed_spec;
use crate::mutator_set::commitment::index_set_spec;
use crate::mutator_set::commitment::indices_from_seed;
use crate::mutator_set::commitment::receiver_digest_spec;
use crate::mutator_set::membership_proof::MembershipProofView;
use crate::mutator_set::removal_record::RemovalRecordView;
use crate::swbf::bits::any_set;
use crate::swbf::bits::bits_digest;
use crate::swbf::bits::hits;
use crate::swbf::bits::lemma_chunk_of;
use crate::swbf::bits::lemma_in_chunk;
use crate::swbf::bits::zeros;
use crate::swbf::params::Params;
use crate::swbf::params::lemma_batches_step;

verus! {

/// The peaks that a new leaf is hashed with lead from that leaf to a peak of
/// the longer range.
pub proof fn lemma_fresh_path_authenticates(slots: Seq<Option<Digest>>, count: nat, node: Digest)
    requires
        shaped(slots, count),
    ensures
        authenticates(carry(slots, node), count + 1, count as int, node, merging_peaks(slots)),
    decreases slots.len(),
{
    if slots.len() > 0 {
        match slots[0] {
            None => {},
            Some(peak) => {
                let up = hash_pair_spec(peak, node);
                lemma_fresh_path_authenticates(slots.drop_first(), count / 2, up);
                assert(carry(slots, node).drop_first() =~= carry(slots.drop_first(), up));
                assert(merging_peaks(slots).drop_first() =~= merging_peaks(slots.drop_first()));
            },
        }
    }
}

/// Adding to a set that is well-formed gives a set that is well-formed.
pub proof fn lemma_added_wf(set: ArchiveView, commitment: Digest)
    requires
        set.wf(),
    ensures
        set.added(commitment).wf(),
{
    lemma_batches_step(set.params, set.leaves.len());
}

/// Setting bits in a set that is well-formed gives a set that is well-formed.
pub proof fn lemma_removed_wf(set: ArchiveView, indices: Seq<u128>)
    requires
        set.wf(),
    ensures
        set.removed(indices).wf(),
{
}

/// An addition sets no bit and clears none: every bit of the filter is after
/// it what it was before, and the bits that come into the window are not set.
pub proof fn lemma_added_bits(set: ArchiveView, commitment: Digest, index: int)
    requires
        set.wf(),
        set.added(commitment).holds(index),
    ensures
        set.holds(index) ==> set.added(commitment).bit(index) == set.bit(index),
        !set.holds(index) ==> !set.added(commitment).bit(index),
{
    let after = set.added(commitment);
    let size = set.params.chunk_size as int;
    let count = set.chunks.len() as int;
    if set.params.slides(set.leaves.len()) {
        assert((count + 1) * size == count * size + size) by (nonlinear_arith);
        if index < set.window_start() {
            lemma_chunk_of(index, size, count);
        } else if index < after.window_start() {
            lemma_in_chunk(index, size, count);
        }
    }
}

/// A removal sets the bits that it names and no others.
pub proof fn lemma_removed_bits(set: ArchiveView, indices: Seq<u128>, index: int)
    requires
        set.wf(),
        set.holds(index),
    ensures
        set.removed(indices).holds(index),
        set.removed(indices).bit(index) == (set.bit(index) || hits(indices, index)),
{
    let size = set.params.chunk_size as int;
    let count = set.chunks.len() as int;
    if index < set.window_start() {
        lemma_chunk_of(index, size, count);
    }
}

/// The light form of a set to which a commitment has been added is the
/// light form of the set, with the commitment added to it.
pub proof fn lemma_light_added(set: ArchiveView, commitment: Digest)
    requires
        set.wf(),
    ensures
        set.added(commitment).light() == set.light().added(commitment),
{
    let after = set.added(commitment);
    lemma_append_peaks(set.leaves, commitment);
    lemma_append_fresh_path(set.leaves, commitment);
    if set.params.slides(set.leaves.len()) {
        let chunk = set.window.take(set.params.chunk_size as int);
        assert(after.digests() =~= set.digests().push(bits_digest(chunk)));
        lemma_append_peaks(set.digests(), bits_digest(chunk));
    } else {
        assert(after.digests() =~= set.digests());
    }
}

/// Whether each of `entries` is a chunk of `set` with its true path, and no
/// two of them are the same chunk.
pub open spec fn entries_genuine(set: ArchiveView, entries: Seq<ChunkProofView>) -> bool {
    &&& distinct(entries)
    &&& forall|j: int|
        0 <= j < entries.len() ==> (#[trigger] entries[j]).chunk_index < set.chunks.len()
            && entries[j] == set.entry(entries[j].chunk_index as int)
}

/// Whether `record` is made from what `set` holds: its chunks are chunks of
/// the set with their true paths, and they hold every bit of the record that
/// lies before the window.
pub open spec fn record_genuine(set: ArchiveView, record: RemovalRecordView) -> bool {
    &&& set.in_range(record.index_set)
    &&& entries_genuine(set, record.chunk_proofs)
    &&& set.light().covered(record.chunk_proofs, record.index_set)
}

/// Whether `proof` is made for `item` from what `set` holds: the commitment
/// to the item is where the proof says, path and seed are the true ones, and
/// the chunks are chunks of the set with their true paths that hold every
/// bit of the item that lies before the window.
pub open spec fn proof_genuine(set: ArchiveView, item: Digest, proof: MembershipProofView)
    -> bool {
    let indices = indices_from_seed(set.params, proof.index_set_seed, proof.aocl_leaf_index);
    &&& set.retains(
        item,
        proof.sender_randomness,
        proof.receiver_preimage,
        proof.aocl_leaf_index,
    )
    &&& proof.aocl_auth_path == path_of(set.leaves, proof.aocl_leaf_index as int)
    &&& proof.index_set_seed == index_seed_spec(
        item,
        proof.sender_randomness,
        proof.receiver_preimage,
        proof.aocl_leaf_index,
    )
    &&& entries_genuine(set, proof.chunk_proofs)
    &&& set.light().covered(proof.chunk_proofs, indices)
}

/// The chunks that a set hands out for a list of indices are chunks of the
/// set with their true paths, no chunk twice, and they hold every index of
/// the list that lies before the window.
pub proof fn lemma_entries_for_genuine(set: ArchiveView, indices: Seq<u128>)
    requires
        set.wf(),
        set.chunks.len() <= u64::MAX,
    ensures
        entries_genuine(set, set.entries_for(indices)),
        set.light().covered(set.entries_for(indices), indices),
        forall|j: int|
            0 <= j < set.entries_for(indices).len() ==> exists|i: int|
                0 <= i < indices.len() && (#[trigger] set.entries_for(indices)[j]).covers(
                    set.params.chunk_size,
                    #[trigger] indices[i] as int,
                ),
    decreases indices.len(),
{
    let entries = set.entries_for(indices);
    let size = set.params.chunk_size as int;
    if indices.len() > 0 {
        let shorter = indices.drop_last();
        let before = set.entries_for(shorter);
        lemma_entries_for_genuine(set, shorter);
        let index = indices.last() as int;
        let chunk_index = index / size;
        if index < set.window_start() {
            lemma_chunk_of(index, size, set.chunks.len() as int);
        }
        assert forall|i: int|
            0 <= i < indices.len() && (#[trigger] indices[i]) < set.light().window_start() implies exists|
            j: int,
        |
            0 <= j < entries.len() && (#[trigger] entries[j]).covers(
                set.params.chunk_size,
                indices[i] as int,
            ) by {
            if i < shorter.len() {
                assert(shorter[i] == indices[i]);
                let j = choose|j: int|
                    0 <= j < before.len() && (#[trigger] before[j]).covers(
                        set.params.chunk_size,
                        shorter[i] as int,
                    );
                assert(entries[j] == before[j]);
            } else {
                if has_chunk(before, chunk_index as u64) {
                    let j = choose|j: int|
                        0 <= j < before.len() && (#[trigger] before[j]).chunk_index
                            == chunk_index as u64;
                    assert(entries[j] == before[j]);
                    assert(entries[j].covers(set.params.chunk_size, index));
                } else {
                    assert(entries[before.len() as int] == set.entry(chunk_index));
                    assert(entries[before.len() as int].covers(set.params.chunk_size, index));
                }
            }
        }
        assert forall|j: int| 0 <= j < entries.len() implies exists|i: int|
            0 <= i < indices.len() && (#[trigger] entries[j]).covers(
                set.params.chunk_size,
                #[trigger] indices[i] as int,
            ) by {
            if j < before.len() {
                assert(entries[j] == before[j]);
                let i = choose|i: int|
                    0 <= i < shorter.len() && before[j].covers(
                        set.params.chunk_size,
                        #[trigger] shorter[i] as int,
                    );
                assert(indices[i] == shorter[i]);
            } else {
                assert(entries[j].covers(set.params.chunk_size, indices[indices.len() - 1] as int));
            }
        }
    }
}

/// A chunk of a set with its true path holds a chunk of the filter, as the
/// light form sees it.
pub proof fn lemma_entry_ok(set: ArchiveView, chunk_index: int)
    requires
        set.wf(),
        0 <= chunk_index < set.chunks.len(),
        set.chunks.len() <= u64::MAX,
    ensures
        set.light().entry_ok(set.entry(chunk_index)),
{
    lemma_path_authenticates(set.digests(), chunk_index);
}

/// The proof that a set makes for an item that it retains is made from what
/// the set holds.
pub proof fn lemma_proof_for_genuine(
    set: ArchiveView,
    item: Digest,
    sender_randomness: Digest,
    receiver_preimage: Digest,
    leaf_index: u64,
)
    requires
        set.wf(),
        set.chunks.len() <= u64::MAX,
        set.retains(item, sender_randomness, receiver_preimage, leaf_index),
    ensures
        proof_genuine(
            set,
            item,
            set.proof_for(item, sender_randomness, receiver_preimage, leaf_index),
        ),
{
    let seed = index_seed_spec(item, sender_randomness, receiver_preimage, leaf_index);
    lemma_entries_for_genuine(set, indices_from_seed(set.params, seed, leaf_index));
}

/// The removal record that is made from a proof made from what a set holds,
/// with the bits of the item, is a record made from what the set holds.
pub proof fn law_record_from_proof_is_genuine(
    set: ArchiveView,
    item: Digest,
    proof: MembershipProofView,
)
    requires
        set.wf(),
        proof_genuine(set, item, proof),
    ensures
        record_genuine(
            set,
            RemovalRecordView {
                index_set: indices_from_seed(
                    set.params,
                    proof.index_set_seed,
                    proof.aocl_leaf_index,
                ),
                chunk_proofs: proof.chunk_proofs,
            },
        ),
{
    lemma_item_in_range(set, proof.index_set_seed, proof.aocl_leaf_index);
}

/// A proof made from what a set holds, for an item none of whose bits is
/// set, is accepted by the set and by its light form.
pub proof fn lemma_genuine_verifies(set: ArchiveView, item: Digest, proof: MembershipProofView)
    requires
        set.wf(),
        set.chunks.len() <= u64::MAX,
        proof_genuine(set, item, proof),
        !set.any_set(indices_from_seed(set.params, proof.index_set_seed, proof.aocl_leaf_index)),
    ensures
        set.verifies(item, proof),
        set.light().verifies(item, proof),
{
    let indices = indices_from_seed(set.params, proof.index_set_seed, proof.aocl_leaf_index);
    let light = set.light();
    let size = set.params.chunk_size as int;
    lemma_path_authenticates(set.leaves, proof.aocl_leaf_index as int);
    lemma_item_in_range(set, proof.index_set_seed, proof.aocl_leaf_index);
    assert forall|i: int| 0 <= i < indices.len() implies light.bit_unset(
        proof.chunk_proofs,
        #[trigger] indices[i],
    ) by {
        let index = indices[i] as int;
        assert(set.holds(index));
        assert(!set.bit(index));
        if index < light.window_start() {
            let j = choose|j: int|
                0 <= j < proof.chunk_proofs.len() && (#[trigger] proof.chunk_proofs[j]).covers(
                    set.params.chunk_size,
                    index,
                );
            let entry = proof.chunk_proofs[j];
            lemma_entry_ok(set, entry.chunk_index as int);
            lemma_in_chunk(index, size, entry.chunk_index as int);
            assert(light.entry_shows_unset(entry, indices[i]));
        }
    }
}

/// Round trip, on the light form: the proof that the light form makes for
/// an item right after the commitment to it has been added is accepted,
/// where none of the bits of the item has been set by an earlier removal.
pub proof fn law_round_trip_light(
    set: AccumulatorView,
    item: Digest,
    sender_randomness: Digest,
    receiver_preimage: Digest,
)
    requires
        set.wf(),
        set.aocl.count < u64::MAX,
        forall|i: int|
            0 <= i < set.params.num_trials ==> set.added(
                commitment_spec(item, sender_randomness, receiver_digest_spec(receiver_preimage)),
            ).bit_unset(
                Seq::empty(),
                #[trigger] index_set_spec(
                    set.params,
                    item,
                    sender_randomness,
                    receiver_preimage,
                    set.aocl.count as u64,
                )[i],
            ),
    ensures
        set.added(
            commitment_spec(item, sender_randomness, receiver_digest_spec(receiver_preimage)),
        ).verifies(
            item,
            set.added(
                commitment_spec(item, sender_randomness, receiver_digest_spec(receiver_preimage)),
            ).fresh_proof(item, sender_randomness, receiver_preimage, set.aocl.count as u64),
        ),
{
    let commitment = commitment_spec(
        item,
        sender_randomness,
        receiver_digest_spec(receiver_preimage),
    );
    lemma_fresh_path_authenticates(set.aocl.slots, set.aocl.count, commitment);
    let after = set.added(commitment);
    let leaf_index = set.aocl.count as u64;
    let proof = after.fresh_proof(item, sender_randomness, receiver_preimage, leaf_index);
    let indices = indices_from_seed(after.params, proof.index_set_seed, proof.aocl_leaf_index);
    assert(indices == index_set_spec(
        set.params,
        item,
        sender_randomness,
        receiver_preimage,
        leaf_index,
    ));
    assert forall|i: int| 0 <= i < indices.len() implies after.bit_unset(
        proof.chunk_proofs,
        #[trigger] indices[i],
    ) by {
        assert(after.bit_unset(
            Seq::empty(),
            index_set_spec(set.params, item, sender_randomness, receiver_preimage, leaf_index)[i],
        ));
    }
}

/// Round trip, on the full form: the proof that the set makes for an item
/// right after the commitment to it has been added is accepted by the set
/// and by its light form, where none of the bits of the item has been set by
/// an earlier removal.
pub proof fn law_round_trip(
    set: ArchiveView,
    item: Digest,
    sender_randomness: Digest,
    receiver_preimage: Digest,
)
    requires
        set.wf(),
        set.leaves.len() < u64::MAX,
        !set.added(
            commitment_spec(item, sender_randomness, receiver_digest_spec(receiver_preimage)),
        ).any_set(
            index_set_spec(
                set.params,
                item,
                sender_randomness,
                receiver_preimage,
                set.leaves.len() as u64,
            ),
        ),
    ensures
        ({
            let after = set.added(
                commitment_spec(item, sender_randomness, receiver_digest_spec(receiver_preimage)),
            );
            let proof = after.proof_for(
                item,
                sender_randomness,
                receiver_preimage,
                set.leaves.len() as u64,
            );
            after.verifies(item, proof) && after.light().verifies(item, proof)
        }),
{
    let commitment = commitment_spec(
        item,
        sender_randomness,
        receiver_digest_spec(receiver_preimage),
    );
    let after = set.added(commitment);
    let leaf_index = set.leaves.len() as u64;
    lemma_added_wf(set, commitment);
    lemma_chunks_bounded(after);
    lemma_proof_for_genuine(after, item, sender_randomness, receiver_preimage, leaf_index);
    lemma_genuine_verifies(
        after,
        item,
        after.proof_for(item, sender_randomness, receiver_preimage, leaf_index),
    );
}

/// A set has no more chunks than commitments.
pub proof fn lemma_chunks_bounded(set: ArchiveView)
    requires
        set.wf(),
    ensures
        set.chunks.len() <= set.leaves.len(),
{
    let count = set.leaves.len() as int;
    if count > 0 {
        vstd::arithmetic::div_mod::lemma_div_is_ordered_by_denominator(
            count - 1,
            1,
            set.params.batch_size as int,
        );
        vstd::arithmetic::div_mod::lemma_div_basics(count - 1);
    }
}

/// Spend invalidation, on the full form: once the bits of an item have been
/// set, no proof for the item is accepted any more, and a second removal of
/// the same bits finds them set.
pub proof fn law_spend_invalidates(set: ArchiveView, item: Digest, proof: MembershipProofView)
    requires
        set.wf(),
        set.in_range(indices_from_seed(set.params, proof.index_set_seed, proof.aocl_leaf_index)),
    ensures
        ({
            let indices = indices_from_seed(
                set.params,
                proof.index_set_seed,
                proof.aocl_leaf_index,
            );
            let after = set.removed(indices);
            &&& !after.verifies(item, proof)
            &&& after.in_range(indices)
            &&& after.any_set(indices)
            &&& after.all_set(indices)
        }),
{
    let indices = indices_from_seed(set.params, proof.index_set_seed, proof.aocl_leaf_index);
    let after = set.removed(indices);
    assert forall|i: int| 0 <= i < indices.len() implies after.holds(
        #[trigger] indices[i] as int,
    ) && after.bit(indices[i] as int) by {
        assert(set.holds(indices[i] as int));
        lemma_removed_bits(set, indices, indices[i] as int);
    }
    assert(after.bit(indices[0] as int));
}

/// Spend invalidation, on the light form: once the bits of an item have been
/// set, no proof for the item is accepted any more, and no second removal of
/// the same bits goes through without finding one set, where one of the bits
/// lies in the window.
pub proof fn law_spend_invalidates_light(
    set: AccumulatorView,
    item: Digest,
    proof: MembershipProofView,
    record: RemovalRecordView,
)
    requires
        set.wf(),
        record.index_set == indices_from_seed(
            set.params,
            proof.index_set_seed,
            proof.aocl_leaf_index,
        ),
        set.rejection(record) is None,
        exists|i: int|
            0 <= i < record.index_set.len() && (#[trigger] record.index_set[i])
                >= set.window_start(),
    ensures
        !set.removed(record).verifies(item, proof),
        set.removed(record).already_set(record),
{
    let after = set.removed(record);
    let i = choose|i: int|
        0 <= i < record.index_set.len() && (#[trigger] record.index_set[i]) >= set.window_start();
    assert(set.chunks.count == after.chunks.count) by {
        lemma_chunks_after_count(
            set.chunks,
            record.chunk_proofs,
            set.params.chunk_size,
            record.index_set,
        );
    }
    assert(after.window[record.index_set[i] - set.window_start()]);
    assert(!after.bit_unset(proof.chunk_proofs, record.index_set[i]));
    assert(any_set(after.window, after.window_start(), record.index_set));
}

/// Setting bits in chunks leaves the number of chunks as it is.
pub proof fn lemma_chunks_after_count(
    peaks: crate::mmr::accumulator::MmrView,
    entries: Seq<ChunkProofView>,
    chunk_size: u32,
    indices: Seq<u128>,
)
    ensures
        crate::mutator_set::accumulator::chunks_after(peaks, entries, chunk_size, indices).count
            == peaks.count,
    decreases entries.len(),
{
    if entries.len() > 0 {
        let first = entries[0];
        let digest = crate::mutator_set::accumulator::marked_digest(first, chunk_size, indices);
        lemma_chunks_after_count(
            peaks.with_leaf(first.chunk_index as int, first.path, digest),
            crate::mutator_set::accumulator::rerouted_entries(
                entries.drop_first(),
                first,
                digest,
            ),
            chunk_size,
            indices,
        );
    }
}

/// A second removal, on the light form: a record all of whose bits lie in
/// the window, and which therefore holds no chunk, is taken a second time
/// and then finds its bits set.
pub proof fn law_second_removal_light(set: AccumulatorView, record: RemovalRecordView)
    requires
        set.wf(),
        record.index_set.len() > 0,
        record.chunk_proofs.len() == 0,
        set.rejection(record) is None,
    ensures
        set.removed(record).rejection(record) is None,
        set.removed(record).already_set(record),
{
    let after = set.removed(record);
    let index = record.index_set[0];
    assert(index >= set.window_start()) by {
        if index < set.window_start() {
            let j = choose|j: int|
                0 <= j < record.chunk_proofs.len() && (#[trigger] record.chunk_proofs[j]).covers(
                    set.params.chunk_size,
                    index as int,
                );
        }
    }
    assert(after.window[index - set.window_start()]);
}

/// Whether no bit of the set is set.
pub open spec fn clean(set: ArchiveView) -> bool {
    &&& set.window == zeros(set.window.len())
    &&& forall|j: int|
        0 <= j < set.chunks.len() ==> (#[trigger] set.chunks[j]) == zeros(
            set.params.chunk_size as nat,
        )
}

/// The set after all of `commitments` have been added, one after the other.
pub open spec fn with_all(set: ArchiveView, commitments: Seq<Digest>) -> ArchiveView
    decreases commitments.len(),
{
    if commitments.len() == 0 {
        set
    } else {
        with_all(set.added(commitments[0]), commitments.drop_first())
    }
}

/// Additions alone set no bit: they leave a set without set bits as one, and
/// they bring it as many commitments as were added.
pub proof fn lemma_additions_keep_clean(set: ArchiveView, commitments: Seq<Digest>)
    requires
        set.wf(),
        clean(set),
    ensures
        with_all(set, commitments).wf(),
        clean(with_all(set, commitments)),
        with_all(set, commitments).leaves.len() == set.leaves.len() + commitments.len(),
        with_all(set, commitments).params == set.params,
    decreases commitments.len(),
{
    if commitments.len() > 0 {
        let next = set.added(commitments[0]);
        let size = set.params.chunk_size as int;
        lemma_added_wf(set, commitments[0]);
        if set.params.slides(set.leaves.len()) {
            assert(set.window.take(size) =~= zeros(size as nat));
            assert(next.window =~= zeros(next.window.len()));
        }
        lemma_additions_keep_clean(next, commitments.drop_first());
    }
}

/// Window and chunk: once as many commitments have been added to the empty
/// set as the window and one chunk have bits, and nothing has been removed,
/// the set keeps its first chunk, and no bit of that chunk is set. This holds
/// where a batch is shorter than window and chunk together.
pub proof fn law_first_chunk_is_kept(params: Params, commitments: Seq<Digest>)
    requires
        params.wf(),
        params.batch_size < params.window_size + params.chunk_size,
        commitments.len() == params.window_size + params.chunk_size,
    ensures
        with_all(ArchiveView::empty(params), commitments).chunks.len() >= 1,
        with_all(ArchiveView::empty(params), commitments).chunks[0] == zeros(
            params.chunk_size as nat,
        ),
{
    let start = ArchiveView::empty(params);
    lemma_additions_keep_clean(start, commitments);
    let after = with_all(start, commitments);
    let count = commitments.len() as int;
    vstd::arithmetic::div_mod::lemma_div_is_ordered(
        params.batch_size as int,
        count - 1,
        params.batch_size as int,
    );
    vstd::arithmetic::div_mod::lemma_div_by_self(params.batch_size as int);
}

/// Restoration: the proof that a set makes anew for an item that it retains,
/// and none of whose bits is set, is accepted by the set and by its light
/// form. The proof is a function of the set and the item, so it is so every
/// time it is made.
pub proof fn law_restored_proof_verifies(
    set: ArchiveView,
    item: Digest,
    sender_randomness: Digest,
    receiver_preimage: Digest,
    leaf_index: u64,
)
    requires
        set.wf(),
        set.leaves.len() <= u64::MAX,
        set.retains(item, sender_randomness, receiver_preimage, leaf_index),
        !set.any_set(
            index_set_spec(set.params, item, sender_randomness, receiver_preimage, leaf_index),
        ),
    ensures
        !set.all_set(
            index_set_spec(set.params, item, sender_randomness, receiver_preimage, leaf_index),
        ),
        set.verifies(
            item,
            set.proof_for(item, sender_randomness, receiver_preimage, leaf_index),
        ),
        set.light().verifies(
            item,
            set.proof_for(item, sender_randomness, receiver_preimage, leaf_index),
        ),
{
    let indices = index_set_spec(
        set.params,
        item,
        sender_randomness,
        receiver_preimage,
        leaf_index,
    );
    lemma_chunks_bounded(set);
    lemma_proof_for_genuine(set, item, sender_randomness, receiver_preimage, leaf_index);
    lemma_genuine_verifies(
        set,
        item,
        set.proof_for(item, sender_randomness, receiver_preimage, leaf_index),
    );
    assert(!set.bit(indices[0] as int));
}

} // verus!
