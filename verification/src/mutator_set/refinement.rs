//! How the light form follows the full form: what the light form computes
//! from peaks and paths is what the full form has in its leaves and chunks,
//! as long as the paths that it is handed are true ones.

use vstd::prelude::*;
use crate::digest::Digest;
use crate::mmr::accumulator::MmrView;
use crate::mmr::laws::lemma_append_extends_path;
use crate::mmr::laws::lemma_append_fresh_path;
use crate::mmr::laws::lemma_update_peaks;
use crate::mmr::laws::lemma_update_reroutes;
use crate::mmr::shape::path_of;
use crate::mmr::shape::peaks_of;
use crate::mutator_set::accumulator::chunks_after;
use crate::mutator_set::accumulator::marked_digest;
use crate::mutator_set::accumulator::rerouted_entries;
use crate::mutator_set::archival::ArchiveView;
use crate::mutator_set::chunk_proof::ChunkProofView;
use crate::mutator_set::chunk_proof::distinct;
use crate::mutator_set::chunk_proof::has_chunk;
use crate::mutator_set::commitment::indices_from_seed;
use crate::mutator_set::laws::entries_genuine;
use crate::mutator_set::laws::lemma_added_wf;
use crate::mutator_set::laws::lemma_entry_ok;
use crate::mutator_set::laws::proof_genuine;
use crate::mutator_set::laws::record_genuine;
use crate::mutator_set::membership_proof::MembershipProofView;
use crate::mutator_set::removal_record::RemovalRecordView;
use crate::mutator_set::update::extended_entries;
use crate::mutator_set::update::rerouted_along;
use crate::swbf::bits::any_set;
use crate::swbf::bits::bits_digest;
use crate::swbf::bits::lemma_in_chunk;
use crate::swbf::bits::lemma_marked_untouched;

verus! {

/// Whether one of `indices` lies in the chunk with the given index.
pub open spec fn touched(chunk_size: u32, indices: Seq<u128>, chunk_index: int) -> bool {
    exists|i: int|
        0 <= i < indices.len() && chunk_index * chunk_size <= (#[trigger] indices[i])
            < chunk_index * chunk_size + chunk_size
}

/// Whether the path of each of `entries` is the true one in the range over
/// `digests`.
pub open spec fn paths_true(digests: Seq<Digest>, entries: Seq<ChunkProofView>) -> bool {
    forall|j: int|
        0 <= j < entries.len() ==> (#[trigger] entries[j]).chunk_index < digests.len()
            && entries[j].path == path_of(digests, entries[j].chunk_index as int)
}

/// Whether each of `entries` holds the chunk that `set` has at that place.
pub open spec fn chunks_true(set: ArchiveView, entries: Seq<ChunkProofView>) -> bool {
    forall|j: int|
        0 <= j < entries.len() ==> (#[trigger] entries[j]).chunk_index < set.chunks.len()
            && entries[j].chunk == set.chunks[entries[j].chunk_index as int]
}

/// The run of a removal over the chunks of its record. `digests` are the
/// digests of the chunks as far as the run has come: each is the old one or
/// the new one, and the new one wherever a bit is set and the chunk is no
/// longer to come. At the end of the run the peaks are those of the new
/// digests, and every path that was rerouted along the way is the true one
/// among the new digests.
pub proof fn lemma_removal_run(
    set: ArchiveView,
    indices: Seq<u128>,
    digests: Seq<Digest>,
    by: Seq<ChunkProofView>,
    own: Seq<ChunkProofView>,
)
    requires
        set.wf(),
        digests.len() == set.chunks.len(),
        forall|j: int|
            0 <= j < digests.len() ==> (#[trigger] digests[j]) == set.digests()[j] || digests[j]
                == set.removed(indices).digests()[j],
        forall|j: int|
            0 <= j < digests.len() && touched(set.params.chunk_size, indices, j) ==> (
            #[trigger] digests[j]) == set.removed(indices).digests()[j] || has_chunk(
                by,
                j as u64,
            ),
        chunks_true(set, by),
        paths_true(digests, by),
        paths_true(digests, own),
        set.chunks.len() <= u64::MAX,
    ensures
        chunks_after(
            MmrView { slots: peaks_of(digests), count: digests.len() },
            by,
            set.params.chunk_size,
            indices,
        ) == (MmrView {
            slots: peaks_of(set.removed(indices).digests()),
            count: digests.len(),
        }),
        rerouted_along(own, by, set.params.chunk_size, indices).len() == own.len(),
        forall|v: int|
            0 <= v < own.len() ==> (#[trigger] rerouted_along(
                own,
                by,
                set.params.chunk_size,
                indices,
            )[v]) == (ChunkProofView {
                chunk_index: own[v].chunk_index,
                chunk: own[v].chunk,
                path: path_of(set.removed(indices).digests(), own[v].chunk_index as int),
            }),
    decreases by.len(),
{
    let size = set.params.chunk_size;
    let target = set.removed(indices).digests();
    if by.len() == 0 {
        assert forall|j: int| 0 <= j < digests.len() implies digests[j] == target[j] by {
            if digests[j] != target[j] {
                assert(!touched(size, indices, j));
                assert forall|i: int| 0 <= i < indices.len() implies !(j * size <= (
                #[trigger] indices[i]) < j * size + set.chunks[j].len()) by {
                    if j * size <= indices[i] < j * size + size {
                        assert(touched(size, indices, j));
                    }
                }
                lemma_marked_untouched(set.chunks[j], j * size, indices);
            }
        }
        assert(digests =~= target);
    } else {
        let first = by[0];
        let at = first.chunk_index as int;
        let digest = marked_digest(first, size, indices);
        let next = digests.update(at, digest);
        let by_next = rerouted_entries(by.drop_first(), first, digest);
        let own_next = rerouted_entries(own, first, digest);
        assert(digest == target[at]);
        lemma_update_peaks(digests, at, digest);
        assert forall|j: int| 0 <= j < by_next.len() implies (#[trigger] by_next[j]).chunk_index
            < next.len() && by_next[j].path == path_of(next, by_next[j].chunk_index as int) by {
            assert(by.drop_first()[j] == by[j + 1]);
            lemma_update_reroutes(digests, by[j + 1].chunk_index as int, at, digest);
        }
        assert forall|j: int| 0 <= j < own_next.len() implies (#[trigger] own_next[j]).chunk_index
            < next.len() && own_next[j].path == path_of(next, own_next[j].chunk_index as int) by {
            lemma_update_reroutes(digests, own[j].chunk_index as int, at, digest);
        }
        assert forall|j: int| 0 <= j < by_next.len() implies (#[trigger] by_next[j]).chunk_index
            < set.chunks.len() && by_next[j].chunk == set.chunks[by_next[j].chunk_index as int] by {
            assert(by.drop_first()[j] == by[j + 1]);
        }
        assert forall|j: int|
            0 <= j < next.len() && touched(size, indices, j) implies (#[trigger] next[j])
            == target[j] || has_chunk(by_next, j as u64) by {
            if j != at && digests[j] != target[j] {
                let u = choose|u: int|
                    0 <= u < by.len() && (#[trigger] by[u]).chunk_index == j as u64;
                assert(u > 0);
                assert(by_next[u - 1].chunk_index == by[u].chunk_index);
            }
        }
        lemma_removal_run(set, indices, next, by_next, own_next);
        assert forall|v: int| 0 <= v < own.len() implies (#[trigger] rerouted_along(
            own,
            by,
            size,
            indices,
        )[v]) == (ChunkProofView {
            chunk_index: own[v].chunk_index,
            chunk: own[v].chunk,
            path: path_of(target, own[v].chunk_index as int),
        }) by {
            assert(rerouted_along(own_next, by_next, size, indices)[v] == (ChunkProofView {
                chunk_index: own_next[v].chunk_index,
                chunk: own_next[v].chunk,
                path: path_of(target, own_next[v].chunk_index as int),
            }));
        }
    }
}

/// Chunks of a set with their true paths are chunks of the set, and their
/// paths are the true ones among the digests of its chunks.
pub proof fn lemma_genuine_entries(set: ArchiveView, entries: Seq<ChunkProofView>)
    requires
        entries_genuine(set, entries),
    ensures
        chunks_true(set, entries),
        paths_true(set.digests(), entries),
{
}

/// A chunk that covers an index is the chunk that division names.
pub proof fn lemma_covering_entry(set: ArchiveView, entry: ChunkProofView, index: int)
    requires
        set.wf(),
        entry.covers(set.params.chunk_size, index),
    ensures
        index / (set.params.chunk_size as int) == entry.chunk_index,
        index % (set.params.chunk_size as int) == index - entry.base(set.params.chunk_size),
{
    lemma_in_chunk(index, set.params.chunk_size as int, entry.chunk_index as int);
}

/// A removal on the light form follows the removal on the full form: a
/// record made from what the set holds is not turned down, it finds a bit set
/// exactly where the set has one set, and it leaves the light form of the set
/// that the full form comes to.
pub proof fn lemma_light_removed(set: ArchiveView, record: RemovalRecordView)
    requires
        set.wf(),
        set.chunks.len() <= u64::MAX,
        record_genuine(set, record),
    ensures
        set.light().rejection(record) is None,
        set.light().already_set(record) == set.any_set(record.index_set),
        set.removed(record.index_set).light() == set.light().removed(record),
{
    let light = set.light();
    let indices = record.index_set;
    let by = record.chunk_proofs;
    let size = set.params.chunk_size;
    assert forall|j: int| 0 <= j < by.len() implies light.entry_ok(#[trigger] by[j]) by {
        lemma_entry_ok(set, by[j].chunk_index as int);
    }
    assert(light.in_range(indices)) by {
        assert forall|i: int| 0 <= i < indices.len() implies (#[trigger] indices[i])
            < light.window_start() + light.window.len() by {
            assert(set.holds(indices[i] as int));
        }
    }
    lemma_genuine_entries(set, by);
    assert forall|j: int|
        0 <= j < set.chunks.len() && touched(size, indices, j) implies (
    #[trigger] set.digests()[j]) == set.removed(indices).digests()[j] || has_chunk(
        by,
        j as u64,
    ) by {
        let i = choose|i: int|
            0 <= i < indices.len() && j * size <= (#[trigger] indices[i]) < j * size + size;
        assert(indices[i] < light.window_start()) by (nonlinear_arith)
            requires
                indices[i] < j * size + size,
                0 <= j < set.chunks.len(),
                light.window_start() == set.chunks.len() * size,
                size > 0,
        ;
        let u = choose|u: int|
            0 <= u < by.len() && (#[trigger] by[u]).covers(size, indices[i] as int);
        lemma_covering_entry(set, by[u], indices[i] as int);
        lemma_in_chunk(indices[i] as int, size as int, j);
    }
    lemma_removal_run(set, indices, set.digests(), by, Seq::empty());
    if light.already_set(record) {
        if any_set(light.window, light.window_start(), indices) {
            let i = choose|i: int|
                0 <= i < indices.len() && light.window_start() <= (#[trigger] indices[i])
                    < light.window_start() + light.window.len() && light.window[indices[i]
                    - light.window_start()];
            assert(set.bit(indices[i] as int));
        } else {
            let j = choose|j: int|
                0 <= j < by.len() && any_set((#[trigger] by[j]).chunk, by[j].base(size), indices);
            let i = choose|i: int|
                0 <= i < indices.len() && by[j].base(size) <= (#[trigger] indices[i]) < by[j].base(
                    size,
                ) + by[j].chunk.len() && by[j].chunk[indices[i] - by[j].base(size)];
            lemma_covering_entry(set, by[j], indices[i] as int);
            assert(indices[i] < light.window_start()) by (nonlinear_arith)
                requires
                    indices[i] < by[j].chunk_index * size + size,
                    0 <= by[j].chunk_index < set.chunks.len(),
                    light.window_start() == set.chunks.len() * size,
                    size > 0,
            ;
            assert(set.bit(indices[i] as int));
        }
    }
    if set.any_set(indices) {
        let i = choose|i: int| 0 <= i < indices.len() && set.bit(#[trigger] indices[i] as int);
        assert(set.holds(indices[i] as int));
        if indices[i] < light.window_start() {
            let j = choose|j: int|
                0 <= j < by.len() && (#[trigger] by[j]).covers(size, indices[i] as int);
            lemma_covering_entry(set, by[j], indices[i] as int);
            assert(any_set(by[j].chunk, by[j].base(size), indices));
        } else {
            assert(any_set(light.window, light.window_start(), indices));
        }
    }
}

/// A proof that is brought up to date for a removal stays a proof made from
/// what the set holds.
pub proof fn lemma_genuine_after_removal(
    set: ArchiveView,
    item: Digest,
    proof: MembershipProofView,
    record: RemovalRecordView,
)
    requires
        set.wf(),
        set.chunks.len() <= u64::MAX,
        proof_genuine(set, item, proof),
        record_genuine(set, record),
    ensures
        proof_genuine(
            set.removed(record.index_set),
            item,
            set.light().proof_after_removal(proof, record),
        ),
{
    let light = set.light();
    let indices = record.index_set;
    let by = record.chunk_proofs;
    let own = proof.chunk_proofs;
    let size = set.params.chunk_size;
    let after = set.removed(indices);
    let updated = light.proof_after_removal(proof, record);
    lemma_genuine_entries(set, by);
    lemma_genuine_entries(set, own);
    assert forall|j: int|
        0 <= j < set.chunks.len() && touched(size, indices, j) implies (
    #[trigger] set.digests()[j]) == after.digests()[j] || has_chunk(by, j as u64) by {
        let i = choose|i: int|
            0 <= i < indices.len() && j * size <= (#[trigger] indices[i]) < j * size + size;
        assert(indices[i] < light.window_start()) by (nonlinear_arith)
            requires
                indices[i] < j * size + size,
                0 <= j < set.chunks.len(),
                light.window_start() == set.chunks.len() * size,
                size > 0,
        ;
        let u = choose|u: int|
            0 <= u < by.len() && (#[trigger] by[u]).covers(size, indices[i] as int);
        lemma_covering_entry(set, by[u], indices[i] as int);
        lemma_in_chunk(indices[i] as int, size as int, j);
    }
    lemma_removal_run(set, indices, set.digests(), by, own);
    let rerouted = rerouted_along(own, by, size, indices);
    let entries = updated.chunk_proofs;
    assert forall|j: int| 0 <= j < entries.len() implies (#[trigger] entries[j]).chunk_index
        < after.chunks.len() && entries[j] == after.entry(entries[j].chunk_index as int) by {
        assert(rerouted[j].chunk_index == own[j].chunk_index);
        assert(own[j] == set.entry(own[j].chunk_index as int));
    }
    assert(distinct(entries)) by {
        assert forall|j: int, k: int|
            0 <= j < entries.len() && 0 <= k < entries.len() && j != k implies (
        #[trigger] entries[j]).chunk_index != (#[trigger] entries[k]).chunk_index by {
            assert(rerouted[j].chunk_index == own[j].chunk_index);
            assert(rerouted[k].chunk_index == own[k].chunk_index);
        }
    }
    let item_indices = indices_from_seed(set.params, proof.index_set_seed, proof.aocl_leaf_index);
    assert forall|i: int|
        0 <= i < item_indices.len() && (#[trigger] item_indices[i])
            < after.light().window_start() implies exists|j: int|
        0 <= j < entries.len() && (#[trigger] entries[j]).covers(size, item_indices[i] as int) by {
        let j = choose|j: int|
            0 <= j < own.len() && (#[trigger] own[j]).covers(size, item_indices[i] as int);
        assert(rerouted[j].chunk_index == own[j].chunk_index);
        assert(entries[j].covers(size, item_indices[i] as int));
    }
}

/// A proof that is brought up to date for an addition stays a proof made
/// from what the set holds.
pub proof fn lemma_genuine_after_addition(
    set: ArchiveView,
    item: Digest,
    proof: MembershipProofView,
    commitment: Digest,
)
    requires
        set.wf(),
        set.leaves.len() < u64::MAX,
        set.chunks.len() < u64::MAX,
        proof_genuine(set, item, proof),
    ensures
        proof_genuine(
            set.added(commitment),
            item,
            set.light().proof_after_addition(proof, commitment),
        ),
{
    let light = set.light();
    let after = set.added(commitment);
    let updated = light.proof_after_addition(proof, commitment);
    let own = proof.chunk_proofs;
    let entries = updated.chunk_proofs;
    let size = set.params.chunk_size;
    let indices = indices_from_seed(set.params, proof.index_set_seed, proof.aocl_leaf_index);
    lemma_added_wf(set, commitment);
    lemma_append_extends_path(set.leaves, commitment, proof.aocl_leaf_index as int);
    if set.params.slides(set.leaves.len()) {
        let chunk = set.window.take(size as int);
        let digest = bits_digest(chunk);
        let count = set.chunks.len() as int;
        let carried = extended_entries(own, light.chunks.slots, digest);
        assert(after.digests() =~= set.digests().push(digest));
        lemma_append_fresh_path(set.digests(), digest);
        assert((count + 1) * size == count * size + size) by (nonlinear_arith);
        assert(!has_chunk(own, count as u64));
        assert forall|j: int| 0 <= j < entries.len() implies (#[trigger] entries[j]).chunk_index
            < after.chunks.len() && entries[j] == after.entry(entries[j].chunk_index as int) by {
            if j < own.len() {
                assert(entries[j] == carried[j]);
                assert(own[j] == set.entry(own[j].chunk_index as int));
                lemma_append_extends_path(set.digests(), digest, own[j].chunk_index as int);
            }
        }
        assert(distinct(entries)) by {
            assert forall|j: int, k: int|
                0 <= j < entries.len() && 0 <= k < entries.len() && j != k implies (
            #[trigger] entries[j]).chunk_index != (#[trigger] entries[k]).chunk_index by {
                if j < own.len() {
                    assert(entries[j].chunk_index == own[j].chunk_index);
                }
                if k < own.len() {
                    assert(entries[k].chunk_index == own[k].chunk_index);
                }
            }
        }
        assert forall|i: int|
            0 <= i < indices.len() && (#[trigger] indices[i])
                < after.light().window_start() implies exists|j: int|
            0 <= j < entries.len() && (#[trigger] entries[j]).covers(size, indices[i] as int) by {
            if indices[i] < light.window_start() {
                let j = choose|j: int|
                    0 <= j < own.len() && (#[trigger] own[j]).covers(size, indices[i] as int);
                assert(entries[j].chunk_index == own[j].chunk_index);
                assert(entries[j].covers(size, indices[i] as int));
            } else {
                assert(light.in_leaving_chunk(indices));
                assert(entries[own.len() as int].covers(size, indices[i] as int));
            }
        }
    } else {
        assert(after.digests() =~= set.digests());
    }
}

} // verus!
