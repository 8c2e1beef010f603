//! How a membership proof is brought up to date when the set changes.

use vstd::prelude::*;
use crate::digest::Digest;
use crate::error::MutatorSetError;
use crate::mmr::accumulator::copy_digests;
use crate::mmr::accumulator::reroute_path;
use crate::mmr::shape::extended;
use crate::mmr::shape::merging_peaks;
use crate::mutator_set::accumulator::AccumulatorView;
use crate::mutator_set::accumulator::MutatorSetAccumulator;
use crate::mutator_set::accumulator::marked_digest;
use crate::mutator_set::accumulator::rerouted_entries;
use crate::mutator_set::accumulator::with_paths;
use crate::mmr::shape::rerouted;
use crate::mutator_set::chunk_proof::ChunkProof;
use crate::mutator_set::chunk_proof::ChunkProofView;
use crate::mutator_set::chunk_proof::contains_chunk;
use crate::mutator_set::chunk_proof::copy_entries;
use crate::mutator_set::chunk_proof::has_chunk;
use crate::mutator_set::chunk_proof::views;
use crate::mutator_set::commitment::indices_from_seed;
use crate::mutator_set::commitment::indices_of_seed;
use crate::mutator_set::membership_proof::MembershipProof;
use crate::mutator_set::membership_proof::MembershipProofView;
use crate::mutator_set::removal_record::RemovalRecord;
use crate::mutator_set::removal_record::RemovalRecordView;
use crate::swbf::bits::bits_digest;
use crate::swbf::bits::copy_bits;
use crate::swbf::bits::digest_of_bits;
use crate::swbf::bits::leaving_chunk;
use crate::swbf::bits::mark;
use crate::swbf::bits::marked;

verus! {

/// One change of the set.
#[derive(Debug)]
pub enum Operation {
    /// A commitment is added.
    Addition(Digest),
    /// The bits of a removal record are set.
    Removal(RemovalRecord),
}

/// What a change of the set is, as mathematics.
pub enum OperationView {
    Addition(Digest),
    Removal(RemovalRecordView),
}

impl View for Operation {
    type V = OperationView;

    open spec fn view(&self) -> OperationView {
        match self {
            Operation::Addition(commitment) => OperationView::Addition(*commitment),
            Operation::Removal(record) => OperationView::Removal(record@),
        }
    }
}

/// The changes of a list, each as mathematics.
pub open spec fn operation_views(log: Seq<Operation>) -> Seq<OperationView> {
    Seq::new(log.len(), |k: int| log[k]@)
}

/// The chunk proofs `entries`, each with its path extended for the chunk
/// with `digest` that comes to the chunks with peaks `slots`.
pub open spec fn extended_entries(
    entries: Seq<ChunkProofView>,
    slots: Seq<Option<Digest>>,
    digest: Digest,
) -> Seq<ChunkProofView> {
    Seq::new(
        entries.len(),
        |j: int|
            ChunkProofView {
                chunk_index: entries[j].chunk_index,
                chunk: entries[j].chunk,
                path: extended(slots, Some(digest), entries[j].path),
            },
    )
}

/// The chunk proofs `entries` with their paths rerouted round the chunks of
/// `by`, in which the bits at `indices` are set one chunk after the other.
pub open spec fn rerouted_along(
    entries: Seq<ChunkProofView>,
    by: Seq<ChunkProofView>,
    chunk_size: u32,
    indices: Seq<u128>,
) -> Seq<ChunkProofView>
    decreases by.len(),
{
    if by.len() == 0 {
        entries
    } else {
        let first = by[0];
        let digest = marked_digest(first, chunk_size, indices);
        rerouted_along(
            rerouted_entries(entries, first, digest),
            rerouted_entries(by.drop_first(), first, digest),
            chunk_size,
            indices,
        )
    }
}

/// The chunk proofs `entries` with the bits at `indices` set in their chunks.
pub open spec fn marked_entries(entries: Seq<ChunkProofView>, chunk_size: u32, indices: Seq<u128>)
    -> Seq<ChunkProofView> {
    Seq::new(
        entries.len(),
        |j: int|
            ChunkProofView {
                chunk_index: entries[j].chunk_index,
                chunk: marked(entries[j].chunk, entries[j].base(chunk_size), indices),
                path: entries[j].path,
            },
    )
}

impl AccumulatorView {
    /// Whether one of `indices` lies in the chunk that leaves the window at
    /// the next slide.
    pub open spec fn in_leaving_chunk(self, indices: Seq<u128>) -> bool {
        exists|i: int|
            0 <= i < indices.len() && self.window_start() <= (#[trigger] indices[i])
                < self.window_start() + self.params.chunk_size
    }

    /// The membership proof `proof` as it is after `commitment` has been
    /// added to this set. The path of the commitment is extended. Where the
    /// window slides, the paths of the chunks are extended too, and the chunk
    /// that leaves the window comes to the proof if a bit of the item lies in
    /// it.
    pub open spec fn proof_after_addition(self, proof: MembershipProofView, commitment: Digest)
        -> MembershipProofView {
        let size = self.params.chunk_size as int;
        let chunk = self.window.take(size);
        let digest = bits_digest(chunk);
        let indices = indices_from_seed(self.params, proof.index_set_seed, proof.aocl_leaf_index);
        let carried = extended_entries(proof.chunk_proofs, self.chunks.slots, digest);
        let fresh = ChunkProofView {
            chunk_index: self.chunks.count as u64,
            chunk,
            path: merging_peaks(self.chunks.slots),
        };
        MembershipProofView {
            sender_randomness: proof.sender_randomness,
            receiver_preimage: proof.receiver_preimage,
            aocl_leaf_index: proof.aocl_leaf_index,
            aocl_auth_path: extended(self.aocl.slots, Some(commitment), proof.aocl_auth_path),
            index_set_seed: proof.index_set_seed,
            chunk_proofs: if !self.params.slides(self.aocl.count) {
                proof.chunk_proofs
            } else if self.in_leaving_chunk(indices) && !has_chunk(
                proof.chunk_proofs,
                self.chunks.count as u64,
            ) {
                carried.push(fresh)
            } else {
                carried
            },
        }
    }

    /// The membership proof `proof` as it is after the bits of `record` have
    /// been set in this set: the same bits are set in the chunks of the
    /// proof, and the paths of its chunks are rerouted round the chunks that
    /// the record changes.
    pub open spec fn proof_after_removal(self, proof: MembershipProofView, record: RemovalRecordView)
        -> MembershipProofView {
        MembershipProofView {
            sender_randomness: proof.sender_randomness,
            receiver_preimage: proof.receiver_preimage,
            aocl_leaf_index: proof.aocl_leaf_index,
            aocl_auth_path: proof.aocl_auth_path,
            index_set_seed: proof.index_set_seed,
            chunk_proofs: marked_entries(
                rerouted_along(
                    proof.chunk_proofs,
                    record.chunk_proofs,
                    self.params.chunk_size,
                    record.index_set,
                ),
                self.params.chunk_size,
                record.index_set,
            ),
        }
    }

    /// The set after `operation`. A removal that is turned down changes
    /// nothing.
    pub open spec fn applied(self, operation: OperationView) -> AccumulatorView {
        match operation {
            OperationView::Addition(commitment) => self.added(commitment),
            OperationView::Removal(record) => if self.rejection(record) is None {
                self.removed(record)
            } else {
                self
            },
        }
    }

    /// The set after all of `log`, one operation after the other.
    pub open spec fn run(self, log: Seq<OperationView>) -> AccumulatorView
        decreases log.len(),
    {
        if log.len() == 0 {
            self
        } else {
            self.applied(log[0]).run(log.drop_first())
        }
    }

    /// What becomes of the set when all of `log` is applied as one: the set
    /// after the last operation, or the reason for which the first operation
    /// that fails does so. An addition fails where the number of commitments
    /// would leave 64 bits; a removal fails where it is turned down, and also
    /// where it finds one of its bits set.
    pub open spec fn block_outcome(self, log: Seq<OperationView>) -> Result<
        AccumulatorView,
        MutatorSetError,
    >
        decreases log.len(),
    {
        if log.len() == 0 {
            Ok(self)
        } else {
            match log[0] {
                OperationView::Addition(commitment) => if self.aocl.count < u64::MAX {
                    self.added(commitment).block_outcome(log.drop_first())
                } else {
                    Err(MutatorSetError::IndexOutOfRange)
                },
                OperationView::Removal(record) => match self.rejection(record) {
                    Some(error) => Err(error),
                    None => if self.already_set(record) {
                        Err(MutatorSetError::AlreadySpent)
                    } else {
                        self.removed(record).block_outcome(log.drop_first())
                    },
                },
            }
        }
    }

    /// Whether `operation` can be replayed on this set: a removal must not be
    /// turned down, and an addition must leave the number of commitments
    /// within 64 bits.
    pub open spec fn replayable(self, operation: OperationView) -> bool {
        match operation {
            OperationView::Addition(_) => self.aocl.count < u64::MAX,
            OperationView::Removal(record) => self.rejection(record) is None,
        }
    }

    /// The membership proof `proof` as it is after `operation`.
    pub open spec fn proof_after(self, proof: MembershipProofView, operation: OperationView)
        -> MembershipProofView {
        match operation {
            OperationView::Addition(commitment) => self.proof_after_addition(proof, commitment),
            OperationView::Removal(record) => self.proof_after_removal(proof, record),
        }
    }

    /// The membership proof `proof`, which fits this set, as it is after all
    /// of `log`; nothing where an operation of the log cannot be replayed.
    pub open spec fn proof_after_log(self, proof: MembershipProofView, log: Seq<OperationView>)
        -> Option<MembershipProofView>
        decreases log.len(),
    {
        if log.len() == 0 {
            Some(proof)
        } else if !self.replayable(log[0]) {
            None
        } else {
            self.applied(log[0]).proof_after_log(
                self.proof_after(proof, log[0]),
                log.drop_first(),
            )
        }
    }
}

impl MutatorSetAccumulator {
    /// The membership proof `proof` as it is after `commitment` has been
    /// added to this set. To be called before the commitment is added.
    pub fn update_from_addition(&self, proof: &MembershipProof, commitment: &Digest) -> (res:
        MembershipProof)
        requires
            self.wf(),
        ensures
            res@ == self@.proof_after_addition(proof@, *commitment),
    {
        let aocl_auth_path = self.aocl().extend_path(commitment, &proof.aocl_auth_path);
        let params = self.params();
        let chunk_proofs = if !params.window_slides(self.aocl().num_leafs()) {
            copy_entries(&proof.chunk_proofs)
        } else {
            let size = params.chunk_size as usize;
            let window = self.window();
            let chunk = leaving_chunk(window, size);
            let digest = digest_of_bits(&chunk);
            let mut entries: Vec<ChunkProof> = Vec::new();
            let mut j: usize = 0;
            let ghost carried = extended_entries(proof@.chunk_proofs, self@.chunks.slots, digest);
            while j < proof.chunk_proofs.len()
                invariant
                    j <= proof.chunk_proofs.len(),
                    entries@.len() == j,
                    carried == extended_entries(proof@.chunk_proofs, self@.chunks.slots, digest),
                    views(entries@) == carried.take(j as int),
                decreases proof.chunk_proofs.len() - j,
            {
                let entry = &proof.chunk_proofs[j];
                let ghost before = entries@;
                entries.push(
                    ChunkProof {
                        chunk_index: entry.chunk_index,
                        chunk: copy_bits(&entry.chunk),
                        path: self.chunk_peaks().extend_path(&digest, &entry.path),
                    },
                );
                j = j + 1;
                proof {
                    assert(forall|k: int| 0 <= k < j - 1 ==> views(entries@)[k] == views(before)[k]);
                    assert(views(proof.chunk_proofs@)[j - 1] == proof.chunk_proofs@[j - 1]@);
                    assert(views(entries@) =~= carried.take(j as int));
                }
            }
            assert(carried.take(j as int) =~= carried);
            let indices = indices_of_seed(&params, &proof.index_set_seed, proof.aocl_leaf_index);
            let start = self.window_start();
            let mut leaving = false;
            let mut i: usize = 0;
            while i < indices.len()
                invariant
                    i <= indices.len(),
                    start == self@.window_start(),
                    start <= 0xffff_ffff_ffff_ffff * 0xffff_ffff,
                    params == self@.params,
                    leaving == self@.in_leaving_chunk(indices@.take(i as int)),
                decreases indices.len() - i,
            {
                let ghost seen = indices@.take(i as int);
                let ghost more = indices@.take(i as int + 1);
                let inside = start <= indices[i] && indices[i] < start + params.chunk_size as u128;
                proof {
                    if self@.in_leaving_chunk(seen) {
                        let t = choose|t: int|
                            0 <= t < seen.len() && self@.window_start() <= (#[trigger] seen[t])
                                < self@.window_start() + self@.params.chunk_size;
                        assert(more[t] == seen[t]);
                    }
                    if inside {
                        assert(more[i as int] == indices@[i as int]);
                    }
                    if self@.in_leaving_chunk(more) && !inside {
                        let t = choose|t: int|
                            0 <= t < more.len() && self@.window_start() <= (#[trigger] more[t])
                                < self@.window_start() + self@.params.chunk_size;
                        assert(seen[t] == more[t]);
                    }
                }
                if inside {
                    leaving = true;
                }
                i = i + 1;
            }
            assert(indices@.take(indices.len() as int) =~= indices@);
            let new_index = self.chunk_peaks().num_leafs();
            if leaving && !contains_chunk(&proof.chunk_proofs, new_index) {
                let ghost before = entries@;
                let fresh = ChunkProof {
                    chunk_index: new_index,
                    chunk,
                    path: self.chunk_peaks().next_path(),
                };
                entries.push(fresh);
                assert(views(entries@) =~= views(before).push(fresh@));
            }
            entries
        };
        MembershipProof {
            sender_randomness: proof.sender_randomness,
            receiver_preimage: proof.receiver_preimage,
            aocl_leaf_index: proof.aocl_leaf_index,
            aocl_auth_path,
            index_set_seed: proof.index_set_seed,
            chunk_proofs,
        }
    }

    /// The membership proof `proof` as it is after the bits of `record` have
    /// been set in this set. To be called before the record is applied. A
    /// record that this set turns down brings no proof up to date.
    pub fn update_from_removal(&self, proof: &MembershipProof, record: &RemovalRecord) -> (res:
        Result<MembershipProof, MutatorSetError>)
        requires
            self.wf(),
        ensures
            self@.rejection(record@) is Some ==> res is Err && res->Err_0
                == MutatorSetError::CannotUpdate,
            self@.rejection(record@) is None ==> res is Ok && res->Ok_0@
                == self@.proof_after_removal(proof@, record@),
    {
        if self.check_record(record).is_some() {
            return Err(MutatorSetError::CannotUpdate);
        }
        let size = self.params().chunk_size;
        let indices = &record.index_set;
        let ghost own = proof@.chunk_proofs;
        let ghost by = record@.chunk_proofs;
        let ghost goal = rerouted_along(own, by, size, indices@);
        let mut own_paths = copy_paths(&proof.chunk_proofs);
        let mut by_paths = copy_paths(&record.chunk_proofs);
        let mut t: usize = 0;
        proof {
            assert(with_paths(own, own_paths@) =~= own);
            assert(with_paths(by, by_paths@) =~= by);
            assert(by.skip(0) =~= by);
        }
        while t < record.chunk_proofs.len()
            invariant
                t <= record.chunk_proofs.len(),
                own == views(proof.chunk_proofs@),
                by == views(record.chunk_proofs@),
                own_paths@.len() == own.len(),
                by_paths@.len() == by.len(),
                goal == rerouted_along(own, by, size, indices@),
                goal == rerouted_along(
                    with_paths(own, own_paths@),
                    with_paths(by, by_paths@).skip(t as int),
                    size,
                    indices@,
                ),
            decreases record.chunk_proofs.len() - t,
        {
            let ghost own_now = with_paths(own, own_paths@);
            let ghost by_now = with_paths(by, by_paths@);
            let entry = &record.chunk_proofs[t];
            let mut chunk = copy_bits(&entry.chunk);
            let base = base_of_chunk(entry.chunk_index, size);
            mark(&mut chunk, base, indices);
            let digest = digest_of_bits(&chunk);
            proof {
                assert(by_now.skip(t as int)[0] == by_now[t as int]);
                assert(by[t as int] == record.chunk_proofs@[t as int]@);
                assert(digest == marked_digest(by_now[t as int], size, indices@));
            }
            let ghost old_own = own_paths@;
            let mut j: usize = 0;
            while j < proof.chunk_proofs.len()
                invariant
                    j <= proof.chunk_proofs.len(),
                    t < record.chunk_proofs.len(),
                    own == views(proof.chunk_proofs@),
                    own_paths@.len() == own.len(),
                    old_own.len() == own.len(),
                    by_paths@.len() == record.chunk_proofs@.len(),
                    forall|v: int| j <= v < own.len() ==> (#[trigger] own_paths@[v]) == old_own[v],
                    forall|v: int|
                        0 <= v < j ==> (#[trigger] own_paths@[v])@ == rerouted(
                            old_own[v]@,
                            own[v].chunk_index as int,
                            by_paths@[t as int]@,
                            record.chunk_proofs@[t as int].chunk_index as int,
                            digest,
                        ),
                decreases proof.chunk_proofs.len() - j,
            {
                assert(own[j as int] == proof.chunk_proofs@[j as int]@);
                let path = reroute_path(
                    &own_paths[j],
                    proof.chunk_proofs[j].chunk_index,
                    &by_paths[t],
                    record.chunk_proofs[t].chunk_index,
                    &digest,
                );
                own_paths[j] = path;
                j = j + 1;
            }
            let ghost old_by = by_paths@;
            let mut u: usize = t + 1;
            while u < record.chunk_proofs.len()
                invariant
                    t < u <= record.chunk_proofs.len(),
                    by == views(record.chunk_proofs@),
                    by_paths@.len() == by.len(),
                    old_by.len() == by.len(),
                    forall|v: int| 0 <= v <= t ==> (#[trigger] by_paths@[v]) == old_by[v],
                    forall|v: int| u <= v < by.len() ==> (#[trigger] by_paths@[v]) == old_by[v],
                    forall|v: int|
                        t < v < u ==> (#[trigger] by_paths@[v])@ == rerouted(
                            old_by[v]@,
                            by[v].chunk_index as int,
                            old_by[t as int]@,
                            by[t as int].chunk_index as int,
                            digest,
                        ),
                decreases record.chunk_proofs.len() - u,
            {
                assert(by[u as int] == record.chunk_proofs@[u as int]@);
                assert(by[t as int] == record.chunk_proofs@[t as int]@);
                let path = reroute_path(
                    &by_paths[u],
                    record.chunk_proofs[u].chunk_index,
                    &by_paths[t],
                    record.chunk_proofs[t].chunk_index,
                    &digest,
                );
                by_paths[u] = path;
                u = u + 1;
            }
            proof {
                assert(with_paths(own, own_paths@) =~= rerouted_entries(
                    own_now,
                    by_now[t as int],
                    digest,
                ));
                assert(with_paths(by, by_paths@).skip(t as int + 1) =~= rerouted_entries(
                    by_now.skip(t as int).drop_first(),
                    by_now[t as int],
                    digest,
                ));
            }
            t = t + 1;
        }
        let mut entries: Vec<ChunkProof> = Vec::new();
        let mut j: usize = 0;
        let ghost done = marked_entries(goal, size, indices@);
        while j < proof.chunk_proofs.len()
            invariant
                j <= proof.chunk_proofs.len(),
                entries@.len() == j,
                own == views(proof.chunk_proofs@),
                own_paths@.len() == own.len(),
                goal == with_paths(own, own_paths@),
                done == marked_entries(goal, size, indices@),
                views(entries@) == done.take(j as int),
            decreases proof.chunk_proofs.len() - j,
        {
            let entry = &proof.chunk_proofs[j];
            let mut chunk = copy_bits(&entry.chunk);
            let base = base_of_chunk(entry.chunk_index, size);
            mark(&mut chunk, base, indices);
            let ghost before = entries@;
            entries.push(
                ChunkProof {
                    chunk_index: entry.chunk_index,
                    chunk,
                    path: copy_digests(&own_paths[j]),
                },
            );
            j = j + 1;
            proof {
                assert(forall|k: int| 0 <= k < j - 1 ==> views(entries@)[k] == views(before)[k]);
                assert(own[j - 1] == proof.chunk_proofs@[j - 1]@);
                assert(views(entries@) =~= done.take(j as int));
            }
        }
        assert(done.take(j as int) =~= done);
        Ok(
            MembershipProof {
                sender_randomness: proof.sender_randomness,
                receiver_preimage: proof.receiver_preimage,
                aocl_leaf_index: proof.aocl_leaf_index,
                aocl_auth_path: copy_digests(&proof.aocl_auth_path),
                index_set_seed: proof.index_set_seed,
                chunk_proofs: entries,
            },
        )
    }

    /// Applies all of `log` as one: either every operation goes through, or
    /// the set stays as it was and the reason is given for which the first
    /// operation that failed did so.
    pub fn apply_block(&mut self, log: &Vec<Operation>) -> (res: Result<(), MutatorSetError>)
        requires
            old(self).wf(),
        ensures
            final(self).wf(),
            old(self)@.block_outcome(operation_views(log@)) matches Ok(after) ==> res is Ok
                && final(self)@ == after,
            old(self)@.block_outcome(operation_views(log@)) matches Err(error) ==> res == Err::<
                (),
                MutatorSetError,
            >(error) && final(self)@ == old(self)@,
    {
        let ghost ops = operation_views(log@);
        let mut set = self.clone();
        let mut k: usize = 0;
        assert(ops.skip(0) =~= ops);
        while k < log.len()
            invariant
                k <= log.len(),
                set.wf(),
                self.wf(),
                self@ == old(self)@,
                ops == operation_views(log@),
                old(self)@.block_outcome(ops) == set@.block_outcome(ops.skip(k as int)),
            decreases log.len() - k,
        {
            proof {
                assert(ops.skip(k as int).drop_first() =~= ops.skip(k as int + 1));
                assert(ops.skip(k as int)[0] == log@[k as int]@);
            }
            match &log[k] {
                Operation::Addition(commitment) => {
                    if set.aocl().num_leafs() == u64::MAX {
                        return Err(MutatorSetError::IndexOutOfRange);
                    }
                    set.add(*commitment);
                },
                Operation::Removal(record) => {
                    match set.remove(record) {
                        Err(error) => {
                            return Err(error);
                        },
                        Ok(()) => {},
                    }
                },
            }
            k = k + 1;
        }
        *self = set;
        Ok(())
    }

    /// Brings `proof`, which fits this set, up to date with all of `log`:
    /// the operations that the set has seen since. Each operation is
    /// replayed on a copy of this set. An operation that cannot be replayed
    /// ends the work.
    pub fn update_membership_proof(&self, proof: &MembershipProof, log: &Vec<Operation>) -> (res:
        Result<MembershipProof, MutatorSetError>)
        requires
            self.wf(),
        ensures
            self@.proof_after_log(proof@, operation_views(log@)) matches Some(updated) ==> res
                is Ok && res->Ok_0@ == updated,
            self@.proof_after_log(proof@, operation_views(log@)) is None ==> res is Err
                && res->Err_0 == MutatorSetError::CannotUpdate,
    {
        let ghost ops = operation_views(log@);
        let ghost goal = self@.proof_after_log(proof@, ops);
        let mut set = self.clone();
        let mut current = proof.clone();
        let mut k: usize = 0;
        assert(ops.skip(0) =~= ops);
        while k < log.len()
            invariant
                k <= log.len(),
                set.wf(),
                ops == operation_views(log@),
                goal == self@.proof_after_log(proof@, ops),
                goal == set@.proof_after_log(current@, ops.skip(k as int)),
            decreases log.len() - k,
        {
            proof {
                assert(ops.skip(k as int).drop_first() =~= ops.skip(k as int + 1));
                assert(ops.skip(k as int)[0] == log@[k as int]@);
            }
            match &log[k] {
                Operation::Addition(commitment) => {
                    if set.aocl().num_leafs() == u64::MAX {
                        return Err(MutatorSetError::CannotUpdate);
                    }
                    current = set.update_from_addition(&current, commitment);
                    set.add(*commitment);
                },
                Operation::Removal(record) => {
                    match set.update_from_removal(&current, record) {
                        Err(error) => {
                            return Err(error);
                        },
                        Ok(updated) => {
                            current = updated;
                        },
                    }
                    let applied = set.remove(record);
                },
            }
            k = k + 1;
        }
        Ok(current)
    }
}

/// The index in the filter of the first bit of the chunk with the given
/// index, for chunks of `chunk_size` bits.
pub fn base_of_chunk(chunk_index: u64, chunk_size: u32) -> (res: u128)
    ensures
        res == chunk_index * chunk_size,
{
    let index: u128 = chunk_index as u128;
    let size: u128 = chunk_size as u128;
    assert(index * size <= 0xffff_ffff_ffff_ffff * 0xffff_ffff) by (nonlinear_arith)
        requires
            0 <= index <= 0xffff_ffff_ffff_ffff,
            0 <= size <= 0xffff_ffff,
    ;
    index * size
}

/// Copies of the paths of `entries`.
pub fn copy_paths(entries: &Vec<ChunkProof>) -> (res: Vec<Vec<Digest>>)
    ensures
        res@.len() == entries@.len(),
        forall|j: int| 0 <= j < entries@.len() ==> (#[trigger] res@[j])@ == entries@[j].path@,
{
    let mut paths: Vec<Vec<Digest>> = Vec::new();
    let mut j: usize = 0;
    while j < entries.len()
        invariant
            j <= entries.len(),
            paths@.len() == j,
            forall|k: int| 0 <= k < j ==> (#[trigger] paths@[k])@ == entries@[k].path@,
        decreases entries.len() - j,
    {
        paths.push(copy_digests(&entries[j].path));
        j = j + 1;
    }
    paths
}

} // verus!
