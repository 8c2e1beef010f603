//! The full form of the mutator set: every commitment and every chunk.

use vstd::prelude::*;
use crate::digest::Digest;
use crate::error::MutatorSetError;
use crate::mmr::accumulator::MmrView;
use crate::mmr::archival::ArchivalMmr;
use crate::mmr::shape::path_of;
use crate::mmr::shape::peaks_of;
use crate::mutator_set::accumulator::AccumulatorView;
use crate::mutator_set::accumulator::MutatorSetAccumulator;
use crate::mutator_set::chunk_proof::ChunkProof;
use crate::mutator_set::chunk_proof::ChunkProofView;
use crate::mutator_set::chunk_proof::contains_chunk;
use crate::mutator_set::chunk_proof::has_chunk;
use crate::mutator_set::chunk_proof::views;
use crate::mutator_set::commitment::AdditionRecord;
use crate::mutator_set::commitment::commit;
use crate::mutator_set::commitment::commitment_spec;
use crate::mutator_set::commitment::index_seed;
use crate::mutator_set::commitment::index_seed_spec;
use crate::mutator_set::commitment::indices_from_seed;
use crate::mutator_set::commitment::indices_of_seed;
use crate::mutator_set::commitment::index_set_spec;
use crate::mutator_set::commitment::lemma_indices_in_batch_window;
use crate::mutator_set::commitment::receiver_digest;
use crate::mutator_set::commitment::receiver_digest_spec;
use crate::mutator_set::laws::law_restored_proof_verifies;
use crate::mutator_set::membership_proof::MembershipProof;
use crate::mutator_set::membership_proof::MembershipProofView;
use crate::mutator_set::removal_record::RemovalRecord;
use crate::swbf::bits::bits_digest;
use crate::swbf::bits::copy_bits;
use crate::swbf::bits::digest_of_bits;
use crate::swbf::bits::lemma_chunk_of;
use crate::swbf::bits::lemma_in_chunk;
use crate::swbf::bits::lemma_marked_twice;
use crate::swbf::bits::lemma_marked_untouched;
use crate::swbf::bits::mark;
use crate::swbf::bits::marked;
use crate::swbf::bits::slide_window;
use crate::swbf::bits::zeros;
use crate::swbf::params::Params;
use crate::swbf::params::lemma_batches_step;

verus! {

/// What a full mutator set is, as mathematics.
pub struct ArchiveView {
    pub params: Params,
    /// The commitments added so far, in the order in which they came.
    pub leaves: Seq<Digest>,
    /// The chunks that have left the window, the oldest first.
    pub chunks: Seq<Seq<bool>>,
    /// The bits of the active window.
    pub window: Seq<bool>,
}

impl ArchiveView {
    /// The set to which nothing has been added.
    pub open spec fn empty(params: Params) -> ArchiveView {
        ArchiveView {
            params,
            leaves: Seq::empty(),
            chunks: Seq::empty(),
            window: zeros(params.window_size as nat),
        }
    }

    /// Whether the parts fit each other: window and chunks have their
    /// lengths, and as many chunks have left the window as the number of
    /// commitments asks for.
    pub open spec fn wf(self) -> bool {
        &&& self.params.wf()
        &&& self.window.len() == self.params.window_size
        &&& self.chunks.len() == self.params.batches(self.leaves.len())
        &&& forall|j: int|
            0 <= j < self.chunks.len() ==> (#[trigger] self.chunks[j]).len()
                == self.params.chunk_size
    }

    /// The index in the filter of the first bit of the window.
    pub open spec fn window_start(self) -> int {
        self.chunks.len() * self.params.chunk_size
    }

    /// The digests of the chunks.
    pub open spec fn digests(self) -> Seq<Digest> {
        Seq::new(self.chunks.len(), |j: int| bits_digest(self.chunks[j]))
    }

    /// The light form of this set.
    pub open spec fn light(self) -> AccumulatorView {
        AccumulatorView {
            params: self.params,
            aocl: MmrView { slots: peaks_of(self.leaves), count: self.leaves.len() },
            chunks: MmrView { slots: peaks_of(self.digests()), count: self.chunks.len() },
            window: self.window,
            fresh_path: path_of(self.leaves, self.leaves.len() - 1),
        }
    }

    /// The set after `commitment` has been added.
    pub open spec fn added(self, commitment: Digest) -> ArchiveView {
        let size = self.params.chunk_size as int;
        if self.params.slides(self.leaves.len()) {
            ArchiveView {
                params: self.params,
                leaves: self.leaves.push(commitment),
                chunks: self.chunks.push(self.window.take(size)),
                window: self.window.skip(size) + zeros(size as nat),
            }
        } else {
            ArchiveView {
                params: self.params,
                leaves: self.leaves.push(commitment),
                chunks: self.chunks,
                window: self.window,
            }
        }
    }

    /// Whether the index lies before the end of the window.
    pub open spec fn holds(self, index: int) -> bool {
        0 <= index < self.window_start() + self.window.len()
    }

    /// The bit at `index` of the filter.
    pub open spec fn bit(self, index: int) -> bool {
        if index < self.window_start() {
            self.chunks[index / (self.params.chunk_size as int)][index % (
            self.params.chunk_size as int)]
        } else {
            self.window[index - self.window_start()]
        }
    }

    /// Whether every index lies before the end of the window.
    pub open spec fn in_range(self, indices: Seq<u128>) -> bool {
        forall|i: int| 0 <= i < indices.len() ==> self.holds(#[trigger] indices[i] as int)
    }

    /// Whether one of the bits at `indices` is set.
    pub open spec fn any_set(self, indices: Seq<u128>) -> bool {
        exists|i: int| 0 <= i < indices.len() && self.bit(#[trigger] indices[i] as int)
    }

    /// Whether all the bits at `indices` are set.
    pub open spec fn all_set(self, indices: Seq<u128>) -> bool {
        forall|i: int| 0 <= i < indices.len() ==> self.bit(#[trigger] indices[i] as int)
    }

    /// The set after the bits at `indices` have been set.
    pub open spec fn removed(self, indices: Seq<u128>) -> ArchiveView {
        ArchiveView {
            params: self.params,
            leaves: self.leaves,
            chunks: Seq::new(
                self.chunks.len(),
                |j: int| marked(self.chunks[j], j * self.params.chunk_size, indices),
            ),
            window: marked(self.window, self.window_start(), indices),
        }
    }

    /// The chunk with the given index, with the path that leads from its
    /// digest to a peak of the chunks.
    pub open spec fn entry(self, chunk_index: int) -> ChunkProofView {
        ChunkProofView {
            chunk_index: chunk_index as u64,
            chunk: self.chunks[chunk_index],
            path: path_of(self.digests(), chunk_index),
        }
    }

    /// The chunks in which those of `indices` lie that are before the window,
    /// each once, in the order in which the indices name them.
    pub open spec fn entries_for(self, indices: Seq<u128>) -> Seq<ChunkProofView>
        decreases indices.len(),
    {
        if indices.len() == 0 {
            Seq::empty()
        } else {
            let before = self.entries_for(indices.drop_last());
            let index = indices.last() as int;
            let chunk_index = index / (self.params.chunk_size as int);
            if index < self.window_start() && !has_chunk(before, chunk_index as u64) {
                before.push(self.entry(chunk_index))
            } else {
                before
            }
        }
    }

    /// The membership proof for the item with the given opening at
    /// `leaf_index`.
    pub open spec fn proof_for(
        self,
        item: Digest,
        sender_randomness: Digest,
        receiver_preimage: Digest,
        leaf_index: u64,
    ) -> MembershipProofView {
        let seed = index_seed_spec(item, sender_randomness, receiver_preimage, leaf_index);
        MembershipProofView {
            sender_randomness,
            receiver_preimage,
            aocl_leaf_index: leaf_index,
            aocl_auth_path: path_of(self.leaves, leaf_index as int),
            index_set_seed: seed,
            chunk_proofs: self.entries_for(indices_from_seed(self.params, seed, leaf_index)),
        }
    }

    /// Whether the commitment at `leaf_index` is the one to the item with the
    /// given opening.
    pub open spec fn retains(
        self,
        item: Digest,
        sender_randomness: Digest,
        receiver_preimage: Digest,
        leaf_index: u64,
    ) -> bool {
        &&& leaf_index < self.leaves.len()
        &&& self.leaves[leaf_index as int] == commitment_spec(
            item,
            sender_randomness,
            receiver_digest_spec(receiver_preimage),
        )
    }

    /// Whether `proof` for `item` can be mended, if it was made or mended when
    /// the set held `since_leaf_count` commitments: the commitment was in the
    /// set by then, and the set keeps it.
    pub open spec fn mendable(self, item: Digest, proof: MembershipProofView, since_leaf_count: u64)
        -> bool {
        &&& proof.aocl_leaf_index < since_leaf_count <= self.leaves.len()
        &&& self.retains(
            item,
            proof.sender_randomness,
            proof.receiver_preimage,
            proof.aocl_leaf_index,
        )
    }

    /// Whether `proof` shows that `item` is in the set: its path leads from
    /// the commitment to the item to a peak of the commitments, its seed is
    /// that of the item, and none of the bits of the item is set.
    pub open spec fn verifies(self, item: Digest, proof: MembershipProofView) -> bool {
        let commitment = commitment_spec(
            item,
            proof.sender_randomness,
            receiver_digest_spec(proof.receiver_preimage),
        );
        let indices = indices_from_seed(self.params, proof.index_set_seed, proof.aocl_leaf_index);
        &&& self.light().aocl.proves(
            proof.aocl_leaf_index as int,
            commitment,
            proof.aocl_auth_path,
        )
        &&& proof.index_set_seed == index_seed_spec(
            item,
            proof.sender_randomness,
            proof.receiver_preimage,
            proof.aocl_leaf_index,
        )
        &&& self.in_range(indices)
        &&& !self.any_set(indices)
    }
}

/// The views of the rows of bits of a list.
pub open spec fn rows(chunks: Seq<Vec<bool>>) -> Seq<Seq<bool>> {
    Seq::new(chunks.len(), |j: int| chunks[j]@)
}

/// The full form of the mutator set. It keeps every commitment and every
/// chunk, and so can make a membership proof for any item at any time.
#[derive(Debug)]
pub struct ArchivalMutatorSet {
    params: Params,
    aocl: ArchivalMmr,
    chunk_digests: ArchivalMmr,
    chunks: Vec<Vec<bool>>,
    window: Vec<bool>,
}

impl View for ArchivalMutatorSet {
    type V = ArchiveView;

    closed spec fn view(&self) -> ArchiveView {
        ArchiveView {
            params: self.params,
            leaves: self.aocl@,
            chunks: rows(self.chunks@),
            window: self.window@,
        }
    }
}

impl ArchivalMutatorSet {
    /// Whether the parts of the set fit each other, and the nodes that are
    /// kept above commitments and chunks are those that belong there.
    pub closed spec fn wf(&self) -> bool {
        &&& self@.wf()
        &&& self.aocl.wf()
        &&& self.chunk_digests.wf()
        &&& self.chunk_digests@ == self@.digests()
    }

    /// A set that is well-formed has a view that is well-formed.
    pub proof fn lemma_wf_view(&self)
        requires
            self.wf(),
        ensures
            self@.wf(),
    {
    }

    /// The set to which nothing has been added, if `params` can shape a set.
    pub fn new(params: Params) -> (res: Option<Self>)
        ensures
            params.wf() ==> res is Some && res->Some_0.wf() && res->Some_0@ == ArchiveView::empty(
                params,
            ),
            !params.wf() ==> res is None,
    {
        if !params.is_valid() {
            return None;
        }
        let res = ArchivalMutatorSet {
            params,
            aocl: ArchivalMmr::new(),
            chunk_digests: ArchivalMmr::new(),
            chunks: Vec::new(),
            window: crate::swbf::bits::zero_bits(params.window_size as usize),
        };
        assert(res@.chunks =~= Seq::<Seq<bool>>::empty());
        assert(res@.digests() =~= Seq::<Digest>::empty());
        Some(res)
    }

    /// The sizes that shape the set.
    pub fn params(&self) -> (res: Params)
        ensures
            res == self@.params,
    {
        self.params
    }

    /// The number of commitments added so far.
    pub fn num_leafs(&self) -> (res: usize)
        ensures
            res == self@.leaves.len(),
    {
        self.aocl.num_leafs()
    }

    /// The number of chunks that have left the window.
    pub fn num_chunks(&self) -> (res: usize)
        ensures
            res == self@.chunks.len(),
    {
        self.chunks.len()
    }

    /// The commitment at `leaf_index`.
    pub fn get_leaf(&self, leaf_index: u64) -> (res: Result<Digest, MutatorSetError>)
        ensures
            res == if leaf_index < self@.leaves.len() {
                Ok::<Digest, MutatorSetError>(self@.leaves[leaf_index as int])
            } else {
                Err(MutatorSetError::IndexOutOfRange)
            },
    {
        self.aocl.get_leaf(leaf_index)
    }

    /// The index in the filter of the first bit of the window.
    pub fn window_start(&self) -> (res: u128)
        ensures
            res == self@.window_start(),
            res <= 0xffff_ffff_ffff_ffff * 0xffff_ffff,
    {
        let count: u128 = self.chunks.len() as u128;
        let size: u128 = self.params.chunk_size as u128;
        assert(count * size <= 0xffff_ffff_ffff_ffff * 0xffff_ffff) by (nonlinear_arith)
            requires
                0 <= count <= 0xffff_ffff_ffff_ffff,
                0 <= size <= 0xffff_ffff,
        ;
        count * size
    }

    /// Adds `commitment` to the set.
    pub fn add(&mut self, commitment: Digest) -> (record: AdditionRecord)
        requires
            old(self).wf(),
        ensures
            final(self).wf(),
            final(self)@ == old(self)@.added(commitment),
            record.canonical_commitment == commitment,
    {
        let leaf_index = self.aocl.num_leafs();
        proof {
            lemma_batches_step(self.params, leaf_index as nat);
        }
        let ghost before = self@;
        self.aocl.append(commitment);
        if self.params.window_slides(leaf_index as u64) {
            let size = self.params.chunk_size as usize;
            let chunk = slide_window(&mut self.window, size);
            let digest = digest_of_bits(&chunk);
            self.chunk_digests.append(digest);
            self.chunks.push(chunk);
            proof {
                assert(self@.chunks =~= before.chunks.push(before.window.take(size as int)));
                assert(self@.digests() =~= before.digests().push(digest));
            }
        } else {
            assert(self@.chunks =~= before.chunks);
            assert(self@.digests() =~= before.digests());
        }
        AdditionRecord { canonical_commitment: commitment }
    }

    /// The light form of this set.
    pub fn accumulator(&self) -> (res: MutatorSetAccumulator)
        requires
            self.wf(),
        ensures
            res.wf(),
            res@ == self@.light(),
    {
        let count = self.aocl.num_leafs();
        let fresh_path = if count == 0 {
            Vec::new()
        } else {
            match self.aocl.authentication_path((count - 1) as u64) {
                Ok(path) => path,
                Err(_) => Vec::new(),
            }
        };
        proof {
            if count == 0 {
                assert(path_of(self@.leaves, -1) =~= Seq::<Digest>::empty());
            }
        }
        MutatorSetAccumulator::from_parts(
            self.params,
            self.aocl.accumulator(),
            self.chunk_digests.accumulator(),
            copy_bits(&self.window),
            fresh_path,
        )
    }

    /// The digest that stands for the whole set. It is the digest of the
    /// light form.
    pub fn accumulator_digest(&self) -> (res: Digest)
        requires
            self.wf(),
        ensures
            res == self@.light().digest(),
    {
        self.accumulator().accumulator_digest()
    }

    /// The bit at `index` of the filter.
    pub fn get_bit(&self, index: u128) -> (res: Result<bool, MutatorSetError>)
        requires
            self.wf(),
        ensures
            res == if self@.holds(index as int) {
                Ok::<bool, MutatorSetError>(self@.bit(index as int))
            } else {
                Err(MutatorSetError::IndexOutOfRange)
            },
    {
        let start = self.window_start();
        let size = self.params.chunk_size as u128;
        if index < start {
            let count = self.chunks.len();
            proof {
                lemma_chunk_of(index as int, size as int, count as int);
            }
            let chunk_index = (index / size) as usize;
            let at = (index % size) as usize;
            assert(self@.chunks[chunk_index as int] == self.chunks@[chunk_index as int]@);
            Ok(self.chunks[chunk_index][at])
        } else if index - start < self.window.len() as u128 {
            Ok(self.window[(index - start) as usize])
        } else {
            Err(MutatorSetError::IndexOutOfRange)
        }
    }

    /// Sets the bits of `record`. A record with an index beyond the window is
    /// turned down and changes nothing. A record that finds one of its bits
    /// set already is applied all the same, and reported as a second
    /// spending. The chunks that the record holds are not read: the set has
    /// its own.
    pub fn remove(&mut self, record: &RemovalRecord) -> (res: Result<(), MutatorSetError>)
        requires
            old(self).wf(),
        ensures
            final(self).wf(),
            !old(self)@.in_range(record@.index_set) ==> res == Err::<(), MutatorSetError>(
                MutatorSetError::IndexOutOfRange,
            ) && final(self)@ == old(self)@,
            old(self)@.in_range(record@.index_set) ==> final(self)@ == old(self)@.removed(
                record@.index_set,
            ) && res == (if old(self)@.any_set(record@.index_set) {
                Err::<(), MutatorSetError>(MutatorSetError::AlreadySpent)
            } else {
                Ok(())
            }),
    {
        let indices = &record.index_set;
        let ghost before = self@;
        let start = self.window_start();
        let size = self.params.chunk_size as u128;
        let mut already = false;
        let mut i: usize = 0;
        while i < indices.len()
            invariant
                i <= indices.len(),
                self@ == before,
                before == old(self)@,
                indices@ == record@.index_set,
                self.wf(),
                before.in_range(indices@.take(i as int)),
                already == before.any_set(indices@.take(i as int)),
            decreases indices.len() - i,
        {
            let ghost seen = indices@.take(i as int);
            let ghost more = indices@.take(i as int + 1);
            match self.get_bit(indices[i]) {
                Err(_) => {
                    assert(!before.holds(indices@[i as int] as int));
                    return Err(MutatorSetError::IndexOutOfRange);
                },
                Ok(bit) => {
                    proof {
                        assert forall|t: int| 0 <= t < more.len() implies before.holds(
                            #[trigger] more[t] as int,
                        ) by {
                            if t < i {
                                assert(seen[t] == more[t]);
                            }
                        }
                        if before.any_set(seen) {
                            let t = choose|t: int|
                                0 <= t < seen.len() && before.bit(#[trigger] seen[t] as int);
                            assert(more[t] == seen[t]);
                        }
                        if bit {
                            assert(before.bit(more[i as int] as int));
                        }
                        if before.any_set(more) && !bit {
                            let t = choose|t: int|
                                0 <= t < more.len() && before.bit(#[trigger] more[t] as int);
                            assert(seen[t] == more[t]);
                        }
                    }
                    if bit {
                        already = true;
                    }
                },
            }
            i = i + 1;
        }
        assert(indices@.take(indices.len() as int) =~= indices@);
        mark(&mut self.window, start, indices);
        let mut t: usize = 0;
        while t < indices.len()
            invariant
                t <= indices.len(),
                before.wf(),
                before.in_range(indices@),
                start == before.window_start(),
                size == before.params.chunk_size,
                self.params == before.params,
                self.aocl@ == before.leaves,
                self.aocl.wf(),
                self.window@ == marked(before.window, before.window_start(), indices@),
                self.chunks@.len() == before.chunks.len(),
                self.chunk_digests.wf(),
                self.chunk_digests@ == self@.digests(),
                forall|j: int|
                    0 <= j < before.chunks.len() ==> (#[trigger] self.chunks@[j])@ == marked(
                        before.chunks[j],
                        j * before.params.chunk_size,
                        indices@,
                    ) || (self.chunks@[j]@ == before.chunks[j] && forall|u: int|
                        0 <= u < t ==> !(j * before.params.chunk_size <= (#[trigger] indices@[u])
                            < j * before.params.chunk_size + before.params.chunk_size)),
            decreases indices.len() - t,
        {
            let index = indices[t];
            if index < start {
                let count = self.chunks.len();
                proof {
                    lemma_chunk_of(index as int, size as int, count as int);
                    assert((index as int / size as int) * size <= 0xffff_ffff_ffff_ffff * 0xffff_ffff)
                        by (nonlinear_arith)
                        requires
                            0 <= index as int / size as int <= 0xffff_ffff_ffff_ffff,
                            0 <= size <= 0xffff_ffff,
                    ;
                }
                let chunk_index = (index / size) as usize;
                let ghost prior = self.chunks@;
                let ghost prior_digests = self.chunk_digests@;
                let mut chunk = copy_bits(&self.chunks[chunk_index]);
                mark(&mut chunk, chunk_index as u128 * size, indices);
                let digest = digest_of_bits(&chunk);
                proof {
                    lemma_marked_twice(
                        before.chunks[chunk_index as int],
                        chunk_index * before.params.chunk_size,
                        indices@,
                    );
                    assert(before.chunks[chunk_index as int].len() == size);
                    if prior[chunk_index as int]@ == before.chunks[chunk_index as int] {
                    }
                }
                self.chunks[chunk_index] = chunk;
                let replaced = self.chunk_digests.replace_leaf(chunk_index as u64, digest);
                proof {
                    assert(self@.digests() =~= prior_digests.update(chunk_index as int, digest));
                }
            }
            proof {
                assert forall|j: int| 0 <= j < before.chunks.len() implies (
                #[trigger] self.chunks@[j])@ == marked(
                    before.chunks[j],
                    j * before.params.chunk_size,
                    indices@,
                ) || (self.chunks@[j]@ == before.chunks[j] && forall|u: int|
                    0 <= u < t + 1 ==> !(j * before.params.chunk_size <= (#[trigger] indices@[u])
                        < j * before.params.chunk_size + before.params.chunk_size)) by {
                    if index < start && j != (index / size) as int {
                        if j * before.params.chunk_size <= index < j * before.params.chunk_size
                            + before.params.chunk_size {
                            lemma_in_chunk(index as int, size as int, j);
                        }
                    }
                    if index >= start {
                        assert(j * before.params.chunk_size + before.params.chunk_size
                            <= before.chunks.len() * before.params.chunk_size)
                            by (nonlinear_arith)
                            requires
                                0 <= j < before.chunks.len(),
                                before.params.chunk_size > 0,
                        ;
                    }
                }
            }
            t = t + 1;
        }
        proof {
            let after = before.removed(indices@);
            assert forall|j: int| 0 <= j < before.chunks.len() implies self@.chunks[j]
                == after.chunks[j] by {
                assert(self@.chunks[j] == self.chunks@[j]@);
                if self.chunks@[j]@ == before.chunks[j] && self.chunks@[j]@ != marked(
                    before.chunks[j],
                    j * before.params.chunk_size,
                    indices@,
                ) {
                    lemma_marked_untouched(
                        before.chunks[j],
                        j * before.params.chunk_size,
                        indices@,
                    );
                }
            }
            assert(self@.chunks =~= after.chunks);
        }
        if already {
            Err(MutatorSetError::AlreadySpent)
        } else {
            Ok(())
        }
    }

    /// The chunks in which those of `indices` lie that are before the
    /// window, each once, with their paths.
    fn entries_for(&self, indices: &Vec<u128>) -> (res: Vec<ChunkProof>)
        requires
            self.wf(),
        ensures
            views(res@) == self@.entries_for(indices@),
    {
        let start = self.window_start();
        let size = self.params.chunk_size as u128;
        let mut res: Vec<ChunkProof> = Vec::new();
        let mut i: usize = 0;
        assert(views(res@) =~= self@.entries_for(indices@.take(0)));
        while i < indices.len()
            invariant
                i <= indices.len(),
                self.wf(),
                start == self@.window_start(),
                size == self@.params.chunk_size,
                views(res@) == self@.entries_for(indices@.take(i as int)),
            decreases indices.len() - i,
        {
            let index = indices[i];
            proof {
                assert(indices@.take(i as int + 1).drop_last() =~= indices@.take(i as int));
            }
            if index < start {
                let count = self.chunks.len();
                proof {
                    lemma_chunk_of(index as int, size as int, count as int);
                }
                let chunk_index = (index / size) as usize;
                if !contains_chunk(&res, chunk_index as u64) {
                    let path = match self.chunk_digests.authentication_path(chunk_index as u64) {
                        Ok(path) => path,
                        Err(_) => Vec::new(),
                    };
                    let entry = ChunkProof {
                        chunk_index: chunk_index as u64,
                        chunk: copy_bits(&self.chunks[chunk_index]),
                        path,
                    };
                    let ghost before = res@;
                    proof {
                        assert(self@.chunks[chunk_index as int] == self.chunks@[chunk_index as int]@);
                        assert(entry@ == self@.entry(chunk_index as int));
                    }
                    res.push(entry);
                    assert(views(res@) =~= views(before).push(self@.entry(chunk_index as int)));
                }
            }
            i = i + 1;
        }
        assert(indices@.take(indices.len() as int) =~= indices@);
        res
    }

    /// The membership proof for the item with the given opening at
    /// `aocl_leaf_index`, made from what the set keeps.
    pub fn prove_membership(
        &self,
        item: &Digest,
        sender_randomness: &Digest,
        receiver_preimage: &Digest,
        aocl_leaf_index: u64,
    ) -> (res: Result<MembershipProof, MutatorSetError>)
        requires
            self.wf(),
        ensures
            aocl_leaf_index < self@.leaves.len() ==> res is Ok && res->Ok_0@ == self@.proof_for(
                *item,
                *sender_randomness,
                *receiver_preimage,
                aocl_leaf_index,
            ),
            aocl_leaf_index >= self@.leaves.len() ==> res is Err && res->Err_0
                == MutatorSetError::IndexOutOfRange,
    {
        let aocl_auth_path = match self.aocl.authentication_path(aocl_leaf_index) {
            Ok(path) => path,
            Err(error) => {
                return Err(error);
            },
        };
        let seed = index_seed(item, sender_randomness, receiver_preimage, aocl_leaf_index);
        let indices = indices_of_seed(&self.params, &seed, aocl_leaf_index);
        Ok(
            MembershipProof {
                sender_randomness: *sender_randomness,
                receiver_preimage: *receiver_preimage,
                aocl_leaf_index,
                aocl_auth_path,
                index_set_seed: seed,
                chunk_proofs: self.entries_for(&indices),
            },
        )
    }

    /// Whether one of the bits of the item with the given opening, which
    /// stands at `leaf_index`, is set.
    pub fn any_bit_set(
        &self,
        item: &Digest,
        sender_randomness: &Digest,
        receiver_preimage: &Digest,
        leaf_index: u64,
    ) -> (res: bool)
        requires
            self.wf(),
            leaf_index < self@.leaves.len(),
        ensures
            res == self@.any_set(
                index_set_spec(
                    self@.params,
                    *item,
                    *sender_randomness,
                    *receiver_preimage,
                    leaf_index,
                ),
            ),
    {
        let seed = index_seed(item, sender_randomness, receiver_preimage, leaf_index);
        let indices = indices_of_seed(&self.params, &seed, leaf_index);
        proof {
            lemma_item_in_range(self@, seed, leaf_index);
        }
        let mut i: usize = 0;
        while i < indices.len()
            invariant
                i <= indices.len(),
                self.wf(),
                self@.in_range(indices@),
                indices@ == index_set_spec(
                    self@.params,
                    *item,
                    *sender_randomness,
                    *receiver_preimage,
                    leaf_index,
                ),
                forall|t: int| 0 <= t < i ==> !self@.bit(#[trigger] indices@[t] as int),
            decreases indices.len() - i,
        {
            assert(self@.holds(indices@[i as int] as int));
            match self.get_bit(indices[i]) {
                Ok(false) => {},
                _ => {
                    assert(self@.bit(indices@[i as int] as int));
                    return true;
                },
            }
            i = i + 1;
        }
        false
    }

    /// Whether all the bits at `indices` are set.
    fn all_bits_set(&self, indices: &Vec<u128>) -> (res: bool)
        requires
            self.wf(),
            self@.in_range(indices@),
        ensures
            res == self@.all_set(indices@),
    {
        let mut i: usize = 0;
        while i < indices.len()
            invariant
                i <= indices.len(),
                self.wf(),
                self@.in_range(indices@),
                forall|t: int| 0 <= t < i ==> self@.bit(#[trigger] indices@[t] as int),
            decreases indices.len() - i,
        {
            assert(self@.holds(indices@[i as int] as int));
            match self.get_bit(indices[i]) {
                Ok(true) => {},
                _ => {
                    return false;
                },
            }
            i = i + 1;
        }
        true
    }

    /// Makes anew the membership proof for the item with the given opening
    /// at `aocl_leaf_index`. Where the set does not keep the commitment to
    /// that item at that place, there is nothing to prove; where all the bits
    /// of the item are set, the item has been removed. A proof that is made
    /// is accepted by the set and by its light form, unless a bit of the item
    /// is set.
    pub fn restore_membership_proof(
        &self,
        item: &Digest,
        sender_randomness: &Digest,
        receiver_preimage: &Digest,
        aocl_leaf_index: u64,
    ) -> (res: Result<MembershipProof, MutatorSetError>)
        requires
            self.wf(),
        ensures
            !self@.retains(*item, *sender_randomness, *receiver_preimage, aocl_leaf_index)
                ==> res is Err && res->Err_0 == MutatorSetError::LeafPruned,
            self@.retains(*item, *sender_randomness, *receiver_preimage, aocl_leaf_index)
                && self@.all_set(
                index_set_spec(
                    self@.params,
                    *item,
                    *sender_randomness,
                    *receiver_preimage,
                    aocl_leaf_index,
                ),
            ) ==> res is Err && res->Err_0 == MutatorSetError::AlreadySpent,
            self@.retains(*item, *sender_randomness, *receiver_preimage, aocl_leaf_index)
                && !self@.all_set(
                index_set_spec(
                    self@.params,
                    *item,
                    *sender_randomness,
                    *receiver_preimage,
                    aocl_leaf_index,
                ),
            ) ==> res is Ok && res->Ok_0@ == self@.proof_for(
                *item,
                *sender_randomness,
                *receiver_preimage,
                aocl_leaf_index,
            ),
            res is Ok && !self@.any_set(
                index_set_spec(
                    self@.params,
                    *item,
                    *sender_randomness,
                    *receiver_preimage,
                    aocl_leaf_index,
                ),
            ) ==> self@.verifies(*item, res->Ok_0@) && self@.light().verifies(*item, res->Ok_0@),
    {
        let receiver = receiver_digest(receiver_preimage);
        let record = commit(item, sender_randomness, &receiver);
        match self.get_leaf(aocl_leaf_index) {
            Err(_) => {
                return Err(MutatorSetError::LeafPruned);
            },
            Ok(leaf) => {
                if leaf != record.canonical_commitment {
                    return Err(MutatorSetError::LeafPruned);
                }
            },
        }
        let seed = index_seed(item, sender_randomness, receiver_preimage, aocl_leaf_index);
        let indices = indices_of_seed(&self.params, &seed, aocl_leaf_index);
        let count = self.aocl.num_leafs();
        proof {
            self.lemma_wf_view();
            lemma_item_in_range(self@, seed, aocl_leaf_index);
            if !self@.any_set(indices@) {
                law_restored_proof_verifies(
                    self@,
                    *item,
                    *sender_randomness,
                    *receiver_preimage,
                    aocl_leaf_index,
                );
            }
        }
        if self.all_bits_set(&indices) {
            return Err(MutatorSetError::AlreadySpent);
        }
        self.prove_membership(item, sender_randomness, receiver_preimage, aocl_leaf_index)
    }

    /// Brings up to date a membership proof that was made or mended when the
    /// set held `since_leaf_count` commitments. The set keeps all that the
    /// proof needs, so the proof is made anew. There is nothing to mend
    /// where no such proof can have been made then, or the set does not keep
    /// the commitment to the item; and a proof for an item one of whose bits
    /// is set is not mended any more. A proof that has been mended is
    /// accepted by the set and by its light form.
    pub fn update_membership_proof(
        &self,
        item: &Digest,
        proof: &MembershipProof,
        since_leaf_count: u64,
    ) -> (res: Result<MembershipProof, MutatorSetError>)
        requires
            self.wf(),
        ensures
            !self@.mendable(*item, proof@, since_leaf_count) ==> res is Err && res->Err_0
                == MutatorSetError::CannotUpdate,
            self@.mendable(*item, proof@, since_leaf_count) && self@.any_set(
                index_set_spec(
                    self@.params,
                    *item,
                    proof.sender_randomness,
                    proof.receiver_preimage,
                    proof.aocl_leaf_index,
                ),
            ) ==> res is Err && res->Err_0 == MutatorSetError::AlreadySpent,
            self@.mendable(*item, proof@, since_leaf_count) && !self@.any_set(
                index_set_spec(
                    self@.params,
                    *item,
                    proof.sender_randomness,
                    proof.receiver_preimage,
                    proof.aocl_leaf_index,
                ),
            ) ==> res is Ok && res->Ok_0@ == self@.proof_for(
                *item,
                proof.sender_randomness,
                proof.receiver_preimage,
                proof.aocl_leaf_index,
            ) && self@.verifies(*item, res->Ok_0@) && self@.light().verifies(*item, res->Ok_0@),
    {
        if proof.aocl_leaf_index >= since_leaf_count || since_leaf_count
            > self.aocl.num_leafs() as u64 {
            return Err(MutatorSetError::CannotUpdate);
        }
        let receiver = receiver_digest(&proof.receiver_preimage);
        let record = commit(item, &proof.sender_randomness, &receiver);
        match self.get_leaf(proof.aocl_leaf_index) {
            Err(_) => {
                return Err(MutatorSetError::CannotUpdate);
            },
            Ok(leaf) => {
                if leaf != record.canonical_commitment {
                    return Err(MutatorSetError::CannotUpdate);
                }
            },
        }
        if self.any_bit_set(
            item,
            &proof.sender_randomness,
            &proof.receiver_preimage,
            proof.aocl_leaf_index,
        ) {
            return Err(MutatorSetError::AlreadySpent);
        }
        proof {
            self.lemma_wf_view();
            law_restored_proof_verifies(
                self@,
                *item,
                proof.sender_randomness,
                proof.receiver_preimage,
                proof.aocl_leaf_index,
            );
        }
        self.prove_membership(
            item,
            &proof.sender_randomness,
            &proof.receiver_preimage,
            proof.aocl_leaf_index,
        )
    }

    /// Whether `proof` shows that `item` is in the set. The bits are read
    /// from the chunks that the set keeps, not from those of the proof.
    pub fn verify(&self, item: &Digest, proof: &MembershipProof) -> (ok: bool)
        requires
            self.wf(),
        ensures
            ok == self@.verifies(*item, proof@),
    {
        let receiver = receiver_digest(&proof.receiver_preimage);
        let record = commit(item, &proof.sender_randomness, &receiver);
        let peaks = self.aocl.accumulator();
        if !peaks.verify(
            proof.aocl_leaf_index,
            &record.canonical_commitment,
            &proof.aocl_auth_path,
        ) {
            return false;
        }
        let seed = index_seed(
            item,
            &proof.sender_randomness,
            &proof.receiver_preimage,
            proof.aocl_leaf_index,
        );
        if seed != proof.index_set_seed {
            return false;
        }
        let indices = indices_of_seed(&self.params, &seed, proof.aocl_leaf_index);
        let mut i: usize = 0;
        while i < indices.len()
            invariant
                i <= indices.len(),
                self.wf(),
                indices@ == indices_from_seed(
                    self@.params,
                    proof.index_set_seed,
                    proof.aocl_leaf_index,
                ),
                forall|t: int|
                    0 <= t < i ==> self@.holds(#[trigger] indices@[t] as int) && !self@.bit(
                        indices@[t] as int,
                    ),
            decreases indices.len() - i,
        {
            match self.get_bit(indices[i]) {
                Ok(false) => {},
                _ => {
                    assert(!self@.holds(indices@[i as int] as int) || self@.bit(
                        indices@[i as int] as int,
                    ));
                    return false;
                },
            }
            i = i + 1;
        }
        true
    }
}

/// The bits of an item that has been added lie before the end of the window.
pub proof fn lemma_item_in_range(set: ArchiveView, seed: Digest, leaf_index: u64)
    requires
        set.wf(),
        leaf_index < set.leaves.len(),
    ensures
        set.in_range(indices_from_seed(set.params, seed, leaf_index)),
{
    let indices = indices_from_seed(set.params, seed, leaf_index);
    let batch = leaf_index as int / (set.params.batch_size as int);
    let size = set.params.chunk_size as int;
    let count = set.leaves.len() as int;
    assert(batch <= (count - 1) / (set.params.batch_size as int)) by {
        vstd::arithmetic::div_mod::lemma_div_is_ordered(
            leaf_index as int,
            count - 1,
            set.params.batch_size as int,
        );
    }
    assert(batch * size <= set.chunks.len() * size) by (nonlinear_arith)
        requires
            0 <= batch <= set.chunks.len(),
            size > 0,
    ;
    assert forall|i: int| 0 <= i < indices.len() implies set.holds(
        #[trigger] indices[i] as int,
    ) by {
        lemma_indices_in_batch_window(set.params, seed, leaf_index, i);
    }
}

} // verus!
