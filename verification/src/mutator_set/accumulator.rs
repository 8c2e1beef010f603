//! The light form of the mutator set: the peaks of the commitments, the
//! peaks of the chunks, and the active window.

use vstd::prelude::*;
use crate::digest::Digest;
use crate::digest::hash_pair;
use crate::digest::hash_pair_spec;
use crate::error::MutatorSetError;
use crate::mmr::accumulator::MmrAccumulator;
use crate::mmr::accumulator::MmrView;
use crate::mmr::accumulator::copy_digests;
use crate::mmr::accumulator::reroute_path;
use crate::mmr::shape::merging_peaks;
use crate::mmr::shape::rerouted;
use crate::mutator_set::chunk_proof::ChunkProof;
use crate::mutator_set::chunk_proof::ChunkProofView;
use crate::mutator_set::chunk_proof::all_distinct;
use crate::mutator_set::chunk_proof::distinct;
use crate::mutator_set::chunk_proof::views;
use crate::mutator_set::commitment::AdditionRecord;
use crate::mutator_set::commitment::commit;
use crate::mutator_set::commitment::commitment_spec;
use crate::mutator_set::commitment::index_seed;
use crate::mutator_set::commitment::index_seed_spec;
use crate::mutator_set::commitment::indices_from_seed;
use crate::mutator_set::commitment::indices_of_seed;
use crate::mutator_set::commitment::receiver_digest;
use crate::mutator_set::commitment::receiver_digest_spec;
use crate::mutator_set::membership_proof::MembershipProof;
use crate::mutator_set::membership_proof::MembershipProofView;
use crate::mutator_set::removal_record::RemovalRecord;
use crate::mutator_set::removal_record::RemovalRecordView;
use crate::swbf::bits::any_marked;
use crate::swbf::bits::any_set;
use crate::swbf::bits::bits_digest;
use crate::swbf::bits::copy_bits;
use crate::swbf::bits::digest_of_bits;
use crate::swbf::bits::mark;
use crate::swbf::bits::marked;
use crate::swbf::bits::set_bits;
use crate::swbf::bits::slide_window;
use crate::swbf::bits::zeros;
use crate::swbf::params::Params;
use crate::swbf::params::lemma_batches_step;

verus! {

/// What a light mutator set is, as mathematics.
pub struct AccumulatorView {
    pub params: Params,
    /// The commitments added so far, as peaks.
    pub aocl: MmrView,
    /// The digests of the chunks that have left the window, as peaks.
    pub chunks: MmrView,
    /// The bits of the active window.
    pub window: Seq<bool>,
    /// The authentication path of the commitment added last.
    pub fresh_path: Seq<Digest>,
}

/// The chunk proofs `entries`, each with its path rerouted round the chunk
/// of `by`, whose digest has become `digest`.
pub open spec fn rerouted_entries(
    entries: Seq<ChunkProofView>,
    by: ChunkProofView,
    digest: Digest,
) -> Seq<ChunkProofView> {
    Seq::new(
        entries.len(),
        |j: int|
            ChunkProofView {
                chunk_index: entries[j].chunk_index,
                chunk: entries[j].chunk,
                path: rerouted(
                    entries[j].path,
                    entries[j].chunk_index as int,
                    by.path,
                    by.chunk_index as int,
                    digest,
                ),
            },
    )
}

/// The chunk proofs `entries` with `paths` in place of their paths.
pub open spec fn with_paths(entries: Seq<ChunkProofView>, paths: Seq<Vec<Digest>>) -> Seq<
    ChunkProofView,
> {
    Seq::new(
        entries.len(),
        |j: int|
            ChunkProofView {
                chunk_index: entries[j].chunk_index,
                chunk: entries[j].chunk,
                path: paths[j]@,
            },
    )
}

/// The digest of the chunk of `entry` once the bits at `indices` are set.
pub open spec fn marked_digest(entry: ChunkProofView, chunk_size: u32, indices: Seq<u128>)
    -> Digest {
    bits_digest(marked(entry.chunk, entry.base(chunk_size), indices))
}

/// The peaks of the chunks after the bits at `indices` have been set in the
/// chunks of `entries`, one chunk after the other. Each chunk that has been
/// dealt with reroutes the paths of those that follow.
pub open spec fn chunks_after(
    peaks: MmrView,
    entries: Seq<ChunkProofView>,
    chunk_size: u32,
    indices: Seq<u128>,
) -> MmrView
    decreases entries.len(),
{
    if entries.len() == 0 {
        peaks
    } else {
        let first = entries[0];
        let digest = marked_digest(first, chunk_size, indices);
        chunks_after(
            peaks.with_leaf(first.chunk_index as int, first.path, digest),
            rerouted_entries(entries.drop_first(), first, digest),
            chunk_size,
            indices,
        )
    }
}

impl AccumulatorView {
    /// The set to which nothing has been added.
    pub open spec fn empty(params: Params) -> AccumulatorView {
        AccumulatorView {
            params,
            aocl: MmrView::empty(),
            chunks: MmrView::empty(),
            window: zeros(params.window_size as nat),
            fresh_path: Seq::empty(),
        }
    }

    /// The index in the filter of the first bit of the window.
    pub open spec fn window_start(self) -> int {
        self.chunks.count * self.params.chunk_size
    }

    /// Whether the parts fit each other: the window has its length, and as
    /// many chunks have left it as the number of commitments asks for.
    pub open spec fn wf(self) -> bool {
        &&& self.params.wf()
        &&& self.aocl.wf()
        &&& self.chunks.wf()
        &&& self.window.len() == self.params.window_size
        &&& self.chunks.count == self.params.batches(self.aocl.count)
    }

    /// The set after `commitment` has been added. Where the new item begins
    /// a batch, the window slides: its first bits leave it as a chunk.
    pub open spec fn added(self, commitment: Digest) -> AccumulatorView {
        let size = self.params.chunk_size as int;
        if self.params.slides(self.aocl.count) {
            AccumulatorView {
                params: self.params,
                aocl: self.aocl.appended(commitment),
                chunks: self.chunks.appended(bits_digest(self.window.take(size))),
                window: self.window.skip(size) + zeros(size as nat),
                fresh_path: merging_peaks(self.aocl.slots),
            }
        } else {
            AccumulatorView {
                params: self.params,
                aocl: self.aocl.appended(commitment),
                chunks: self.chunks,
                window: self.window,
                fresh_path: merging_peaks(self.aocl.slots),
            }
        }
    }

    /// Whether `entry` holds a chunk of the filter: it has the length of a
    /// chunk, and its path leads from its digest to a peak of the chunks.
    pub open spec fn entry_ok(self, entry: ChunkProofView) -> bool {
        &&& entry.chunk.len() == self.params.chunk_size
        &&& self.chunks.proves(entry.chunk_index as int, bits_digest(entry.chunk), entry.path)
    }

    /// Whether `entry` shows that the bit at `index` is not set.
    pub open spec fn entry_shows_unset(self, entry: ChunkProofView, index: u128) -> bool {
        &&& entry.covers(self.params.chunk_size, index as int)
        &&& self.entry_ok(entry)
        &&& !entry.chunk[index - entry.base(self.params.chunk_size)]
    }

    /// Whether the bit at `index` is known not to be set: from the window,
    /// where the bit lies in it, else from one of `entries`.
    pub open spec fn bit_unset(self, entries: Seq<ChunkProofView>, index: u128) -> bool {
        if index >= self.window_start() {
            &&& index - self.window_start() < self.window.len()
            &&& !self.window[index - self.window_start()]
        } else {
            exists|j: int|
                0 <= j < entries.len() && self.entry_shows_unset(#[trigger] entries[j], index)
        }
    }

    /// Whether `proof` shows that `item` is in the set: its path leads from
    /// the commitment to the item to a peak of the commitments, its seed is
    /// that of the item, and none of the bits of the item is set.
    pub open spec fn verifies(self, item: Digest, proof: MembershipProofView) -> bool {
        let commitment = commitment_spec(
            item,
            proof.sender_randomness,
            receiver_digest_spec(proof.receiver_preimage),
        );
        let indices = indices_from_seed(self.params, proof.index_set_seed, proof.aocl_leaf_index);
        &&& self.aocl.proves(proof.aocl_leaf_index as int, commitment, proof.aocl_auth_path)
        &&& proof.index_set_seed == index_seed_spec(
            item,
            proof.sender_randomness,
            proof.receiver_preimage,
            proof.aocl_leaf_index,
        )
        &&& forall|i: int|
            0 <= i < indices.len() ==> self.bit_unset(proof.chunk_proofs, #[trigger] indices[i])
    }

    /// The proof for the item that was added last.
    pub open spec fn fresh_proof(
        self,
        item: Digest,
        sender_randomness: Digest,
        receiver_preimage: Digest,
        leaf_index: u64,
    ) -> MembershipProofView {
        MembershipProofView {
            sender_randomness,
            receiver_preimage,
            aocl_leaf_index: leaf_index,
            aocl_auth_path: self.fresh_path,
            index_set_seed: index_seed_spec(item, sender_randomness, receiver_preimage, leaf_index),
            chunk_proofs: Seq::empty(),
        }
    }

    /// Whether every index lies before the end of the window.
    pub open spec fn in_range(self, indices: Seq<u128>) -> bool {
        forall|i: int|
            0 <= i < indices.len() ==> (#[trigger] indices[i]) < self.window_start()
                + self.window.len()
    }

    /// Whether `entries` holds, for every index before the window, the chunk
    /// in which it lies.
    pub open spec fn covered(self, entries: Seq<ChunkProofView>, indices: Seq<u128>) -> bool {
        forall|i: int|
            0 <= i < indices.len() && (#[trigger] indices[i]) < self.window_start() ==> exists|
                j: int,
            |
                0 <= j < entries.len() && (#[trigger] entries[j]).covers(
                    self.params.chunk_size,
                    indices[i] as int,
                )
    }

    /// Whether every entry holds a chunk of the filter.
    pub open spec fn entries_ok(self, entries: Seq<ChunkProofView>) -> bool {
        forall|j: int| 0 <= j < entries.len() ==> self.entry_ok(#[trigger] entries[j])
    }

    /// Why `record` cannot be applied, if it cannot.
    pub open spec fn rejection(self, record: RemovalRecordView) -> Option<MutatorSetError> {
        if !self.in_range(record.index_set) {
            Some(MutatorSetError::IndexOutOfRange)
        } else if !(self.entries_ok(record.chunk_proofs) && distinct(record.chunk_proofs)
            && self.covered(record.chunk_proofs, record.index_set)) {
            Some(MutatorSetError::BadChunkProof)
        } else {
            None
        }
    }

    /// Whether one of the bits of `record` is set already, in the window or
    /// in a chunk that the record holds.
    pub open spec fn already_set(self, record: RemovalRecordView) -> bool {
        ||| any_set(self.window, self.window_start(), record.index_set)
        ||| exists|j: int|
            0 <= j < record.chunk_proofs.len() && any_set(
                (#[trigger] record.chunk_proofs[j]).chunk,
                record.chunk_proofs[j].base(self.params.chunk_size),
                record.index_set,
            )
    }

    /// The set after the bits of `record` have been set.
    pub open spec fn removed(self, record: RemovalRecordView) -> AccumulatorView {
        AccumulatorView {
            params: self.params,
            aocl: self.aocl,
            chunks: chunks_after(
                self.chunks,
                record.chunk_proofs,
                self.params.chunk_size,
                record.index_set,
            ),
            window: marked(self.window, self.window_start(), record.index_set),
            fresh_path: self.fresh_path,
        }
    }

    /// The digest that stands for the whole set.
    pub open spec fn digest(self) -> Digest {
        hash_pair_spec(
            hash_pair_spec(self.aocl.bagged(), self.chunks.bagged()),
            hash_pair_spec(bits_digest(self.window), Digest::zero()),
        )
    }
}

/// The light form of the mutator set. It can take additions and removals and
/// check proofs, and it keeps no item and no chunk.
#[derive(Debug)]
pub struct MutatorSetAccumulator {
    params: Params,
    aocl: MmrAccumulator,
    chunks: MmrAccumulator,
    window: Vec<bool>,
    fresh_path: Vec<Digest>,
}

impl View for MutatorSetAccumulator {
    type V = AccumulatorView;

    closed spec fn view(&self) -> AccumulatorView {
        AccumulatorView {
            params: self.params,
            aocl: self.aocl@,
            chunks: self.chunks@,
            window: self.window@,
            fresh_path: self.fresh_path@,
        }
    }
}

impl Clone for MutatorSetAccumulator {
    fn clone(&self) -> (res: Self)
        ensures
            res@ == self@,
    {
        MutatorSetAccumulator {
            params: self.params,
            aocl: self.aocl.clone(),
            chunks: self.chunks.clone(),
            window: copy_bits(&self.window),
            fresh_path: copy_digests(&self.fresh_path),
        }
    }
}

impl MutatorSetAccumulator {
    /// Whether the parts of the set fit each other.
    pub open spec fn wf(&self) -> bool {
        self@.wf()
    }

    /// The set to which nothing has been added, if `params` can shape a set.
    pub fn new(params: Params) -> (res: Option<Self>)
        ensures
            params.wf() ==> res is Some && res->Some_0.wf() && res->Some_0@
                == AccumulatorView::empty(params),
            !params.wf() ==> res is None,
    {
        if !params.is_valid() {
            return None;
        }
        Some(
            MutatorSetAccumulator {
                params,
                aocl: MmrAccumulator::new(),
                chunks: MmrAccumulator::new(),
                window: crate::swbf::bits::zero_bits(params.window_size as usize),
                fresh_path: Vec::new(),
            },
        )
    }

    /// The set with the given parts.
    pub(crate) fn from_parts(
        params: Params,
        aocl: MmrAccumulator,
        chunks: MmrAccumulator,
        window: Vec<bool>,
        fresh_path: Vec<Digest>,
    ) -> (res: Self)
        ensures
            res@ == (AccumulatorView {
                params,
                aocl: aocl@,
                chunks: chunks@,
                window: window@,
                fresh_path: fresh_path@,
            }),
    {
        MutatorSetAccumulator { params, aocl, chunks, window, fresh_path }
    }

    /// The sizes that shape the set.
    pub fn params(&self) -> (res: Params)
        ensures
            res == self@.params,
    {
        self.params
    }

    /// The commitments added so far, as peaks.
    pub fn aocl(&self) -> (res: &MmrAccumulator)
        ensures
            res@ == self@.aocl,
    {
        &self.aocl
    }

    /// The chunks that have left the window, as peaks.
    pub fn chunk_peaks(&self) -> (res: &MmrAccumulator)
        ensures
            res@ == self@.chunks,
    {
        &self.chunks
    }

    /// The bits of the active window.
    pub fn window(&self) -> (res: &Vec<bool>)
        ensures
            res@ == self@.window,
    {
        &self.window
    }

    /// The index in the filter of the first bit of the window.
    pub fn window_start(&self) -> (res: u128)
        ensures
            res == self@.window_start(),
            res <= 0xffff_ffff_ffff_ffff * 0xffff_ffff,
    {
        let count: u128 = self.chunks.num_leafs() as u128;
        let size: u128 = self.params.chunk_size as u128;
        assert(count * size <= 0xffff_ffff_ffff_ffff * 0xffff_ffff) by (nonlinear_arith)
            requires
                0 <= count <= 0xffff_ffff_ffff_ffff,
                0 <= size <= 0xffff_ffff,
        ;
        count * size
    }

    /// Adds `commitment` to the set.
    pub fn add(&mut self, commitment: Digest) -> (record: AdditionRecord)
        requires
            old(self).wf(),
            old(self)@.aocl.count < u64::MAX,
        ensures
            final(self).wf(),
            final(self)@ == old(self)@.added(commitment),
            record.canonical_commitment == commitment,
    {
        let leaf_index = self.aocl.num_leafs();
        proof {
            lemma_batches_step(self.params, leaf_index as nat);
        }
        self.fresh_path = self.aocl.next_path();
        self.aocl.append(commitment);
        if self.params.window_slides(leaf_index) {
            let size = self.params.chunk_size as usize;
            let chunk = slide_window(&mut self.window, size);
            let digest = digest_of_bits(&chunk);
            self.chunks.append(digest);
        }
        AdditionRecord { canonical_commitment: commitment }
    }

    /// The commitment at `leaf_index`. The light form keeps none: it can
    /// only say whether there is one.
    pub fn get_leaf(&self, leaf_index: u64) -> (res: Result<Digest, MutatorSetError>)
        ensures
            res == Err::<Digest, MutatorSetError>(
                if leaf_index < self@.aocl.count {
                    MutatorSetError::LeafNotRetained
                } else {
                    MutatorSetError::IndexOutOfRange
                },
            ),
    {
        self.aocl.get_leaf(leaf_index)
    }

    /// The bit at `index` of the filter. The light form knows the bits of
    /// the window only.
    pub fn get_bit(&self, index: u128) -> (res: Result<bool, MutatorSetError>)
        requires
            self.wf(),
        ensures
            res == if index < self@.window_start() {
                Err::<bool, MutatorSetError>(MutatorSetError::ChunkNotFound)
            } else if index - self@.window_start() < self@.window.len() {
                Ok(self@.window[index - self@.window_start()])
            } else {
                Err(MutatorSetError::IndexOutOfRange)
            },
    {
        let start = self.window_start();
        if index < start {
            Err(MutatorSetError::ChunkNotFound)
        } else if index - start < self.window.len() as u128 {
            Ok(self.window[(index - start) as usize])
        } else {
            Err(MutatorSetError::IndexOutOfRange)
        }
    }

    /// Whether `entry` holds a chunk of the filter.
    pub fn check_entry(&self, entry: &ChunkProof) -> (res: bool)
        ensures
            res == self@.entry_ok(entry@),
    {
        if entry.chunk.len() != self.params.chunk_size as usize {
            return false;
        }
        let digest = digest_of_bits(&entry.chunk);
        self.chunks.verify(entry.chunk_index, &digest, &entry.path)
    }

    /// For each of `entries`, whether it holds a chunk of the filter.
    pub fn check_entries(&self, entries: &Vec<ChunkProof>) -> (res: Vec<bool>)
        ensures
            res@.len() == entries@.len(),
            forall|j: int|
                0 <= j < entries@.len() ==> res@[j] == self@.entry_ok(
                    #[trigger] views(entries@)[j],
                ),
    {
        let mut res: Vec<bool> = Vec::new();
        let mut j: usize = 0;
        while j < entries.len()
            invariant
                j <= entries.len(),
                res@.len() == j,
                forall|k: int|
                    0 <= k < j ==> res@[k] == self@.entry_ok(#[trigger] views(entries@)[k]),
            decreases entries.len() - j,
        {
            let ok = self.check_entry(&entries[j]);
            res.push(ok);
            j = j + 1;
        }
        res
    }

    /// The index in the filter of the first bit of the chunk of `entry`.
    fn base_of(&self, entry: &ChunkProof) -> (res: u128)
        ensures
            res == entry@.base(self@.params.chunk_size),
            res + self@.params.chunk_size <= u128::MAX,
    {
        let index: u128 = entry.chunk_index as u128;
        let size: u128 = self.params.chunk_size as u128;
        assert(index * size <= 0xffff_ffff_ffff_ffff * 0xffff_ffff) by (nonlinear_arith)
            requires
                0 <= index <= 0xffff_ffff_ffff_ffff,
                0 <= size <= 0xffff_ffff,
        ;
        index * size
    }

    /// Whether the bit at `index` is known not to be set. `checked` says of
    /// each entry whether it holds a chunk of the filter.
    fn shows_unset(&self, entries: &Vec<ChunkProof>, checked: &Vec<bool>, index: u128) -> (res:
        bool)
        requires
            self.wf(),
            checked@.len() == entries@.len(),
            forall|j: int|
                0 <= j < entries@.len() ==> checked@[j] == self@.entry_ok(
                    #[trigger] views(entries@)[j],
                ),
        ensures
            res == self@.bit_unset(views(entries@), index),
    {
        let start = self.window_start();
        if index >= start {
            return index - start < self.window.len() as u128 && !self.window[(index
                - start) as usize];
        }
        let size = self.params.chunk_size as u128;
        let mut j: usize = 0;
        while j < entries.len()
            invariant
                j <= entries.len(),
                index < start,
                start == self@.window_start(),
                size == self@.params.chunk_size,
                checked@.len() == entries@.len(),
                forall|k: int|
                    0 <= k < entries@.len() ==> checked@[k] == self@.entry_ok(
                        #[trigger] views(entries@)[k],
                    ),
                forall|k: int|
                    0 <= k < j ==> !self@.entry_shows_unset(#[trigger] views(entries@)[k], index),
            decreases entries.len() - j,
        {
            let base = self.base_of(&entries[j]);
            assert(views(entries@)[j as int] == entries@[j as int]@);
            if checked[j] && base <= index && index - base < size {
                if !entries[j].chunk[(index - base) as usize] {
                    assert(self@.entry_shows_unset(views(entries@)[j as int], index));
                    return true;
                }
            }
            j = j + 1;
        }
        false
    }

    /// Whether `proof` shows that `item` is in the set.
    pub fn verify(&self, item: &Digest, proof: &MembershipProof) -> (ok: bool)
        requires
            self.wf(),
        ensures
            ok == self@.verifies(*item, proof@),
    {
        let receiver = receiver_digest(&proof.receiver_preimage);
        let record = commit(item, &proof.sender_randomness, &receiver);
        if !self.aocl.verify(
            proof.aocl_leaf_index,
            &record.canonical_commitment,
            &proof.aocl_auth_path,
        ) {
            return false;
        }
        let seed = index_seed(
            item,
            &proof.sender_randomness,
            &proof.receiver_preimage,
            proof.aocl_leaf_index,
        );
        if seed != proof.index_set_seed {
            return false;
        }
        let indices = indices_of_seed(&self.params, &seed, proof.aocl_leaf_index);
        let checked = self.check_entries(&proof.chunk_proofs);
        let mut i: usize = 0;
        while i < indices.len()
            invariant
                i <= indices.len(),
                self.wf(),
                indices@ == indices_from_seed(
                    self@.params,
                    proof.index_set_seed,
                    proof.aocl_leaf_index,
                ),
                checked@.len() == proof.chunk_proofs@.len(),
                forall|j: int|
                    0 <= j < proof.chunk_proofs@.len() ==> checked@[j] == self@.entry_ok(
                        #[trigger] views(proof.chunk_proofs@)[j],
                    ),
                forall|t: int|
                    0 <= t < i ==> self@.bit_unset(
                        views(proof.chunk_proofs@),
                        #[trigger] indices@[t],
                    ),
            decreases indices.len() - i,
        {
            if !self.shows_unset(&proof.chunk_proofs, &checked, indices[i]) {
                return false;
            }
            i = i + 1;
        }
        true
    }

    /// The proof for the item that was added last. The light form keeps the
    /// path of no other commitment.
    pub fn prove_membership(
        &self,
        item: &Digest,
        sender_randomness: &Digest,
        receiver_preimage: &Digest,
        aocl_leaf_index: u64,
    ) -> (res: Result<MembershipProof, MutatorSetError>)
        ensures
            aocl_leaf_index >= self@.aocl.count ==> res is Err && res->Err_0
                == MutatorSetError::IndexOutOfRange,
            aocl_leaf_index + 1 < self@.aocl.count ==> res is Err && res->Err_0
                == MutatorSetError::LeafNotRetained,
            aocl_leaf_index + 1 == self@.aocl.count ==> res is Ok && res->Ok_0@
                == self@.fresh_proof(
                *item,
                *sender_randomness,
                *receiver_preimage,
                aocl_leaf_index,
            ),
    {
        let count = self.aocl.num_leafs();
        if aocl_leaf_index >= count {
            return Err(MutatorSetError::IndexOutOfRange);
        }
        if aocl_leaf_index + 1 < count {
            return Err(MutatorSetError::LeafNotRetained);
        }
        let proof = MembershipProof {
            sender_randomness: *sender_randomness,
            receiver_preimage: *receiver_preimage,
            aocl_leaf_index,
            aocl_auth_path: copy_digests(&self.fresh_path),
            index_set_seed: index_seed(item, sender_randomness, receiver_preimage, aocl_leaf_index),
            chunk_proofs: Vec::new(),
        };
        assert(proof@.chunk_proofs =~= Seq::<ChunkProofView>::empty());
        Ok(proof)
    }

    /// Whether `entries` holds, for every index before the window, the chunk
    /// in which it lies.
    fn covers_all(&self, entries: &Vec<ChunkProof>, indices: &Vec<u128>) -> (res: bool)
        ensures
            res == self@.covered(views(entries@), indices@),
    {
        let start = self.window_start();
        let size = self.params.chunk_size as u128;
        let mut i: usize = 0;
        while i < indices.len()
            invariant
                i <= indices.len(),
                start == self@.window_start(),
                size == self@.params.chunk_size,
                self@.covered(views(entries@), indices@.take(i as int)),
            decreases indices.len() - i,
        {
            let index = indices[i];
            let mut found = index >= start;
            let mut j: usize = 0;
            while j < entries.len() && !found
                invariant
                    j <= entries.len(),
                    size == self@.params.chunk_size,
                    index >= start ==> found,
                    index < start ==> (found <==> exists|k: int|
                        0 <= k < j && (#[trigger] views(entries@)[k]).covers(
                            self@.params.chunk_size,
                            index as int,
                        )),
                decreases entries.len() - j,
            {
                let base = self.base_of(&entries[j]);
                assert(views(entries@)[j as int] == entries@[j as int]@);
                if base <= index && index - base < size {
                    found = true;
                }
                j = j + 1;
            }
            if !found {
                proof {
                    assert(indices@[i as int] == index);
                    if self@.covered(views(entries@), indices@) {
                        let k = choose|k: int|
                            0 <= k < views(entries@).len() && (#[trigger] views(
                                entries@,
                            )[k]).covers(self@.params.chunk_size, indices@[i as int] as int);
                        assert(false);
                    }
                }
                return false;
            }
            proof {
                let seen = indices@.take(i as int);
                let more = indices@.take(i as int + 1);
                assert forall|t: int|
                    0 <= t < more.len() && (#[trigger] more[t])
                        < self@.window_start() implies exists|k: int|
                    0 <= k < views(entries@).len() && (#[trigger] views(entries@)[k]).covers(
                        self@.params.chunk_size,
                        more[t] as int,
                    ) by {
                    if t < i {
                        assert(seen[t] == more[t]);
                    }
                }
            }
            i = i + 1;
        }
        assert(indices@.take(indices.len() as int) =~= indices@);
        true
    }

    /// Sets the bits at `indices` in the chunks of `entries`, one chunk after
    /// the other, and computes the peaks of the chunks anew.
    fn apply_to_chunks(&mut self, entries: &Vec<ChunkProof>, indices: &Vec<u128>)
        requires
            old(self).wf(),
        ensures
            final(self).wf(),
            final(self)@ == (AccumulatorView {
                chunks: chunks_after(
                    old(self)@.chunks,
                    views(entries@),
                    old(self)@.params.chunk_size,
                    indices@,
                ),
                ..old(self)@
            }),
    {
        let ghost before = self@;
        let ghost goal = chunks_after(
            before.chunks,
            views(entries@),
            before.params.chunk_size,
            indices@,
        );
        let mut paths: Vec<Vec<Digest>> = Vec::new();
        let mut j: usize = 0;
        while j < entries.len()
            invariant
                j <= entries.len(),
                paths@.len() == j,
                forall|k: int| 0 <= k < j ==> (#[trigger] paths@[k])@ == entries@[k].path@,
            decreases entries.len() - j,
        {
            paths.push(copy_digests(&entries[j].path));
            j = j + 1;
        }
        let mut t: usize = 0;
        proof {
            assert(with_paths(views(entries@), paths@) =~= views(entries@));
            assert(views(entries@).skip(0) =~= views(entries@));
        }
        while t < entries.len()
            invariant
                t <= entries.len(),
                paths@.len() == entries@.len(),
                self.wf(),
                self@ == (AccumulatorView { chunks: self@.chunks, ..before }),
                goal == chunks_after(
                    before.chunks,
                    views(entries@),
                    before.params.chunk_size,
                    indices@,
                ),
                goal == chunks_after(
                    self@.chunks,
                    with_paths(views(entries@), paths@).skip(t as int),
                    before.params.chunk_size,
                    indices@,
                ),
            decreases entries.len() - t,
        {
            let ghost current = with_paths(views(entries@), paths@);
            let mut chunk = copy_bits(&entries[t].chunk);
            let base = self.base_of(&entries[t]);
            mark(&mut chunk, base, indices);
            let digest = digest_of_bits(&chunk);
            proof {
                assert(current.skip(t as int)[0] == current[t as int]);
                assert(digest == marked_digest(
                    current[t as int],
                    before.params.chunk_size,
                    indices@,
                ));
            }
            self.chunks.replace_leaf(entries[t].chunk_index, &paths[t], &digest);
            let ghost old_paths = paths@;
            let mut u: usize = t + 1;
            while u < entries.len()
                invariant
                    t < u <= entries.len(),
                    paths@.len() == entries@.len(),
                    old_paths.len() == entries@.len(),
                    forall|v: int| 0 <= v <= t ==> (#[trigger] paths@[v]) == old_paths[v],
                    forall|v: int| u <= v < entries@.len() ==> (#[trigger] paths@[v]) == old_paths[v],
                    forall|v: int|
                        t < v < u ==> (#[trigger] paths@[v])@ == rerouted(
                            old_paths[v]@,
                            entries@[v].chunk_index as int,
                            old_paths[t as int]@,
                            entries@[t as int].chunk_index as int,
                            digest,
                        ),
                decreases entries.len() - u,
            {
                let path = reroute_path(
                    &paths[u],
                    entries[u].chunk_index,
                    &paths[t],
                    entries[t].chunk_index,
                    &digest,
                );
                paths[u] = path;
                u = u + 1;
            }
            proof {
                let next = with_paths(views(entries@), paths@);
                assert(next.skip(t as int + 1) =~= rerouted_entries(
                    current.skip(t as int).drop_first(),
                    current[t as int],
                    digest,
                ));
            }
            t = t + 1;
        }
    }

    /// Why `record` cannot be applied to this set, if it cannot: it has an
    /// index beyond the window, or chunks that do not fit the peaks of the
    /// chunks.
    pub fn check_record(&self, record: &RemovalRecord) -> (res: Option<MutatorSetError>)
        requires
            self.wf(),
        ensures
            res == self@.rejection(record@),
    {
        let start = self.window_start();
        let end = start + self.window.len() as u128;
        let mut i: usize = 0;
        while i < record.index_set.len()
            invariant
                i <= record.index_set.len(),
                self.wf(),
                end == self@.window_start() + self@.window.len(),
                self@.in_range(record.index_set@.take(i as int)),
            decreases record.index_set.len() - i,
        {
            if record.index_set[i] >= end {
                return Some(MutatorSetError::IndexOutOfRange);
            }
            proof {
                let seen = record.index_set@.take(i as int);
                let more = record.index_set@.take(i as int + 1);
                assert forall|t: int| 0 <= t < more.len() implies (#[trigger] more[t]) < end by {
                    if t < i {
                        assert(seen[t] == more[t]);
                    }
                }
            }
            i = i + 1;
        }
        assert(record.index_set@.take(record.index_set.len() as int) =~= record.index_set@);
        let checked = self.check_entries(&record.chunk_proofs);
        let mut j: usize = 0;
        while j < checked.len()
            invariant
                j <= checked.len(),
                self.wf(),
                self@.in_range(record.index_set@),
                checked@.len() == record.chunk_proofs@.len(),
                forall|k: int|
                    0 <= k < record.chunk_proofs@.len() ==> checked@[k] == self@.entry_ok(
                        #[trigger] views(record.chunk_proofs@)[k],
                    ),
                forall|k: int|
                    0 <= k < j ==> self@.entry_ok(#[trigger] views(record.chunk_proofs@)[k]),
            decreases checked.len() - j,
        {
            if !checked[j] {
                assert(!self@.entry_ok(views(record.chunk_proofs@)[j as int]));
                return Some(MutatorSetError::BadChunkProof);
            }
            j = j + 1;
        }
        if !all_distinct(&record.chunk_proofs) {
            return Some(MutatorSetError::BadChunkProof);
        }
        if !self.covers_all(&record.chunk_proofs, &record.index_set) {
            return Some(MutatorSetError::BadChunkProof);
        }
        None
    }

    /// Sets the bits of `record`. A record with an index beyond the window,
    /// or with chunks that do not fit the peaks of the chunks, is turned down
    /// and changes nothing. A record that finds one of its bits set already
    /// is applied all the same, and reported as a second spending.
    pub fn remove(&mut self, record: &RemovalRecord) -> (res: Result<(), MutatorSetError>)
        requires
            old(self).wf(),
        ensures
            final(self).wf(),
            old(self)@.rejection(record@) matches Some(error) ==> res == Err::<
                (),
                MutatorSetError,
            >(error) && final(self)@ == old(self)@,
            old(self)@.rejection(record@) is None ==> final(self)@ == old(self)@.removed(record@)
                && res == (if old(self)@.already_set(record@) {
                Err::<(), MutatorSetError>(MutatorSetError::AlreadySpent)
            } else {
                Ok(())
            }),
    {
        match self.check_record(record) {
            Some(error) => {
                return Err(error);
            },
            None => {},
        }
        let start = self.window_start();
        let mut in_chunks = false;
        let mut k: usize = 0;
        while k < record.chunk_proofs.len()
            invariant
                k <= record.chunk_proofs.len(),
                self@ == old(self)@,
                self.wf(),
                in_chunks <==> exists|j: int|
                    0 <= j < k && any_set(
                        (#[trigger] views(record.chunk_proofs@)[j]).chunk,
                        views(record.chunk_proofs@)[j].base(self@.params.chunk_size),
                        record.index_set@,
                    ),
            decreases record.chunk_proofs.len() - k,
        {
            let base = self.base_of(&record.chunk_proofs[k]);
            assert(views(record.chunk_proofs@)[k as int] == record.chunk_proofs@[k as int]@);
            if any_marked(&record.chunk_proofs[k].chunk, base, &record.index_set) {
                in_chunks = true;
            }
            k = k + 1;
        }
        let in_window = set_bits(&mut self.window, start, &record.index_set);
        self.apply_to_chunks(&record.chunk_proofs, &record.index_set);
        if in_window || in_chunks {
            Err(MutatorSetError::AlreadySpent)
        } else {
            Ok(())
        }
    }

    /// The digest that stands for the whole set.
    pub fn accumulator_digest(&self) -> (res: Digest)
        ensures
            res == self@.digest(),
    {
        let left = hash_pair(&self.aocl.bag_peaks(), &self.chunks.bag_peaks());
        let right = hash_pair(&digest_of_bits(&self.window), &Digest::all_zero());
        hash_pair(&left, &right)
    }
}

} // verus!
