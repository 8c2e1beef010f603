//! Chunks that travel with a proof or a removal, each with the path that
//! shows it to be a chunk of the filter.

use vstd::prelude::*;
use crate::digest::Digest;
use crate::mmr::accumulator::copy_digests;
use crate::swbf::bits::copy_bits;

verus! {

/// A chunk of the filter with its place among the chunks and the path that
/// leads from its digest to a peak of the chunks.
#[derive(Debug)]
pub struct ChunkProof {
    pub chunk_index: u64,
    pub chunk: Vec<bool>,
    pub path: Vec<Digest>,
}

/// What a chunk proof is, as mathematics.
pub struct ChunkProofView {
    pub chunk_index: u64,
    pub chunk: Seq<bool>,
    pub path: Seq<Digest>,
}

impl View for ChunkProof {
    type V = ChunkProofView;

    open spec fn view(&self) -> ChunkProofView {
        ChunkProofView { chunk_index: self.chunk_index, chunk: self.chunk@, path: self.path@ }
    }
}

impl Clone for ChunkProof {
    fn clone(&self) -> (res: Self)
        ensures
            res@ == self@,
    {
        ChunkProof {
            chunk_index: self.chunk_index,
            chunk: copy_bits(&self.chunk),
            path: copy_digests(&self.path),
        }
    }
}

impl ChunkProofView {
    /// The index in the filter of the first bit of the chunk, for chunks of
    /// `chunk_size` bits.
    pub open spec fn base(self, chunk_size: u32) -> int {
        self.chunk_index * chunk_size
    }

    /// Whether the bit with the index `index` in the filter lies in the chunk.
    pub open spec fn covers(self, chunk_size: u32, index: int) -> bool {
        self.base(chunk_size) <= index < self.base(chunk_size) + chunk_size
    }
}

/// The chunk proofs of a list, each as mathematics.
pub open spec fn views(entries: Seq<ChunkProof>) -> Seq<ChunkProofView> {
    Seq::new(entries.len(), |j: int| entries[j]@)
}

/// Whether no two entries speak of the same chunk.
pub open spec fn distinct(entries: Seq<ChunkProofView>) -> bool {
    forall|j: int, k: int|
        0 <= j < entries.len() && 0 <= k < entries.len() && j != k ==> (
        #[trigger] entries[j]).chunk_index != (#[trigger] entries[k]).chunk_index
}

/// Whether one of the entries speaks of the chunk with the given index.
pub open spec fn has_chunk(entries: Seq<ChunkProofView>, chunk_index: u64) -> bool {
    exists|j: int| 0 <= j < entries.len() && (#[trigger] entries[j]).chunk_index == chunk_index
}

/// A copy of a list of chunk proofs.
pub fn copy_entries(entries: &Vec<ChunkProof>) -> (res: Vec<ChunkProof>)
    ensures
        views(res@) == views(entries@),
{
    let mut res: Vec<ChunkProof> = Vec::new();
    let mut j: usize = 0;
    while j < entries.len()
        invariant
            j <= entries.len(),
            res@.len() == j,
            views(res@) == views(entries@).take(j as int),
        decreases entries.len() - j,
    {
        let ghost before = res@;
        res.push(entries[j].clone());
        j = j + 1;
        assert(forall|k: int| 0 <= k < j - 1 ==> views(res@)[k] == views(before)[k]);
        assert(views(res@) =~= views(entries@).take(j as int));
    }
    assert(views(entries@).take(entries.len() as int) =~= views(entries@));
    res
}

/// Whether one of the entries speaks of the chunk with the given index.
pub fn contains_chunk(entries: &Vec<ChunkProof>, chunk_index: u64) -> (res: bool)
    ensures
        res == has_chunk(views(entries@), chunk_index),
{
    let mut j: usize = 0;
    while j < entries.len()
        invariant
            j <= entries.len(),
            forall|k: int| 0 <= k < j ==> (#[trigger] views(entries@)[k]).chunk_index != chunk_index,
        decreases entries.len() - j,
    {
        if entries[j].chunk_index == chunk_index {
            assert(views(entries@)[j as int].chunk_index == chunk_index);
            return true;
        }
        j = j + 1;
    }
    false
}

/// Whether no two entries speak of the same chunk.
pub fn all_distinct(entries: &Vec<ChunkProof>) -> (res: bool)
    ensures
        res == distinct(views(entries@)),
{
    let mut j: usize = 0;
    while j < entries.len()
        invariant
            j <= entries.len(),
            forall|a: int, b: int|
                0 <= a < j && 0 <= b < entries.len() && a != b ==> (#[trigger] views(
                    entries@,
                )[a]).chunk_index != (#[trigger] views(entries@)[b]).chunk_index,
        decreases entries.len() - j,
    {
        let mut k: usize = j + 1;
        while k < entries.len()
            invariant
                j < k <= entries.len(),
                forall|b: int|
                    j < b < k ==> views(entries@)[j as int].chunk_index != (#[trigger] views(
                        entries@,
                    )[b]).chunk_index,
            decreases entries.len() - k,
        {
            if entries[j].chunk_index == entries[k].chunk_index {
                assert(views(entries@)[j as int].chunk_index == views(
                    entries@,
                )[k as int].chunk_index);
                return false;
            }
            k = k + 1;
        }
        proof {
            assert forall|a: int, b: int|
                0 <= a < j + 1 && 0 <= b < entries.len() && a != b implies (#[trigger] views(
                entries@,
            )[a]).chunk_index != (#[trigger] views(entries@)[b]).chunk_index by {
                if a == j && b < j {
                    assert(views(entries@)[b].chunk_index != views(entries@)[a].chunk_index);
                }
            }
        }
        j = j + 1;
    }
    true
}

} // verus!
