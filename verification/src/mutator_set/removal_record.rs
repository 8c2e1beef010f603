//! What is made public when an item is removed.

use vstd::prelude::*;
use crate::digest::Digest;
use crate::digest::hash_varlen;
use crate::digest::hash_varlen_spec;
use crate::mutator_set::chunk_proof::ChunkProof;
use crate::mutator_set::chunk_proof::ChunkProofView;
use crate::mutator_set::chunk_proof::copy_entries;
use crate::mutator_set::chunk_proof::views;
use crate::mutator_set::membership_proof::MembershipProof;

verus! {

/// The bits to set for a removal, with the chunks in which those of them lie
/// that have left the window. It does not say which commitment is removed.
#[derive(Debug)]
pub struct RemovalRecord {
    pub index_set: Vec<u128>,
    pub chunk_proofs: Vec<ChunkProof>,
}

/// What a removal record is, as mathematics.
pub struct RemovalRecordView {
    pub index_set: Seq<u128>,
    pub chunk_proofs: Seq<ChunkProofView>,
}

impl View for RemovalRecord {
    type V = RemovalRecordView;

    open spec fn view(&self) -> RemovalRecordView {
        RemovalRecordView { index_set: self.index_set@, chunk_proofs: views(self.chunk_proofs@) }
    }
}

/// The four limbs of 32 bits of an index, the lowest first, each as the
/// number of a field element.
pub open spec fn index_limbs(index: u128) -> Seq<u64> {
    seq![
        (index % 0x1_0000_0000) as u64,
        (index / 0x1_0000_0000 % 0x1_0000_0000) as u64,
        (index / 0x1_0000_0000_0000_0000 % 0x1_0000_0000) as u64,
        (index / 0x1_0000_0000_0000_0000_0000_0000) as u64,
    ]
}

/// The field elements that stand for a list of indices: the limbs of each
/// index, in the order of the indices.
pub open spec fn index_set_elements(indices: Seq<u128>) -> Seq<u64>
    decreases indices.len(),
{
    if indices.len() == 0 {
        Seq::empty()
    } else {
        index_set_elements(indices.drop_last()) + index_limbs(indices.last())
    }
}

/// The digest under which a removal is known where its bits are not shown
/// one by one: the hash of the field elements that stand for its indices.
pub open spec fn index_set_digest_spec(indices: Seq<u128>) -> Digest {
    hash_varlen_spec(index_set_elements(indices))
}

/// Hashes the indices of a removal into one digest.
pub fn index_set_digest(indices: &Vec<u128>) -> (res: Digest)
    ensures
        res == index_set_digest_spec(indices@),
{
    let mut elements: Vec<u64> = Vec::new();
    let mut i: usize = 0;
    assert(indices@.take(0) =~= Seq::<u128>::empty());
    while i < indices.len()
        invariant
            i <= indices.len(),
            elements@ == index_set_elements(indices@.take(i as int)),
        decreases indices.len() - i,
    {
        proof {
            assert(indices@.take(i as int + 1).drop_last() =~= indices@.take(i as int));
        }
        let index = indices[i];
        let ghost before = elements@;
        elements.push((index % 0x1_0000_0000) as u64);
        elements.push((index / 0x1_0000_0000 % 0x1_0000_0000) as u64);
        elements.push((index / 0x1_0000_0000_0000_0000 % 0x1_0000_0000) as u64);
        elements.push((index / 0x1_0000_0000_0000_0000_0000_0000) as u64);
        assert(elements@ =~= before + index_limbs(index));
        i = i + 1;
    }
    assert(indices@.take(indices.len() as int) =~= indices@);
    hash_varlen(&elements)
}

/// A copy of a list of indices.
pub fn copy_indices(indices: &Vec<u128>) -> (res: Vec<u128>)
    ensures
        res@ == indices@,
{
    let mut res: Vec<u128> = Vec::new();
    let mut i: usize = 0;
    while i < indices.len()
        invariant
            i <= indices.len(),
            res@ == indices@.take(i as int),
        decreases indices.len() - i,
    {
        res.push(indices[i]);
        i = i + 1;
        assert(res@ =~= indices@.take(i as int));
    }
    assert(indices@.take(indices.len() as int) =~= indices@);
    res
}

impl Clone for RemovalRecord {
    fn clone(&self) -> (res: Self)
        ensures
            res@ == self@,
    {
        RemovalRecord {
            index_set: copy_indices(&self.index_set),
            chunk_proofs: copy_entries(&self.chunk_proofs),
        }
    }
}

impl RemovalRecord {
    /// The removal record for the item that `proof` is about, whose bits are
    /// `index_set`: the bits, and the chunks that the proof holds.
    pub fn from_proof(index_set: Vec<u128>, proof: &MembershipProof) -> (res: RemovalRecord)
        ensures
            res@ == (RemovalRecordView {
                index_set: index_set@,
                chunk_proofs: proof@.chunk_proofs,
            }),
    {
        RemovalRecord { index_set, chunk_proofs: copy_entries(&proof.chunk_proofs) }
    }
}

} // verus!
