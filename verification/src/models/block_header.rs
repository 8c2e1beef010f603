//! The header of a block and the names of its fields.

use vstd::prelude::*;
use crate::digest::Digest;
use crate::mutator_set::commitment::push_elements;

verus! {

/// The number of 32-bit limbs of a difficulty.
pub const TARGET_DIFFICULTY_U32_SIZE: usize = 5;

/// The number of 32-bit limbs of a count of proof of work.
pub const PROOF_OF_WORK_COUNT_U32_SIZE: usize = 5;

/// The time that should pass between two blocks, in milliseconds.
pub const TARGET_BLOCK_INTERVAL: u64 = 588000;

/// The least difficulty that a block can have.
pub const MINIMUM_DIFFICULTY: u32 = 2;

/// A type whose values are numbered, from zero on.
pub trait HasDiscriminant {
    /// The number of this value.
    fn discriminant(&self) -> usize;
}

/// The fields of a block header, in the order in which they are hashed.
#[derive(Debug, Clone, Copy, PartialEq, Eq, Structural)]
pub enum BlockHeaderField {
    Version,
    Height,
    PrevBlockDigest,
    Timestamp,
    Nonce,
    MaxBlockSize,
    ProofOfWorkLine,
    ProofOfWorkFamily,
    Difficulty,
}

impl BlockHeaderField {
    /// How many fields a block header has.
    pub const COUNT: usize = 9;

    /// The place of the field in the header.
    pub open spec fn index(&self) -> usize {
        match self {
            BlockHeaderField::Version => 0,
            BlockHeaderField::Height => 1,
            BlockHeaderField::PrevBlockDigest => 2,
            BlockHeaderField::Timestamp => 3,
            BlockHeaderField::Nonce => 4,
            BlockHeaderField::MaxBlockSize => 5,
            BlockHeaderField::ProofOfWorkLine => 6,
            BlockHeaderField::ProofOfWorkFamily => 7,
            BlockHeaderField::Difficulty => 8,
        }
    }
}

impl HasDiscriminant for BlockHeaderField {
    fn discriminant(&self) -> (res: usize)
        ensures
            res == self.index(),
            res < BlockHeaderField::COUNT,
    {
        match self {
            BlockHeaderField::Version => 0,
            BlockHeaderField::Height => 1,
            BlockHeaderField::PrevBlockDigest => 2,
            BlockHeaderField::Timestamp => 3,
            BlockHeaderField::Nonce => 4,
            BlockHeaderField::MaxBlockSize => 5,
            BlockHeaderField::ProofOfWorkLine => 6,
            BlockHeaderField::ProofOfWorkFamily => 7,
            BlockHeaderField::Difficulty => 8,
        }
    }
}

/// A type that is hashed field by field.
pub trait MastHash {
    /// The field elements of each field, as numbers, in the order of the
    /// fields.
    fn mast_sequences(&self) -> Vec<Vec<u64>>;
}

/// The header of a block.
#[derive(Clone, Copy, Debug, PartialEq, Eq)]
pub struct BlockHeader {
    pub version: u64,
    pub height: u64,
    pub prev_block_digest: Digest,
    /// The time of the block, in milliseconds since the beginning of 1970.
    pub timestamp: u64,
    pub nonce: [u64; 3],
    pub max_block_size: u32,
    /// Used to compare two forks of different height.
    pub proof_of_work_line: [u32; 5],
    /// Used to compare two forks of the same height.
    pub proof_of_work_family: [u32; 5],
    /// The difficulty for the next block.
    pub difficulty: [u32; 5],
}

/// The limbs of a number, each as a field element.
pub open spec fn limb_elements(limbs: Seq<u32>) -> Seq<u64> {
    Seq::new(limbs.len(), |i: int| limbs[i] as u64)
}

impl BlockHeader {
    /// The field elements of each field of the header, in the order of the
    /// fields.
    pub open spec fn sequences(&self) -> Seq<Seq<u64>> {
        seq![
            seq![self.version],
            seq![self.height],
            self.prev_block_digest@,
            seq![self.timestamp],
            self.nonce@,
            seq![self.max_block_size as u64],
            limb_elements(self.proof_of_work_line@),
            limb_elements(self.proof_of_work_family@),
            limb_elements(self.difficulty@),
        ]
    }
}

/// The limbs of a number, each as a field element.
pub fn encode_limbs(limbs: &[u32; 5]) -> (res: Vec<u64>)
    ensures
        res@ == limb_elements(limbs@),
{
    let mut res: Vec<u64> = Vec::new();
    let mut i: usize = 0;
    while i < 5
        invariant
            i <= 5,
            res@ == limb_elements(limbs@).take(i as int),
        decreases 5 - i,
    {
        res.push(limbs[i] as u64);
        i = i + 1;
        assert(res@ =~= limb_elements(limbs@).take(i as int));
    }
    assert(limb_elements(limbs@).take(5) =~= limb_elements(limbs@));
    res
}

/// The list that holds `element` and nothing else.
pub fn single(element: u64) -> (res: Vec<u64>)
    ensures
        res@ == seq![element],
{
    let mut res: Vec<u64> = Vec::new();
    res.push(element);
    assert(res@ =~= seq![element]);
    res
}

/// The sequences of a list, each as mathematics.
pub open spec fn sequence_views(sequences: Seq<Vec<u64>>) -> Seq<Seq<u64>> {
    Seq::new(sequences.len(), |i: int| sequences[i]@)
}

impl MastHash for BlockHeader {
    fn mast_sequences(&self) -> (res: Vec<Vec<u64>>)
        ensures
            sequence_views(res@) == self.sequences(),
    {
        let mut res: Vec<Vec<u64>> = Vec::new();
        res.push(single(self.version));
        res.push(single(self.height));
        let mut digest: Vec<u64> = Vec::new();
        push_elements(&mut digest, &self.prev_block_digest);
        assert(digest@ =~= self.prev_block_digest@);
        res.push(digest);
        res.push(single(self.timestamp));
        let mut nonce: Vec<u64> = Vec::new();
        nonce.push(self.nonce[0]);
        nonce.push(self.nonce[1]);
        nonce.push(self.nonce[2]);
        assert(nonce@ =~= self.nonce@);
        res.push(nonce);
        res.push(single(self.max_block_size as u64));
        res.push(encode_limbs(&self.proof_of_work_line));
        res.push(encode_limbs(&self.proof_of_work_family));
        res.push(encode_limbs(&self.difficulty));
        proof {
            let expected = self.sequences();
            assert(res@.len() == 9);
            assert(forall|k: int| 0 <= k < 9 ==> #[trigger] sequence_views(res@)[k] == res@[k]@);
            assert(sequence_views(res@)[0] == expected[0]);
            assert(sequence_views(res@)[1] == expected[1]);
            assert(sequence_views(res@)[2] == expected[2]);
            assert(sequence_views(res@)[3] == expected[3]);
            assert(sequence_views(res@)[4] == expected[4]);
            assert(sequence_views(res@)[5] == expected[5]);
            assert(sequence_views(res@)[6] == expected[6]);
            assert(sequence_views(res@)[7] == expected[7]);
            assert(sequence_views(res@)[8] == expected[8]);
        }
        assert(sequence_views(res@) =~= self.sequences());
        res
    }
}

} // verus!
