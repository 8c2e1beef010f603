//! A summary of a block for those who read it: explorers, command lines,
//! dashboards.

use vstd::prelude::*;
use crate::digest::Digest;
use crate::mutator_set::removal_record::index_set_digest;
use crate::mutator_set::removal_record::index_set_digest_spec;
use crate::text::hex_spec;
use crate::text::to_hex;

verus! {

/// A block as far as its summary reads it.
#[derive(Debug)]
pub struct BlockFacts {
    pub digest: Digest,
    pub nonce: Digest,
    pub prev_block_digest: Digest,
    pub height: u64,
    /// The size of the block in field elements.
    pub size: usize,
    pub timestamp: u64,
    pub cumulative_proof_of_work: Vec<u32>,
    pub difficulty: Vec<u32>,
    /// For each input of the transaction of the block, the indices of the
    /// bits that it sets.
    pub inputs: Vec<Vec<u128>>,
    /// For each output of the transaction of the block, its commitment.
    pub output_commitments: Vec<Digest>,
    pub num_public_announcements: usize,
    pub coinbase_amount: i128,
    pub fee: i128,
    /// The id of the transaction of the block.
    pub txid: Digest,
}

/// The summary of a block.
#[derive(Debug)]
pub struct BlockInfo {
    pub height: u64,
    pub size: usize,
    pub digest: Digest,
    pub nonce: Digest,
    pub prev_block_digest: Digest,
    pub timestamp: u64,
    pub cumulative_proof_of_work: Vec<u32>,
    pub difficulty: Vec<u32>,
    pub num_inputs: usize,
    /// For each input, the hash of the indices of the bits that it sets, in
    /// hex. It does not show which commitment the input spends.
    pub inputs: Vec<String>,
    pub num_outputs: usize,
    /// For each output, its commitment in hex.
    pub outputs: Vec<String>,
    pub num_public_announcements: usize,
    pub coinbase_amount: i128,
    pub fee: i128,
    pub is_genesis: bool,
    pub is_tip: bool,
    pub is_canonical: bool,
    /// The other blocks at the same height.
    pub sibling_blocks: Vec<Digest>,
    pub txid: Digest,
}

/// Whether `texts` are the hex forms of `digests`, one for one.
pub open spec fn hex_of_all(texts: Seq<String>, digests: Seq<Digest>) -> bool {
    &&& texts.len() == digests.len()
    &&& forall|i: int| 0 <= i < digests.len() ==> (#[trigger] texts[i])@ == hex_spec(digests[i])
}

/// Whether `texts` are the hex forms of the digests of `index_sets`, one
/// for one: each input of a block is shown by the hash of its indices.
pub open spec fn hex_of_index_sets(texts: Seq<String>, index_sets: Seq<Vec<u128>>) -> bool {
    &&& texts.len() == index_sets.len()
    &&& forall|j: int|
        0 <= j < index_sets.len() ==> (#[trigger] texts[j])@ == hex_spec(
            index_set_digest_spec(index_sets[j]@),
        )
}

/// The hex forms of the digests of `index_sets`.
pub fn hex_of_inputs(index_sets: &Vec<Vec<u128>>) -> (res: Vec<String>)
    ensures
        hex_of_index_sets(res@, index_sets@),
{
    let mut res: Vec<String> = Vec::new();
    let mut j: usize = 0;
    while j < index_sets.len()
        invariant
            j <= index_sets.len(),
            res@.len() == j,
            forall|k: int|
                0 <= k < j ==> (#[trigger] res@[k])@ == hex_spec(
                    index_set_digest_spec(index_sets@[k]@),
                ),
        decreases index_sets.len() - j,
    {
        let digest = index_set_digest(&index_sets[j]);
        res.push(to_hex(&digest));
        j = j + 1;
    }
    res
}

/// The hex forms of `digests`.
pub fn hex_all(digests: &Vec<Digest>) -> (res: Vec<String>)
    ensures
        hex_of_all(res@, digests@),
{
    let mut res: Vec<String> = Vec::new();
    let mut i: usize = 0;
    while i < digests.len()
        invariant
            i <= digests.len(),
            res@.len() == i,
            forall|k: int| 0 <= k < i ==> (#[trigger] res@[k])@ == hex_spec(digests@[k]),
        decreases digests.len() - i,
    {
        res.push(to_hex(&digests[i]));
        i = i + 1;
    }
    res
}

/// A copy of a list of limbs.
pub fn copy_limbs(limbs: &Vec<u32>) -> (res: Vec<u32>)
    ensures
        res@ == limbs@,
{
    let mut res: Vec<u32> = Vec::new();
    let mut i: usize = 0;
    while i < limbs.len()
        invariant
            i <= limbs.len(),
            res@ == limbs@.take(i as int),
        decreases limbs.len() - i,
    {
        res.push(limbs[i]);
        i = i + 1;
        assert(res@ =~= limbs@.take(i as int));
    }
    assert(limbs@.take(limbs.len() as int) =~= limbs@);
    res
}

impl BlockInfo {
    /// The summary of `block`. The block is the first one where its digest is
    /// `genesis_digest`, and the latest one where its digest is `tip_digest`.
    pub fn new(
        block: &BlockFacts,
        genesis_digest: Digest,
        tip_digest: Digest,
        sibling_blocks: Vec<Digest>,
        is_canonical: bool,
    ) -> (res: Self)
        ensures
            res.height == block.height,
            res.size == block.size,
            res.digest == block.digest,
            res.nonce == block.nonce,
            res.prev_block_digest == block.prev_block_digest,
            res.timestamp == block.timestamp,
            res.cumulative_proof_of_work@ == block.cumulative_proof_of_work@,
            res.difficulty@ == block.difficulty@,
            res.num_inputs == block.inputs@.len(),
            hex_of_index_sets(res.inputs@, block.inputs@),
            res.num_outputs == block.output_commitments@.len(),
            hex_of_all(res.outputs@, block.output_commitments@),
            res.num_public_announcements == block.num_public_announcements,
            res.coinbase_amount == block.coinbase_amount,
            res.fee == block.fee,
            res.is_genesis == (block.digest == genesis_digest),
            res.is_tip == (block.digest == tip_digest),
            res.is_canonical == is_canonical,
            res.sibling_blocks@ == sibling_blocks@,
            res.txid == block.txid,
    {
        BlockInfo {
            digest: block.digest,
            nonce: block.nonce,
            prev_block_digest: block.prev_block_digest,
            height: block.height,
            size: block.size,
            timestamp: block.timestamp,
            difficulty: copy_limbs(&block.difficulty),
            cumulative_proof_of_work: copy_limbs(&block.cumulative_proof_of_work),
            num_inputs: block.inputs.len(),
            inputs: hex_of_inputs(&block.inputs),
            num_outputs: block.output_commitments.len(),
            outputs: hex_all(&block.output_commitments),
            num_public_announcements: block.num_public_announcements,
            fee: block.fee,
            coinbase_amount: block.coinbase_amount,
            is_genesis: block.digest == genesis_digest,
            is_tip: block.digest == tip_digest,
            is_canonical,
            sibling_blocks,
            txid: block.txid,
        }
    }
}

} // verus!
