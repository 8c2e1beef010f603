//! The kernel of a block: all of it that is no proof.

use vstd::prelude::*;
use crate::digest::Digest;
use crate::models::block_header::BlockHeader;
use crate::models::block_header::HasDiscriminant;
use crate::models::block_header::sequence_views;
use crate::mutator_set::commitment::push_elements;

verus! {

/// The kernel of a block: its header and its body. `B` is the body, which
/// the kernel carries without looking into it.
#[derive(Clone, Debug, PartialEq, Eq)]
pub struct BlockKernel<B> {
    pub header: BlockHeader,
    pub body: B,
}

/// The fields of a block kernel, in the order in which they are hashed.
#[derive(Debug, Clone, Copy, PartialEq, Eq, Structural)]
pub enum BlockKernelField {
    Header,
    Body,
}

impl BlockKernelField {
    /// The place of the field in the kernel.
    pub open spec fn index(&self) -> usize {
        match self {
            BlockKernelField::Header => 0,
            BlockKernelField::Body => 1,
        }
    }
}

impl HasDiscriminant for BlockKernelField {
    fn discriminant(&self) -> (res: usize)
        ensures
            res == self.index(),
    {
        match self {
            BlockKernelField::Header => 0,
            BlockKernelField::Body => 1,
        }
    }
}

/// The field elements of each field of a block kernel, for a kernel whose
/// header and body have the given hashes: the elements of the two digests.
pub fn kernel_mast_sequences(header_hash: &Digest, body_hash: &Digest) -> (res: Vec<Vec<u64>>)
    ensures
        sequence_views(res@) == seq![header_hash@, body_hash@],
{
    let mut header: Vec<u64> = Vec::new();
    push_elements(&mut header, header_hash);
    assert(header@ =~= header_hash@);
    let mut body: Vec<u64> = Vec::new();
    push_elements(&mut body, body_hash);
    assert(body@ =~= body_hash@);
    let mut res: Vec<Vec<u64>> = Vec::new();
    res.push(header);
    res.push(body);
    assert(sequence_views(res@) =~= seq![header_hash@, body_hash@]);
    res
}

} // verus!
