//! How an item is committed to, and which bits of the filter stand for it.

use vstd::prelude::*;
use crate::digest::Digest;
use crate::digest::hash_pair;
use crate::digest::hash_pair_spec;
use crate::digest::hash_varlen;
use crate::digest::hash_varlen_spec;
use crate::swbf::params::Params;

verus! {

/// What is appended to the list of commitments when an item is added.
#[derive(Clone, Copy, Debug, PartialEq, Eq, Structural)]
pub struct AdditionRecord {
    pub canonical_commitment: Digest,
}

/// The digest under which a receiver is known: the hash of the preimage that
/// only the receiver holds.
pub open spec fn receiver_digest_spec(receiver_preimage: Digest) -> Digest {
    hash_pair_spec(receiver_preimage, Digest::zero())
}

/// The commitment to `item` for the receiver with `receiver_digest`, blinded
/// by `sender_randomness`.
pub open spec fn commitment_spec(
    item: Digest,
    sender_randomness: Digest,
    receiver_digest: Digest,
) -> Digest {
    hash_pair_spec(hash_pair_spec(item, sender_randomness), receiver_digest)
}

/// The numbers that the seed of an index set is hashed from: the three
/// digests and the two halves of the leaf index.
pub open spec fn seed_input(
    item: Digest,
    sender_randomness: Digest,
    receiver_preimage: Digest,
    leaf_index: u64,
) -> Seq<u64> {
    item@ + sender_randomness@ + receiver_preimage@ + seq![
        (leaf_index % 0x1_0000_0000) as u64,
        (leaf_index / 0x1_0000_0000) as u64,
    ]
}

/// The seed from which the bits that stand for an item are drawn.
pub open spec fn index_seed_spec(
    item: Digest,
    sender_randomness: Digest,
    receiver_preimage: Digest,
    leaf_index: u64,
) -> Digest {
    hash_varlen_spec(seed_input(item, sender_randomness, receiver_preimage, leaf_index))
}

/// The place in a window of `window_size` bits that `seed` draws at its
/// `trial`-th trial: the first element of the hash of the seed and the number
/// of the trial, brought into the window.
pub open spec fn drawn(seed: Digest, trial: u64, window_size: u32) -> int {
    hash_varlen_spec(seed@.push(trial)).e0 as int % window_size as int
}

/// The indices of the bits that `seed` draws for the item at `leaf_index`:
/// as many as `params` asks for, each within one window's length from the
/// start that the window had when the batch of the item began.
pub open spec fn indices_from_seed(params: Params, seed: Digest, leaf_index: u64) -> Seq<u128> {
    let offset = (leaf_index / params.batch_size) * params.chunk_size;
    Seq::new(
        params.num_trials as nat,
        |i: int| (offset + drawn(seed, i as u64, params.window_size)) as u128,
    )
}

/// The indices of the bits that stand for an item.
pub open spec fn index_set_spec(
    params: Params,
    item: Digest,
    sender_randomness: Digest,
    receiver_preimage: Digest,
    leaf_index: u64,
) -> Seq<u128> {
    indices_from_seed(
        params,
        index_seed_spec(item, sender_randomness, receiver_preimage, leaf_index),
        leaf_index,
    )
}

/// The digest under which the receiver with `receiver_preimage` is known.
pub fn receiver_digest(receiver_preimage: &Digest) -> (res: Digest)
    ensures
        res == receiver_digest_spec(*receiver_preimage),
{
    hash_pair(receiver_preimage, &Digest::all_zero())
}

/// Commits to `item`.
pub fn commit(item: &Digest, sender_randomness: &Digest, receiver_digest: &Digest) -> (res:
    AdditionRecord)
    ensures
        res.canonical_commitment == commitment_spec(*item, *sender_randomness, *receiver_digest),
{
    let inner = hash_pair(item, sender_randomness);
    AdditionRecord { canonical_commitment: hash_pair(&inner, receiver_digest) }
}

/// Computes the seed from which the bits that stand for an item are drawn.
pub fn index_seed(
    item: &Digest,
    sender_randomness: &Digest,
    receiver_preimage: &Digest,
    leaf_index: u64,
) -> (res: Digest)
    ensures
        res == index_seed_spec(*item, *sender_randomness, *receiver_preimage, leaf_index),
{
    let mut input: Vec<u64> = Vec::new();
    push_elements(&mut input, item);
    push_elements(&mut input, sender_randomness);
    push_elements(&mut input, receiver_preimage);
    input.push(leaf_index % 0x1_0000_0000);
    input.push(leaf_index / 0x1_0000_0000);
    assert(input@ =~= seed_input(*item, *sender_randomness, *receiver_preimage, leaf_index));
    hash_varlen(&input)
}

/// Appends the elements of `digest` to `out`.
pub fn push_elements(out: &mut Vec<u64>, digest: &Digest)
    ensures
        final(out)@ == old(out)@ + digest@,
{
    let ghost before = out@;
    out.push(digest.e0);
    out.push(digest.e1);
    out.push(digest.e2);
    out.push(digest.e3);
    out.push(digest.e4);
    assert(out@ =~= before + digest@);
}

/// Computes the indices of the bits that `seed` draws for the item at
/// `leaf_index`.
pub fn indices_of_seed(params: &Params, seed: &Digest, leaf_index: u64) -> (res: Vec<u128>)
    requires
        params.wf(),
    ensures
        res@ == indices_from_seed(*params, *seed, leaf_index),
{
    let batch: u128 = (leaf_index / params.batch_size) as u128;
    let size: u128 = params.chunk_size as u128;
    assert(batch * size <= 0xffff_ffff_ffff_ffff * 0xffff_ffff) by (nonlinear_arith)
        requires
            0 <= batch <= 0xffff_ffff_ffff_ffff,
            0 <= size <= 0xffff_ffff,
    ;
    let offset: u128 = batch * size;
    let mut res: Vec<u128> = Vec::new();
    let mut i: usize = 0;
    while i < params.num_trials
        invariant
            i <= params.num_trials,
            params.window_size > 0,
            offset == (leaf_index / params.batch_size) * params.chunk_size,
            offset <= 0xffff_ffff_ffff_ffff * 0xffff_ffff,
            res@ == indices_from_seed(*params, *seed, leaf_index).take(i as int),
        decreases params.num_trials - i,
    {
        let mut input: Vec<u64> = Vec::new();
        push_elements(&mut input, seed);
        input.push(i as u64);
        assert(input@ =~= seed@.push(i as u64));
        let place = hash_varlen(&input).e0 % params.window_size as u64;
        res.push(offset + place as u128);
        i = i + 1;
        assert(res@ =~= indices_from_seed(*params, *seed, leaf_index).take(i as int));
    }
    assert(res@ =~= indices_from_seed(*params, *seed, leaf_index));
    res
}

/// Computes the indices of the bits that stand for an item.
pub fn compute_index_set(
    params: &Params,
    item: &Digest,
    sender_randomness: &Digest,
    receiver_preimage: &Digest,
    leaf_index: u64,
) -> (res: Vec<u128>)
    requires
        params.wf(),
    ensures
        res@ == index_set_spec(*params, *item, *sender_randomness, *receiver_preimage, leaf_index),
        res@.len() == params.num_trials,
{
    let seed = index_seed(item, sender_randomness, receiver_preimage, leaf_index);
    indices_of_seed(params, &seed, leaf_index)
}

/// Every index of the set of an item lies within one window's length from
/// the first bit of the batch of the item.
pub proof fn lemma_indices_in_batch_window(params: Params, seed: Digest, leaf_index: u64, i: int)
    requires
        params.wf(),
        0 <= i < params.num_trials,
    ensures
        (leaf_index / params.batch_size) * params.chunk_size <= indices_from_seed(
            params,
            seed,
            leaf_index,
        )[i] < (leaf_index / params.batch_size) * params.chunk_size + params.window_size,
{
    let batch = (leaf_index / params.batch_size) as int;
    let size = params.chunk_size as int;
    assert(0 <= batch * size <= 0xffff_ffff_ffff_ffff * 0xffff_ffff) by (nonlinear_arith)
        requires
            0 <= batch <= 0xffff_ffff_ffff_ffff,
            0 <= size <= 0xffff_ffff,
    ;
}

} // verus!
