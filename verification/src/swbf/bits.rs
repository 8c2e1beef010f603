//! Rows of bits: how they are marked and how they are hashed.

use vstd::prelude::*;
use crate::digest::Digest;
use crate::digest::hash_varlen;
use crate::digest::hash_varlen_spec;

verus! {

/// The positions at which `bits` is set, in rising order.
pub open spec fn set_positions(bits: Seq<bool>) -> Seq<u64>
    decreases bits.len(),
{
    if bits.len() == 0 {
        Seq::empty()
    } else {
        let before = set_positions(bits.drop_last());
        if bits.last() {
            before.push((bits.len() - 1) as u64)
        } else {
            before
        }
    }
}

/// The digest that stands for a row of bits: the hash of the positions at
/// which it is set.
pub open spec fn bits_digest(bits: Seq<bool>) -> Digest {
    hash_varlen_spec(set_positions(bits))
}

/// A row of `len` bits of which none is set.
pub open spec fn zeros(len: nat) -> Seq<bool> {
    Seq::new(len, |b: int| false)
}

/// Whether `index` is among `indices`.
pub open spec fn hits(indices: Seq<u128>, index: int) -> bool {
    exists|i: int| 0 <= i < indices.len() && #[trigger] indices[i] == index
}

/// The row `bits`, whose first bit has the index `base` in the filter, with
/// every bit set whose index is among `indices`.
pub open spec fn marked(bits: Seq<bool>, base: int, indices: Seq<u128>) -> Seq<bool> {
    Seq::new(bits.len(), |b: int| bits[b] || hits(indices, base + b))
}

/// Whether a bit of `bits`, whose first bit has the index `base` in the
/// filter, is set at one of `indices`.
pub open spec fn any_set(bits: Seq<bool>, base: int, indices: Seq<u128>) -> bool {
    exists|i: int|
        0 <= i < indices.len() && base <= (#[trigger] indices[i]) < base + bits.len() && bits[indices[i]
            - base]
}

/// An index before chunk `count` lies in the chunk that division names, at
/// the place that the remainder names.
pub proof fn lemma_chunk_of(index: int, size: int, count: int)
    requires
        0 < size,
        0 <= index < count * size,
    ensures
        0 <= index / size < count,
        0 <= index % size < size,
        (index / size) * size + index % size == index,
{
    vstd::arithmetic::div_mod::lemma_fundamental_div_mod(index, size);
    vstd::arithmetic::div_mod::lemma_mod_pos_bound(index, size);
    assert(index < size * count) by (nonlinear_arith)
        requires
            index < count * size,
    ;
    vstd::arithmetic::div_mod::lemma_multiply_divide_lt(index, size, count);
    vstd::arithmetic::div_mod::lemma_div_pos_is_pos(index, size);
    assert(size * (index / size) == (index / size) * size) by (nonlinear_arith);
}

/// An index that lies in chunk `chunk_index` is named so by division.
pub proof fn lemma_in_chunk(index: int, size: int, chunk_index: int)
    requires
        0 < size,
        chunk_index * size <= index < chunk_index * size + size,
    ensures
        index / size == chunk_index,
        index % size == index - chunk_index * size,
{
    vstd::arithmetic::div_mod::lemma_fundamental_div_mod_converse(
        index,
        size,
        chunk_index,
        index - chunk_index * size,
    );
}

/// Marking a row a second time with the same indices changes nothing.
pub proof fn lemma_marked_twice(bits: Seq<bool>, base: int, indices: Seq<u128>)
    ensures
        marked(marked(bits, base, indices), base, indices) == marked(bits, base, indices),
{
    assert(marked(marked(bits, base, indices), base, indices) =~= marked(bits, base, indices));
}

/// Marking a row in which none of the indices lies changes nothing.
pub proof fn lemma_marked_untouched(bits: Seq<bool>, base: int, indices: Seq<u128>)
    requires
        forall|i: int|
            0 <= i < indices.len() ==> !(base <= (#[trigger] indices[i]) < base + bits.len()),
    ensures
        marked(bits, base, indices) == bits,
{
    assert(marked(bits, base, indices) =~= bits);
}

/// Hashes a row of bits.
pub fn digest_of_bits(bits: &Vec<bool>) -> (res: Digest)
    ensures
        res == bits_digest(bits@),
{
    let mut positions: Vec<u64> = Vec::new();
    let mut i: usize = 0;
    while i < bits.len()
        invariant
            i <= bits.len(),
            positions@ == set_positions(bits@.take(i as int)),
        decreases bits.len() - i,
    {
        proof {
            assert(bits@.take(i as int + 1).drop_last() =~= bits@.take(i as int));
        }
        if bits[i] {
            positions.push(i as u64);
        }
        i = i + 1;
    }
    assert(bits@.take(bits.len() as int) =~= bits@);
    hash_varlen(&positions)
}

/// A row of `len` bits of which none is set.
pub fn zero_bits(len: usize) -> (res: Vec<bool>)
    ensures
        res@ == zeros(len as nat),
{
    let mut res: Vec<bool> = Vec::new();
    let mut i: usize = 0;
    while i < len
        invariant
            i <= len,
            res@ == zeros(i as nat),
        decreases len - i,
    {
        res.push(false);
        i = i + 1;
        assert(res@ =~= zeros(i as nat));
    }
    res
}

/// The first `size` bits of `window`: the chunk that leaves the window at
/// the next slide.
pub fn leaving_chunk(window: &Vec<bool>, size: usize) -> (chunk: Vec<bool>)
    requires
        size <= window@.len(),
    ensures
        chunk@ == window@.take(size as int),
{
    let mut chunk: Vec<bool> = Vec::new();
    let mut b: usize = 0;
    while b < size
        invariant
            b <= size <= window@.len(),
            chunk@ == window@.take(b as int),
        decreases size - b,
    {
        chunk.push(window[b]);
        b = b + 1;
        assert(chunk@ =~= window@.take(b as int));
    }
    chunk
}

/// Slides `window` on by `size` bits: its first `size` bits leave it and are
/// handed out as a chunk, the others move down, and as many unset bits come
/// in at its end.
pub fn slide_window(window: &mut Vec<bool>, size: usize) -> (chunk: Vec<bool>)
    requires
        size <= old(window)@.len(),
    ensures
        chunk@ == old(window)@.take(size as int),
        final(window)@ == old(window)@.skip(size as int) + zeros(size as nat),
{
    let chunk = leaving_chunk(window, size);
    let ghost before = window@;
    let ghost target = before.skip(size as int) + zeros(size as nat);
    let len = window.len();
    let mut b: usize = 0;
    while b < len
        invariant
            b <= len,
            size <= len,
            len == before.len(),
            window@.len() == len,
            target == before.skip(size as int) + zeros(size as nat),
            forall|k: int| 0 <= k < b ==> window@[k] == target[k],
            forall|k: int| b <= k < len ==> window@[k] == before[k],
        decreases len - b,
    {
        let bit = if b < len - size {
            window[b + size]
        } else {
            false
        };
        window[b] = bit;
        b = b + 1;
    }
    assert(window@ =~= target);
    chunk
}

/// Sets every bit of `bits` whose index in the filter is among `indices`,
/// and says whether one of them was set already.
pub fn set_bits(bits: &mut Vec<bool>, base: u128, indices: &Vec<u128>) -> (already: bool)
    ensures
        final(bits)@ == marked(old(bits)@, base as int, indices@),
        already == any_set(old(bits)@, base as int, indices@),
{
    let already = any_marked(bits, base, indices);
    mark(bits, base, indices);
    already
}

/// A copy of a row of bits.
pub fn copy_bits(bits: &Vec<bool>) -> (res: Vec<bool>)
    ensures
        res@ == bits@,
{
    let mut res: Vec<bool> = Vec::new();
    let mut i: usize = 0;
    while i < bits.len()
        invariant
            i <= bits.len(),
            res@ == bits@.take(i as int),
        decreases bits.len() - i,
    {
        res.push(bits[i]);
        i = i + 1;
        assert(res@ =~= bits@.take(i as int));
    }
    assert(bits@.take(bits.len() as int) =~= bits@);
    res
}

/// Sets every bit of `bits` whose index in the filter is among `indices`.
pub fn mark(bits: &mut Vec<bool>, base: u128, indices: &Vec<u128>)
    ensures
        final(bits)@ == marked(old(bits)@, base as int, indices@),
{
    let ghost before = bits@;
    let mut t: usize = 0;
    assert(bits@ =~= marked(before, base as int, indices@.take(0)));
    while t < indices.len()
        invariant
            t <= indices.len(),
            bits@ == marked(before, base as int, indices@.take(t as int)),
        decreases indices.len() - t,
    {
        let index = indices[t];
        let ghost prior = bits@;
        let ghost seen = indices@.take(t as int);
        let ghost more = indices@.take(t as int + 1);
        proof {
            assert forall|x: int| hits(more, x) <==> (hits(seen, x) || x == index) by {
                if hits(more, x) {
                    let i = choose|i: int| 0 <= i < more.len() && more[i] == x;
                    if i < t {
                        assert(seen[i] == x);
                    }
                }
                if hits(seen, x) {
                    let i = choose|i: int| 0 <= i < seen.len() && seen[i] == x;
                    assert(more[i] == x);
                }
                if x == index {
                    assert(more[t as int] == x);
                }
            }
        }
        if index >= base && index - base < bits.len() as u128 {
            let at = (index - base) as usize;
            bits[at] = true;
            assert(bits@ =~= marked(before, base as int, more));
        } else {
            assert(prior =~= marked(before, base as int, more));
        }
        t = t + 1;
    }
    assert(indices@.take(indices.len() as int) =~= indices@);
}

/// Whether a bit of `bits` is set at one of `indices`.
pub fn any_marked(bits: &Vec<bool>, base: u128, indices: &Vec<u128>) -> (res: bool)
    ensures
        res == any_set(bits@, base as int, indices@),
{
    let mut t: usize = 0;
    while t < indices.len()
        invariant
            t <= indices.len(),
            !any_set(bits@, base as int, indices@.take(t as int)),
        decreases indices.len() - t,
    {
        let index = indices[t];
        if index >= base && index - base < bits.len() as u128 {
            if bits[(index - base) as usize] {
                assert(indices@[t as int] == index);
                return true;
            }
        }
        proof {
            let seen = indices@.take(t as int);
            let more = indices@.take(t as int + 1);
            if any_set(bits@, base as int, more) {
                let i = choose|i: int|
                    0 <= i < more.len() && base <= (#[trigger] more[i]) < base + bits@.len()
                        && bits@[more[i] - base];
                if i < t {
                    assert(seen[i] == more[i]);
                }
            }
        }
        t = t + 1;
    }
    assert(indices@.take(indices.len() as int) =~= indices@);
    false
}

} // verus!
