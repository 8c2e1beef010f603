//! The sizes that shape a mutator set.

use vstd::prelude::*;

verus! {

/// The sizes that shape a mutator set. All who work on one set must agree on
/// them.
#[derive(Clone, Copy, Debug, PartialEq, Eq, Structural)]
pub struct Params {
    /// The number of bits of the active window.
    pub window_size: u32,
    /// The number of bits of a chunk, and the number of bits by which the
    /// window moves on when it slides.
    pub chunk_size: u32,
    /// The number of additions between two slides of the window.
    pub batch_size: u64,
    /// The number of bits that stand for one item.
    pub num_trials: usize,
}

impl Params {
    /// Whether the sizes can shape a set: the window holds at least one
    /// chunk, and no size is zero.
    pub open spec fn wf(&self) -> bool {
        &&& 0 < self.chunk_size <= self.window_size
        &&& 0 < self.batch_size
        &&& 0 < self.num_trials
    }

    /// The number of chunks that have left the window once `count` items
    /// have been added. The window slides when an item begins a batch other
    /// than the first.
    pub open spec fn batches(&self, count: nat) -> nat {
        if count == 0 {
            0
        } else {
            ((count - 1) / (self.batch_size as int)) as nat
        }
    }

    /// Whether the window slides when the item with index `leaf_index` is
    /// added.
    pub open spec fn slides(&self, leaf_index: nat) -> bool {
        leaf_index != 0 && leaf_index % (self.batch_size as nat) == 0
    }

    /// The index of the first bit of the window once `chunks` chunks have
    /// left it.
    pub open spec fn window_start(&self, chunks: nat) -> nat {
        chunks * (self.chunk_size as nat)
    }

    /// The sizes, if they can shape a set.
    pub fn new(window_size: u32, chunk_size: u32, batch_size: u64, num_trials: usize) -> (res:
        Option<Params>)
        ensures
            res == if (Params { window_size, chunk_size, batch_size, num_trials }).wf() {
                Some(Params { window_size, chunk_size, batch_size, num_trials })
            } else {
                None
            },
    {
        let params = Params { window_size, chunk_size, batch_size, num_trials };
        if params.is_valid() {
            Some(params)
        } else {
            None
        }
    }

    /// Whether the sizes can shape a set.
    pub fn is_valid(&self) -> (res: bool)
        ensures
            res == self.wf(),
    {
        0 < self.chunk_size && self.chunk_size <= self.window_size && 0 < self.batch_size && 0
            < self.num_trials
    }

    /// Whether the window slides when the item with index `leaf_index` is
    /// added.
    pub fn window_slides(&self, leaf_index: u64) -> (res: bool)
        requires
            self.wf(),
        ensures
            res == self.slides(leaf_index as nat),
    {
        leaf_index != 0 && leaf_index % self.batch_size == 0
    }
}

/// An addition that slides the window brings the number of chunks to what
/// the longer range asks for; one that does not leaves it there.
pub proof fn lemma_batches_step(params: Params, count: nat)
    requires
        params.wf(),
    ensures
        params.slides(count) ==> params.batches(count + 1) == params.batches(count) + 1,
        !params.slides(count) ==> params.batches(count + 1) == params.batches(count),
{
    let b = params.batch_size as int;
    if count > 0 {
        let q = (count - 1) / b;
        let r = (count - 1) % b;
        assert((count - 1) == b * q + r) by {
            vstd::arithmetic::div_mod::lemma_fundamental_div_mod(count - 1, b);
        }
        if params.slides(count) {
            assert(count % (b as nat) == 0);
            vstd::arithmetic::div_mod::lemma_fundamental_div_mod(count as int, b);
            let q2 = (count as int) / b;
            assert(count == b * q2);
            assert(q2 == q + 1 && r == b - 1) by (nonlinear_arith)
                requires
                    count - 1 == b * q + r,
                    count == b * q2,
                    0 <= r < b,
                    b > 0,
            ;
        } else {
            let q2 = (count as int) / b;
            let r2 = (count as int) % b;
            vstd::arithmetic::div_mod::lemma_fundamental_div_mod(count as int, b);
            assert(r2 > 0);
            assert(q2 == q) by (nonlinear_arith)
                requires
                    count - 1 == b * q + r,
                    count == b * q2 + r2,
                    0 <= r < b,
                    0 < r2 < b,
                    b > 0,
            ;
        }
    }
}

} // verus!
