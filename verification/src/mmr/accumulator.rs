//! The light form of a mountain range: its peaks and the number of its leaves.

use vstd::prelude::*;
use crate::digest::Digest;
use crate::digest::hash_pair;
use crate::digest::hash_pair_spec;
use crate::digest::hash_varlen;
use crate::digest::hash_varlen_spec;
use crate::error::MutatorSetError;
use crate::mmr::shape::authenticates;
use crate::mmr::shape::carry;
use crate::mmr::shape::climb;
use crate::mmr::shape::extended;
use crate::mmr::shape::rerouted;
use crate::mmr::shape::merging_peaks;
use crate::mmr::shape::parent_of;
use crate::mmr::shape::replaced;
use crate::mmr::shape::shaped;

verus! {

/// What a light range is, as mathematics: a slot for each level, lowest
/// first, and the number of leaves.
pub struct MmrView {
    pub slots: Seq<Option<Digest>>,
    pub count: nat,
}

impl MmrView {
    /// The range without leaves.
    pub open spec fn empty() -> MmrView {
        MmrView { slots: Seq::empty(), count: 0 }
    }

    /// One slot for each level, filled where the level is of odd length.
    pub open spec fn wf(self) -> bool {
        shaped(self.slots, self.count)
    }

    /// The range after `leaf` has been appended.
    pub open spec fn appended(self, leaf: Digest) -> MmrView {
        MmrView { slots: carry(self.slots, leaf), count: self.count + 1 }
    }

    /// Whether `path` shows that `leaf` is the leaf at `leaf_index`.
    pub open spec fn proves(self, leaf_index: int, leaf: Digest, path: Seq<Digest>) -> bool {
        authenticates(self.slots, self.count, leaf_index, leaf, path)
    }

    /// The digest that stands for the range: the hash of the number of
    /// leaves and of the peaks.
    pub open spec fn bagged(self) -> Digest {
        hash_varlen_spec(count_elements(self.count) + peak_elements(self.slots))
    }

    /// The range after the leaf at `leaf_index`, whose authentication path is
    /// `path`, has been replaced by `leaf`.
    pub open spec fn with_leaf(self, leaf_index: int, path: Seq<Digest>, leaf: Digest) -> MmrView {
        MmrView { slots: replaced(self.slots, leaf_index, path, leaf), count: self.count }
    }
}

/// The two halves of a number of leaves, the lower one first.
pub open spec fn count_elements(count: nat) -> Seq<u64> {
    seq![(count % 0x1_0000_0000) as u64, (count / 0x1_0000_0000) as u64]
}

/// The elements of the peaks that there are, lowest peak first.
pub open spec fn peak_elements(slots: Seq<Option<Digest>>) -> Seq<u64>
    decreases slots.len(),
{
    if slots.len() == 0 {
        Seq::empty()
    } else {
        let before = peak_elements(slots.drop_last());
        match slots.last() {
            None => before,
            Some(peak) => before + peak@,
        }
    }
}

/// A mountain range of which only the peaks are kept.
#[derive(Debug)]
pub struct MmrAccumulator {
    peaks: Vec<Option<Digest>>,
    num_leafs: u64,
}

/// Hashes `node`, which stands at `pos`, with its neighbour `other`.
pub fn hash_with_sibling(node: &Digest, pos: u64, other: &Digest) -> (res: Digest)
    ensures
        res == parent_of(*node, pos as int, *other),
{
    if pos % 2 == 0 {
        hash_pair(node, other)
    } else {
        hash_pair(other, node)
    }
}

/// Computes the root that `path` leads to from `node` at `pos`.
pub fn climb_path(node: &Digest, pos: u64, path: &Vec<Digest>) -> (res: Digest)
    ensures
        res == climb(*node, pos as int, path@),
{
    let mut cur: Digest = *node;
    let mut at: u64 = pos;
    let mut h: usize = 0;
    assert(path@.skip(0) =~= path@);
    while h < path.len()
        invariant
            h <= path.len(),
            climb(*node, pos as int, path@) == climb(cur, at as int, path@.skip(h as int)),
        decreases path.len() - h,
    {
        proof {
            assert(path@.skip(h as int).drop_first() =~= path@.skip(h as int + 1));
        }
        cur = hash_with_sibling(&cur, at, &path[h]);
        at = at / 2;
        h = h + 1;
    }
    cur
}

impl View for MmrAccumulator {
    type V = MmrView;

    closed spec fn view(&self) -> MmrView {
        MmrView { slots: self.peaks@, count: self.num_leafs as nat }
    }
}

impl Clone for MmrAccumulator {
    fn clone(&self) -> (res: Self)
        ensures
            res@ == self@,
    {
        MmrAccumulator { peaks: copy_slots(&self.peaks), num_leafs: self.num_leafs }
    }
}

/// A copy of `digests`.
pub fn copy_digests(digests: &Vec<Digest>) -> (res: Vec<Digest>)
    ensures
        res@ == digests@,
{
    let mut res: Vec<Digest> = Vec::new();
    let mut i: usize = 0;
    while i < digests.len()
        invariant
            i <= digests.len(),
            res@ == digests@.take(i as int),
        decreases digests.len() - i,
    {
        res.push(digests[i]);
        i = i + 1;
        assert(res@ =~= digests@.take(i as int));
    }
    assert(digests@.take(digests.len() as int) =~= digests@);
    res
}

/// The authentication path `path` of the node at `pos` as it is after the
/// node at `other_pos`, whose path is `other_path`, has been replaced by
/// `node`.
pub fn reroute_path(
    path: &Vec<Digest>,
    pos: u64,
    other_path: &Vec<Digest>,
    other_pos: u64,
    node: &Digest,
) -> (res: Vec<Digest>)
    ensures
        res@ == rerouted(path@, pos as int, other_path@, other_pos as int, *node),
{
    let ghost goal = rerouted(path@, pos as int, other_path@, other_pos as int, *node);
    let mut res = copy_digests(path);
    let mut cur: Digest = *node;
    let mut k: u64 = pos;
    let mut j: u64 = other_pos;
    let mut h: usize = 0;
    proof {
        assert(path@.skip(0) =~= path@);
        assert(other_path@.skip(0) =~= other_path@);
        assert(path@.take(0) + goal =~= goal);
    }
    while h < path.len() && h < other_path.len()
        invariant
            h <= path.len(),
            h <= other_path.len(),
            res@ == path@,
            goal == rerouted(path@, pos as int, other_path@, other_pos as int, *node),
            goal == path@.take(h as int) + rerouted(
                path@.skip(h as int),
                k as int,
                other_path@.skip(h as int),
                j as int,
                cur,
            ),
        decreases path.len() - h,
    {
        proof {
            assert(path@.take(h as int) + path@.skip(h as int) =~= path@);
            assert(path@.skip(h as int).drop_first() =~= path@.skip(h as int + 1));
            assert(other_path@.skip(h as int).drop_first() =~= other_path@.skip(h as int + 1));
        }
        if k == j {
            return res;
        }
        if k / 2 == j / 2 {
            res[h] = cur;
            proof {
                assert(path@.take(h as int) + path@.skip(h as int).update(0, cur) =~= path@.update(
                    h as int,
                    cur,
                ));
            }
            return res;
        }
        proof {
            let rest = rerouted(
                path@.skip(h as int + 1),
                k as int / 2,
                other_path@.skip(h as int + 1),
                j as int / 2,
                parent_of(cur, j as int, other_path@[h as int]),
            );
            assert(path@.take(h as int) + (seq![path@[h as int]] + rest) =~= path@.take(
                h as int + 1,
            ) + rest);
        }
        cur = hash_with_sibling(&cur, j, &other_path[h]);
        k = k / 2;
        j = j / 2;
        h = h + 1;
    }
    proof {
        assert(path@.take(h as int) + path@.skip(h as int) =~= path@);
    }
    res
}

/// A copy of `slots`.
pub fn copy_slots(slots: &Vec<Option<Digest>>) -> (res: Vec<Option<Digest>>)
    ensures
        res@ == slots@,
{
    let mut res: Vec<Option<Digest>> = Vec::new();
    let mut i: usize = 0;
    while i < slots.len()
        invariant
            i <= slots.len(),
            res@ == slots@.take(i as int),
        decreases slots.len() - i,
    {
        res.push(slots[i]);
        i = i + 1;
        assert(res@ =~= slots@.take(i as int));
    }
    assert(slots@.take(slots.len() as int) =~= slots@);
    res
}

impl MmrAccumulator {
    /// Whether the peaks fit the number of leaves.
    pub open spec fn wf(&self) -> bool {
        self@.wf()
    }

    /// The range without leaves.
    pub fn new() -> (res: Self)
        ensures
            res.wf(),
            res@ == MmrView::empty(),
    {
        MmrAccumulator { peaks: Vec::new(), num_leafs: 0 }
    }

    /// The range with the given peaks and number of leaves.
    pub(crate) fn from_parts(peaks: Vec<Option<Digest>>, num_leafs: u64) -> (res: Self)
        ensures
            res@ == (MmrView { slots: peaks@, count: num_leafs as nat }),
    {
        MmrAccumulator { peaks, num_leafs }
    }

    /// The leaf at `leaf_index`. The light form keeps none: it can only say
    /// whether there is one.
    pub fn get_leaf(&self, leaf_index: u64) -> (res: Result<Digest, MutatorSetError>)
        ensures
            res == Err::<Digest, MutatorSetError>(
                if leaf_index < self@.count {
                    MutatorSetError::LeafNotRetained
                } else {
                    MutatorSetError::IndexOutOfRange
                },
            ),
    {
        if leaf_index < self.num_leafs {
            Err(MutatorSetError::LeafNotRetained)
        } else {
            Err(MutatorSetError::IndexOutOfRange)
        }
    }

    /// The digest that stands for the range.
    pub fn bag_peaks(&self) -> (res: Digest)
        ensures
            res == self@.bagged(),
    {
        let mut input: Vec<u64> = Vec::new();
        input.push(self.num_leafs % 0x1_0000_0000);
        input.push(self.num_leafs / 0x1_0000_0000);
        assert(input@ =~= count_elements(self.num_leafs as nat));
        let mut h: usize = 0;
        assert(self.peaks@.take(0) =~= Seq::<Option<Digest>>::empty());
        assert(input@ =~= count_elements(self.num_leafs as nat) + peak_elements(
            self.peaks@.take(0),
        ));
        while h < self.peaks.len()
            invariant
                h <= self.peaks.len(),
                input@ == count_elements(self.num_leafs as nat) + peak_elements(
                    self.peaks@.take(h as int),
                ),
            decreases self.peaks.len() - h,
        {
            proof {
                assert(self.peaks@.take(h as int + 1).drop_last() =~= self.peaks@.take(h as int));
            }
            let ghost before = input@;
            match self.peaks[h] {
                None => {},
                Some(peak) => {
                    input.push(peak.e0);
                    input.push(peak.e1);
                    input.push(peak.e2);
                    input.push(peak.e3);
                    input.push(peak.e4);
                    assert(input@ =~= before + peak@);
                    assert(input@ =~= count_elements(self.num_leafs as nat) + (peak_elements(
                        self.peaks@.take(h as int),
                    ) + peak@));
                },
            }
            h = h + 1;
        }
        assert(self.peaks@.take(self.peaks.len() as int) =~= self.peaks@);
        hash_varlen(&input)
    }

    /// The number of leaves appended so far.
    pub fn num_leafs(&self) -> (n: u64)
        ensures
            n == self@.count,
    {
        self.num_leafs
    }

    /// The peaks, lowest first: one slot for each level.
    pub fn peaks(&self) -> (res: &Vec<Option<Digest>>)
        ensures
            res@ == self@.slots,
    {
        &self.peaks
    }

    /// The peaks from level `start` upwards that stand in one row without a
    /// gap, lowest first.
    fn merging_from(&self, start: usize) -> (path: Vec<Digest>)
        requires
            start <= self.peaks@.len(),
        ensures
            path@ == merging_peaks(self.peaks@.skip(start as int)),
    {
        let mut path: Vec<Digest> = Vec::new();
        let mut h: usize = start;
        let ghost all = merging_peaks(self.peaks@.skip(start as int));
        assert(Seq::<Digest>::empty() + all =~= all);
        while h < self.peaks.len()
            invariant
                start <= h <= self.peaks.len(),
                all == merging_peaks(self.peaks@.skip(start as int)),
                all == path@ + merging_peaks(self.peaks@.skip(h as int)),
            decreases self.peaks.len() - h,
        {
            proof {
                assert(self.peaks@.skip(h as int).drop_first() =~= self.peaks@.skip(h as int + 1));
            }
            match self.peaks[h] {
                None => {
                    assert(path@ + Seq::<Digest>::empty() =~= path@);
                    return path;
                },
                Some(peak) => {
                    proof {
                        let rest = merging_peaks(self.peaks@.skip(h as int + 1));
                        assert(path@ + (seq![peak] + rest) =~= path@.push(peak) + rest);
                    }
                    path.push(peak);
                },
            }
            h = h + 1;
        }
        assert(path@ + Seq::<Digest>::empty() =~= path@);
        path
    }

    /// The authentication path that the next leaf will have once it is
    /// appended: the peaks that it is hashed with.
    pub fn next_path(&self) -> (path: Vec<Digest>)
        ensures
            path@ == merging_peaks(self@.slots),
    {
        assert(self.peaks@.skip(0) =~= self.peaks@);
        self.merging_from(0)
    }

    /// The authentication path `path`, which leads to a peak of this range,
    /// as it is after `leaf` has been appended to the range.
    pub fn extend_path(&self, leaf: &Digest, path: &Vec<Digest>) -> (res: Vec<Digest>)
        ensures
            res@ == extended(self@.slots, Some(*leaf), path@),
    {
        let ghost goal = extended(self.peaks@, Some(*leaf), path@);
        let mut node: Digest = *leaf;
        let mut h: usize = 0;
        proof {
            assert(self.peaks@.skip(0) =~= self.peaks@);
            assert(path@.skip(0) =~= path@);
            assert(path@.take(0) + goal =~= goal);
        }
        while h < path.len()
            invariant
                h <= path.len(),
                h <= self.peaks.len(),
                goal == extended(self@.slots, Some(*leaf), path@),
                goal == path@.take(h as int) + extended(
                    self.peaks@.skip(h as int),
                    Some(node),
                    path@.skip(h as int),
                ),
            decreases path.len() - h,
        {
            proof {
                assert(path@.take(h as int) + path@.skip(h as int) =~= path@);
            }
            if h >= self.peaks.len() {
                return copy_digests(path);
            }
            proof {
                assert(path@.skip(h as int).drop_first() =~= path@.skip(h as int + 1));
                assert(self.peaks@.skip(h as int).drop_first() =~= self.peaks@.skip(h as int + 1));
                assert(path@.take(h as int) + (seq![path@[h as int]] + path@.skip(h as int + 1))
                    =~= path@);
            }
            match self.peaks[h] {
                None => {
                    proof {
                        assert(extended(
                            self.peaks@.skip(h as int + 1),
                            None,
                            path@.skip(h as int + 1),
                        ) == path@.skip(h as int + 1));
                    }
                    return copy_digests(path);
                },
                Some(peak) => {
                    proof {
                        let rest = extended(
                            self.peaks@.skip(h as int + 1),
                            Some(hash_pair_spec(peak, node)),
                            path@.skip(h as int + 1),
                        );
                        assert(path@.take(h as int) + (seq![path@[h as int]] + rest)
                            =~= path@.take(h as int + 1) + rest);
                    }
                    node = hash_pair(&peak, &node);
                },
            }
            h = h + 1;
        }
        proof {
            assert(path@.take(h as int) =~= path@);
            assert(path@.skip(h as int) =~= Seq::<Digest>::empty());
        }
        let mut res = copy_digests(path);
        if h >= self.peaks.len() {
            assert(path@ + Seq::<Digest>::empty() =~= path@);
            return res;
        }
        proof {
            assert(self.peaks@.skip(h as int).drop_first() =~= self.peaks@.skip(h as int + 1));
        }
        res.push(node);
        let mut above = self.merging_from(h + 1);
        proof {
            assert(path@ + (seq![node] + above@) =~= path@.push(node) + above@);
        }
        res.append(&mut above);
        res
    }

    /// Appends `leaf` and returns its index.
    pub fn append(&mut self, leaf: Digest) -> (leaf_index: u64)
        requires
            old(self).wf(),
            old(self)@.count < u64::MAX,
        ensures
            final(self).wf(),
            final(self)@ == old(self)@.appended(leaf),
            leaf_index == old(self)@.count,
    {
        let leaf_index = self.num_leafs;
        let ghost before = self.peaks@;
        let mut node: Digest = leaf;
        let mut h: usize = 0;
        let mut placed = false;
        assert(before.skip(0) =~= before);
        assert(before.take(0) + carry(before, leaf) =~= carry(before, leaf));
        while h < self.peaks.len() && !placed
            invariant
                h <= self.peaks.len(),
                self.num_leafs == leaf_index,
                self.peaks@.len() == before.len(),
                !placed ==> carry(before, leaf) == self.peaks@.take(h as int) + carry(
                    before.skip(h as int),
                    node,
                ),
                !placed ==> self.peaks@.skip(h as int) == before.skip(h as int),
                placed ==> carry(before, leaf) == self.peaks@,
            decreases self.peaks.len() - h + (if placed { 0int } else { 1int }),
        {
            proof {
                assert(before.skip(h as int).drop_first() =~= before.skip(h as int + 1));
                assert(self.peaks@[h as int] == before.skip(h as int)[0]);
            }
            let ghost prior = self.peaks@;
            match self.peaks[h] {
                None => {
                    self.peaks[h] = Some(node);
                    placed = true;
                    proof {
                        assert(self.peaks@ =~= prior.take(h as int) + before.skip(h as int).update(
                            0,
                            Some(node),
                        ));
                    }
                },
                Some(peak) => {
                    self.peaks[h] = None;
                    node = hash_pair(&peak, &node);
                    h = h + 1;
                    proof {
                        assert(self.peaks@.take(h as int) =~= prior.take(h as int - 1) + seq![
                            None::<Digest>,
                        ]);
                        assert(self.peaks@.skip(h as int) =~= before.skip(h as int));
                        let rest = carry(before.skip(h as int), node);
                        assert(prior.take(h as int - 1) + (seq![None::<Digest>] + rest)
                            =~= self.peaks@.take(h as int) + rest);
                    }
                },
            }
        }
        if !placed {
            proof {
                assert(before.skip(h as int) =~= Seq::<Option<Digest>>::empty());
                assert(self.peaks@.take(h as int) =~= self.peaks@);
                assert(self.peaks@ + seq![Some(node)] =~= self.peaks@.push(Some(node)));
            }
            self.peaks.push(Some(node));
        }
        self.num_leafs = leaf_index + 1;
        proof {
            lemma_carry_shaped(before, leaf_index as nat, leaf);
        }
        leaf_index
    }

    /// Whether `path` shows that `leaf` is the leaf at `leaf_index`.
    pub fn verify(&self, leaf_index: u64, leaf: &Digest, path: &Vec<Digest>) -> (ok: bool)
        ensures
            ok == self@.proves(leaf_index as int, *leaf, path@),
    {
        let mut node: Digest = *leaf;
        let mut pos: u64 = leaf_index;
        let mut count: u64 = self.num_leafs;
        let mut h: usize = 0;
        assert(path@.skip(0) =~= path@);
        assert(self.peaks@.skip(0) =~= self.peaks@);
        while h < path.len()
            invariant
                h <= path.len(),
                h <= self.peaks.len(),
                self@.proves(leaf_index as int, *leaf, path@) == authenticates(
                    self.peaks@.skip(h as int),
                    count as nat,
                    pos as int,
                    node,
                    path@.skip(h as int),
                ),
            decreases path.len() - h,
        {
            if h >= self.peaks.len() || pos / 2 >= count / 2 {
                return false;
            }
            proof {
                assert(path@.skip(h as int).drop_first() =~= path@.skip(h as int + 1));
                assert(self.peaks@.skip(h as int).drop_first() =~= self.peaks@.skip(h as int + 1));
            }
            node = hash_with_sibling(&node, pos, &path[h]);
            pos = pos / 2;
            count = count / 2;
            h = h + 1;
        }
        if h >= self.peaks.len() || count % 2 != 1 || pos != count - 1 {
            return false;
        }
        match self.peaks[h] {
            None => false,
            Some(peak) => peak == node,
        }
    }

    /// Replaces the leaf at `leaf_index`, whose authentication path is
    /// `path`, by `leaf`: the peak above it is computed anew. A path that ends
    /// where the range has no peak changes nothing.
    pub fn replace_leaf(&mut self, leaf_index: u64, path: &Vec<Digest>, leaf: &Digest)
        requires
            old(self).wf(),
        ensures
            final(self).wf(),
            final(self)@ == old(self)@.with_leaf(leaf_index as int, path@, *leaf),
    {
        if path.len() < self.peaks.len() && self.peaks[path.len()].is_some() {
            let root = climb_path(leaf, leaf_index, path);
            proof {
                lemma_replaced_shaped(self.peaks@, self.num_leafs as nat, path@.len() as int, root);
            }
            self.peaks[path.len()] = Some(root);
        }
    }
}

/// Appending keeps the shape.
pub proof fn lemma_carry_shaped(slots: Seq<Option<Digest>>, count: nat, node: Digest)
    requires
        shaped(slots, count),
    ensures
        shaped(carry(slots, node), count + 1),
    decreases slots.len(),
{
    let after = carry(slots, node);
    if slots.len() == 0 {
        assert(after.drop_first() =~= Seq::<Option<Digest>>::empty());
        assert(shaped(after.drop_first(), 0));
    } else {
        match slots[0] {
            None => {
                assert(after.drop_first() =~= slots.drop_first());
                assert(shaped(after.drop_first(), (count + 1) / 2));
            },
            Some(peak) => {
                let up = hash_pair_spec(peak, node);
                lemma_carry_shaped(slots.drop_first(), count / 2, up);
                assert(after.drop_first() =~= carry(slots.drop_first(), up));
                assert(shaped(after.drop_first(), (count + 1) / 2));
            },
        }
    }
}

/// Writing a root into a slot that is filled keeps the shape.
pub proof fn lemma_replaced_shaped(
    slots: Seq<Option<Digest>>,
    count: nat,
    at: int,
    root: Digest,
)
    requires
        shaped(slots, count),
        0 <= at < slots.len(),
    ensures
        slots[at].is_some() ==> shaped(slots.update(at, Some(root)), count),
    decreases slots.len(),
{
    let after = slots.update(at, Some(root));
    if at == 0 {
        assert(after.drop_first() =~= slots.drop_first());
    } else {
        lemma_replaced_shaped(slots.drop_first(), count / 2, at - 1, root);
        assert(after.drop_first() =~= slots.drop_first().update(at - 1, Some(root)));
        assert(slots.drop_first()[at - 1] == slots[at]);
    }
}

} // verus!
