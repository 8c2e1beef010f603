//! The full form of a mountain range: every leaf and every node above it.

use vstd::prelude::*;
use crate::digest::Digest;
use crate::digest::hash_pair;
use crate::digest::hash_pair_spec;
use crate::mmr::accumulator::MmrAccumulator;
use crate::mmr::accumulator::MmrView;
use crate::mmr::accumulator::hash_with_sibling;
use crate::mmr::laws::lemma_peaks_shaped;
use crate::error::MutatorSetError;
use crate::mmr::laws::lemma_pair_up_push;
use crate::mmr::laws::lemma_pair_up_update;
use crate::mmr::shape::pair_up;
use crate::mmr::shape::parent_of;
use crate::mmr::shape::path_of;
use crate::mmr::shape::peaks_of;
use crate::mmr::shape::sibling;

verus! {

/// All levels of the range over `leaves`, lowest first.
pub open spec fn levels_of(leaves: Seq<Digest>) -> Seq<Seq<Digest>>
    decreases leaves.len(),
{
    if leaves.len() == 0 {
        Seq::empty()
    } else {
        seq![leaves] + levels_of(pair_up(leaves))
    }
}

/// The levels after `node` has come to the lowest one.
pub open spec fn levels_pushed(levels: Seq<Seq<Digest>>, node: Digest) -> Seq<Seq<Digest>>
    decreases levels.len(),
{
    if levels.len() == 0 {
        seq![seq![node]]
    } else if levels[0].len() % 2 == 1 {
        seq![levels[0].push(node)] + levels_pushed(
            levels.drop_first(),
            hash_pair_spec(levels[0].last(), node),
        )
    } else {
        levels.update(0, levels[0].push(node))
    }
}

/// The levels after the node at `pos` of the lowest one has been replaced.
pub open spec fn levels_replaced(levels: Seq<Seq<Digest>>, pos: int, node: Digest) -> Seq<
    Seq<Digest>,
>
    decreases levels.len(),
{
    if levels.len() == 0 {
        levels
    } else if pos / 2 < levels[0].len() / 2 {
        seq![levels[0].update(pos, node)] + levels_replaced(
            levels.drop_first(),
            pos / 2,
            parent_of(node, pos, levels[0][sibling(pos)]),
        )
    } else {
        levels.update(0, levels[0].update(pos, node))
    }
}

/// The slot of the peaks that stands for `level`.
pub open spec fn slot_of(level: Seq<Digest>) -> Option<Digest> {
    if level.len() % 2 == 1 {
        Some(level.last())
    } else {
        None
    }
}

/// No level of a range is empty, and the levels from any level upwards are
/// the levels of the range over that level.
pub proof fn lemma_levels_above(leaves: Seq<Digest>, h: int)
    requires
        0 <= h < levels_of(leaves).len(),
    ensures
        levels_of(leaves)[h].len() > 0,
        levels_of(leaves).skip(h) == levels_of(levels_of(leaves)[h]),
        levels_of(leaves)[0] == leaves,
    decreases h,
{
    let all = levels_of(leaves);
    assert(all.drop_first() =~= levels_of(pair_up(leaves)));
    if h == 0 {
        assert(all.skip(0) =~= all);
    } else {
        lemma_levels_above(pair_up(leaves), h - 1);
        assert(all.skip(h) =~= all.drop_first().skip(h - 1));
    }
}

/// The peaks of a range are the slots of its levels.
pub proof fn lemma_peaks_are_slots(leaves: Seq<Digest>)
    ensures
        peaks_of(leaves).len() == levels_of(leaves).len(),
        forall|h: int|
            0 <= h < levels_of(leaves).len() ==> #[trigger] peaks_of(leaves)[h] == slot_of(
                levels_of(leaves)[h],
            ),
    decreases leaves.len(),
{
    if leaves.len() > 0 {
        lemma_peaks_are_slots(pair_up(leaves));
        let upper = pair_up(leaves);
        assert forall|h: int| 0 <= h < levels_of(leaves).len() implies #[trigger] peaks_of(
            leaves,
        )[h] == slot_of(levels_of(leaves)[h]) by {
            if h > 0 {
                assert(peaks_of(leaves)[h] == peaks_of(upper)[h - 1]);
                assert(levels_of(leaves)[h] == levels_of(upper)[h - 1]);
            }
        }
    }
}

/// The levels with one more node are the levels of the longer range.
pub proof fn lemma_levels_pushed(leaves: Seq<Digest>, node: Digest)
    ensures
        levels_pushed(levels_of(leaves), node) == levels_of(leaves.push(node)),
    decreases leaves.len(),
{
    let longer = leaves.push(node);
    lemma_pair_up_push(leaves, node);
    if leaves.len() == 0 {
        assert(pair_up(longer) =~= Seq::<Digest>::empty());
        assert(longer =~= seq![node]);
        assert(levels_of(pair_up(longer)) =~= Seq::<Seq<Digest>>::empty());
        assert(levels_of(longer) =~= seq![seq![node]]);
    } else {
        assert(levels_of(leaves).drop_first() =~= levels_of(pair_up(leaves)));
        if leaves.len() % 2 == 1 {
            lemma_levels_pushed(pair_up(leaves), hash_pair_spec(leaves.last(), node));
        } else {
            assert(levels_pushed(levels_of(leaves), node) =~= levels_of(longer));
        }
    }
}

/// The levels with one node replaced are the levels of the range that holds
/// the new leaf.
pub proof fn lemma_levels_replaced(leaves: Seq<Digest>, pos: int, node: Digest)
    requires
        0 <= pos < leaves.len(),
    ensures
        levels_replaced(levels_of(leaves), pos, node) == levels_of(leaves.update(pos, node)),
    decreases leaves.len(),
{
    let changed = leaves.update(pos, node);
    lemma_pair_up_update(leaves, pos, node);
    assert(levels_of(leaves).drop_first() =~= levels_of(pair_up(leaves)));
    if pos / 2 < leaves.len() / 2 {
        lemma_levels_replaced(
            pair_up(leaves),
            pos / 2,
            parent_of(node, pos, leaves[sibling(pos)]),
        );
    } else {
        assert(levels_replaced(levels_of(leaves), pos, node) =~= levels_of(changed));
    }
}

/// A mountain range that keeps all its nodes, level by level.
#[derive(Debug)]
pub struct ArchivalMmr {
    levels: Vec<Vec<Digest>>,
}

impl View for ArchivalMmr {
    type V = Seq<Digest>;

    /// The leaves, in the order in which they were appended.
    closed spec fn view(&self) -> Seq<Digest> {
        if self.levels@.len() == 0 {
            Seq::empty()
        } else {
            self.levels@[0]@
        }
    }
}

impl ArchivalMmr {
    /// The levels that are kept, lowest first.
    pub closed spec fn kept(&self) -> Seq<Seq<Digest>> {
        Seq::new(self.levels@.len(), |h: int| self.levels@[h]@)
    }

    /// Whether the levels that are kept are those of the range over the
    /// leaves.
    pub closed spec fn wf(&self) -> bool {
        self.kept() == levels_of(self@)
    }

    /// The range without leaves.
    pub fn new() -> (res: Self)
        ensures
            res.wf(),
            res@ == Seq::<Digest>::empty(),
    {
        let res = ArchivalMmr { levels: Vec::new() };
        assert(res.kept() =~= levels_of(res@));
        res
    }

    /// The number of leaves appended so far.
    pub fn num_leafs(&self) -> (n: usize)
        ensures
            n == self@.len(),
    {
        if self.levels.len() == 0 {
            0
        } else {
            self.levels[0].len()
        }
    }

    /// The leaf at `leaf_index`.
    pub fn get_leaf(&self, leaf_index: u64) -> (res: Result<Digest, MutatorSetError>)
        ensures
            res == if leaf_index < self@.len() {
                Ok::<Digest, MutatorSetError>(self@[leaf_index as int])
            } else {
                Err(MutatorSetError::IndexOutOfRange)
            },
    {
        if self.levels.len() == 0 || leaf_index >= self.levels[0].len() as u64 {
            Err(MutatorSetError::IndexOutOfRange)
        } else {
            Ok(self.levels[0][leaf_index as usize])
        }
    }

    /// Appends `leaf` and returns its index.
    pub fn append(&mut self, leaf: Digest) -> (leaf_index: u64)
        requires
            old(self).wf(),
        ensures
            final(self).wf(),
            final(self)@ == old(self)@.push(leaf),
            leaf_index == old(self)@.len(),
    {
        let leaf_index = self.num_leafs() as u64;
        let ghost before = self.kept();
        let ghost leaves = self@;
        let mut node: Digest = leaf;
        let mut h: usize = 0;
        let mut placed = false;
        proof {
            assert(before.skip(0) =~= before);
            assert(before.take(0) + levels_pushed(before, leaf) =~= levels_pushed(before, leaf));
        }
        while h < self.levels.len() && !placed
            invariant
                h <= self.levels.len(),
                self.levels@.len() == before.len(),
                !placed ==> levels_pushed(before, leaf) == self.kept().take(h as int)
                    + levels_pushed(before.skip(h as int), node),
                !placed ==> self.kept().skip(h as int) == before.skip(h as int),
                placed ==> levels_pushed(before, leaf) == self.kept(),
            decreases self.levels.len() - h + (if placed { 0int } else { 1int }),
        {
            let ghost prior = self.kept();
            proof {
                assert(before.skip(h as int).drop_first() =~= before.skip(h as int + 1));
                assert(prior[h as int] == before.skip(h as int)[0]);
            }
            let len = self.levels[h].len();
            if len % 2 == 1 {
                let up = hash_pair(&self.levels[h][len - 1], &node);
                self.levels[h].push(node);
                proof {
                    let rest = levels_pushed(before.skip(h as int + 1), up);
                    assert(self.kept().take(h as int + 1) =~= prior.take(h as int) + seq![
                        prior[h as int].push(node),
                    ]);
                    assert(self.kept().skip(h as int + 1) =~= before.skip(h as int + 1));
                    assert(prior.take(h as int) + (seq![prior[h as int].push(node)] + rest)
                        =~= self.kept().take(h as int + 1) + rest);
                }
                node = up;
                h = h + 1;
            } else {
                self.levels[h].push(node);
                placed = true;
                proof {
                    assert(self.kept() =~= prior.take(h as int) + before.skip(h as int).update(
                        0,
                        prior[h as int].push(node),
                    ));
                }
            }
        }
        if !placed {
            let mut top: Vec<Digest> = Vec::new();
            top.push(node);
            proof {
                assert(before.skip(h as int) =~= Seq::<Seq<Digest>>::empty());
                assert(self.kept().take(h as int) =~= self.kept());
                assert(top@ =~= seq![node]);
            }
            let ghost prior = self.kept();
            self.levels.push(top);
            assert(self.kept() =~= prior + seq![seq![node]]);
        }
        proof {
            lemma_levels_pushed(leaves, leaf);
            if leaves.len() > 0 {
                lemma_levels_above(leaves, 0);
            }
            lemma_levels_above(leaves.push(leaf), 0);
        }
        leaf_index
    }

    /// The authentication path of the leaf at `leaf_index`.
    pub fn authentication_path(&self, leaf_index: u64) -> (res: Result<
        Vec<Digest>,
        MutatorSetError,
    >)
        requires
            self.wf(),
        ensures
            leaf_index < self@.len() ==> res is Ok && res->Ok_0@ == path_of(
                self@,
                leaf_index as int,
            ),
            leaf_index >= self@.len() ==> res == Err::<Vec<Digest>, MutatorSetError>(
                MutatorSetError::IndexOutOfRange,
            ),
    {
        if self.levels.len() == 0 || leaf_index >= self.levels[0].len() as u64 {
            return Err(MutatorSetError::IndexOutOfRange);
        }
        let mut path: Vec<Digest> = Vec::new();
        let mut pos: usize = leaf_index as usize;
        let mut h: usize = 0;
        let ghost goal = path_of(self@, leaf_index as int);
        proof {
            assert(path@ + goal =~= goal);
            assert(self.kept()[0] == self@);
        }
        while pos / 2 < self.levels[h].len() / 2
            invariant
                self.wf(),
                h < self.levels.len(),
                pos < self.levels[h as int].len(),
                goal == path_of(self@, leaf_index as int),
                goal == path@ + path_of(self.kept()[h as int], pos as int),
            decreases self.levels.len() - h,
        {
            let ghost level = self.kept()[h as int];
            proof {
                lemma_levels_above(self@, h as int);
                assert(levels_of(level).drop_first() =~= levels_of(pair_up(level)));
                assert(levels_of(pair_up(level)).len() > 0);
                assert(levels_of(level)[1] == self.kept()[h as int + 1]);
                assert(levels_of(pair_up(level))[0] == pair_up(level));
                let rest = path_of(pair_up(level), pos as int / 2);
                assert(path@ + (seq![level[sibling(pos as int)]] + rest) =~= path@.push(
                    level[sibling(pos as int)],
                ) + rest);
            }
            let other = if pos % 2 == 0 {
                pos + 1
            } else {
                pos - 1
            };
            path.push(self.levels[h][other]);
            pos = pos / 2;
            h = h + 1;
        }
        assert(path@ + Seq::<Digest>::empty() =~= path@);
        Ok(path)
    }

    /// The light form of this range: its peaks and the number of its leaves.
    pub fn accumulator(&self) -> (res: MmrAccumulator)
        requires
            self.wf(),
        ensures
            res.wf(),
            res@ == (MmrView { slots: peaks_of(self@), count: self@.len() }),
    {
        let mut peaks: Vec<Option<Digest>> = Vec::new();
        let mut h: usize = 0;
        proof {
            lemma_peaks_are_slots(self@);
            lemma_peaks_shaped(self@);
        }
        while h < self.levels.len()
            invariant
                self.wf(),
                h <= self.levels.len(),
                peaks@.len() == h,
                forall|g: int| 0 <= g < h ==> #[trigger] peaks@[g] == slot_of(self.kept()[g]),
            decreases self.levels.len() - h,
        {
            let len = self.levels[h].len();
            proof {
                lemma_levels_above(self@, h as int);
            }
            if len % 2 == 1 {
                peaks.push(Some(self.levels[h][len - 1]));
            } else {
                peaks.push(None);
            }
            h = h + 1;
        }
        assert(peaks@ =~= peaks_of(self@));
        MmrAccumulator::from_parts(peaks, self.num_leafs() as u64)
    }

    /// Replaces the leaf at `leaf_index` by `leaf` and computes anew the
    /// nodes above it.
    pub fn replace_leaf(&mut self, leaf_index: u64, leaf: Digest) -> (res: Result<
        (),
        MutatorSetError,
    >)
        requires
            old(self).wf(),
        ensures
            final(self).wf(),
            leaf_index < old(self)@.len() ==> res is Ok && final(self)@ == old(self)@.update(
                leaf_index as int,
                leaf,
            ),
            leaf_index >= old(self)@.len() ==> res == Err::<(), MutatorSetError>(
                MutatorSetError::IndexOutOfRange,
            ) && final(self)@ == old(self)@,
    {
        if self.levels.len() == 0 || leaf_index >= self.levels[0].len() as u64 {
            return Err(MutatorSetError::IndexOutOfRange);
        }
        let ghost before = self.kept();
        let ghost leaves = self@;
        let ghost goal = levels_replaced(before, leaf_index as int, leaf);
        let mut node: Digest = leaf;
        let mut pos: usize = leaf_index as usize;
        let mut h: usize = 0;
        let mut placed = false;
        proof {
            assert(before.skip(0) =~= before);
            assert(before.take(0) + goal =~= goal);
        }
        while !placed
            invariant
                before == levels_of(leaves),
                h < self.levels.len(),
                self.levels@.len() == before.len(),
                goal == levels_replaced(before, leaf_index as int, leaf),
                !placed ==> pos < before[h as int].len(),
                !placed ==> goal == self.kept().take(h as int) + levels_replaced(
                    before.skip(h as int),
                    pos as int,
                    node,
                ),
                !placed ==> self.kept().skip(h as int) == before.skip(h as int),
                placed ==> goal == self.kept(),
            decreases self.levels.len() - h + (if placed { 0int } else { 1int }),
        {
            let ghost prior = self.kept();
            let ghost level = before[h as int];
            proof {
                assert(before.skip(h as int).drop_first() =~= before.skip(h as int + 1));
                assert(prior[h as int] == before.skip(h as int)[0]);
                lemma_levels_above(leaves, h as int);
                assert(levels_of(level).drop_first() =~= levels_of(pair_up(level)));
            }
            let len = self.levels[h].len();
            if pos / 2 < len / 2 {
                let other = if pos % 2 == 0 {
                    pos + 1
                } else {
                    pos - 1
                };
                let up = hash_with_sibling(&node, pos as u64, &self.levels[h][other]);
                self.levels[h][pos] = node;
                proof {
                    assert(levels_of(pair_up(level)).len() > 0);
                    assert(levels_of(level)[1] == before[h as int + 1]);
                    assert(levels_of(pair_up(level))[0] == pair_up(level));
                    let rest = levels_replaced(before.skip(h as int + 1), pos as int / 2, up);
                    assert(self.kept().take(h as int + 1) =~= prior.take(h as int) + seq![
                        level.update(pos as int, node),
                    ]);
                    assert(self.kept().skip(h as int + 1) =~= before.skip(h as int + 1));
                    assert(prior.take(h as int) + (seq![level.update(pos as int, node)] + rest)
                        =~= self.kept().take(h as int + 1) + rest);
                }
                node = up;
                pos = pos / 2;
                h = h + 1;
            } else {
                self.levels[h][pos] = node;
                placed = true;
                proof {
                    assert(self.kept() =~= prior.take(h as int) + before.skip(h as int).update(
                        0,
                        level.update(pos as int, node),
                    ));
                }
            }
        }
        proof {
            lemma_levels_replaced(leaves, leaf_index as int, leaf);
            lemma_levels_above(leaves, 0);
            lemma_levels_above(leaves.update(leaf_index as int, leaf), 0);
        }
        Ok(())
    }
}

} // verus!
