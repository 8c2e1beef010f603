//! What holds between a range that keeps all its leaves and the peaks and
//! paths that stand for it.

use vstd::prelude::*;
use crate::digest::Digest;
use crate::digest::hash_pair_spec;
use crate::mmr::shape::authenticates;
use crate::mmr::shape::carry;
use crate::mmr::shape::climb;
use crate::mmr::shape::extended;
use crate::mmr::shape::merging_peaks;
use crate::mmr::shape::pair_up;
use crate::mmr::shape::parent_of;
use crate::mmr::shape::path_of;
use crate::mmr::shape::peaks_of;
use crate::mmr::shape::replaced;
use crate::mmr::shape::rerouted;
use crate::mmr::shape::shaped;
use crate::mmr::shape::sibling;

verus! {

/// A node that comes to a level of odd length brings a parent to the level
/// above; one that comes to a level of even length leaves that level as it is.
pub proof fn lemma_pair_up_push(level: Seq<Digest>, node: Digest)
    ensures
        level.len() % 2 == 1 ==> pair_up(level.push(node)) == pair_up(level).push(
            hash_pair_spec(level.last(), node),
        ),
        level.len() % 2 == 0 ==> pair_up(level.push(node)) == pair_up(level),
{
    if level.len() % 2 == 1 {
        assert(pair_up(level.push(node)) =~= pair_up(level).push(
            hash_pair_spec(level.last(), node),
        ));
    } else {
        assert(pair_up(level.push(node)) =~= pair_up(level));
    }
}

/// A node that is replaced changes its parent and nothing else in the level
/// above.
pub proof fn lemma_pair_up_update(level: Seq<Digest>, pos: int, node: Digest)
    requires
        0 <= pos < level.len(),
    ensures
        pos / 2 < level.len() / 2 ==> pair_up(level.update(pos, node)) == pair_up(level).update(
            pos / 2,
            parent_of(node, pos, level[sibling(pos)]),
        ),
        pos / 2 >= level.len() / 2 ==> pair_up(level.update(pos, node)) == pair_up(level),
{
    if pos / 2 < level.len() / 2 {
        assert(pair_up(level.update(pos, node)) =~= pair_up(level).update(
            pos / 2,
            parent_of(node, pos, level[sibling(pos)]),
        ));
    } else {
        assert(pair_up(level.update(pos, node)) =~= pair_up(level));
    }
}

/// The peaks of a range have one slot for each level, filled where the level
/// is of odd length.
pub proof fn lemma_peaks_shaped(leaves: Seq<Digest>)
    ensures
        shaped(peaks_of(leaves), leaves.len()),
    decreases leaves.len(),
{
    if leaves.len() > 0 {
        lemma_peaks_shaped(pair_up(leaves));
        assert(peaks_of(leaves).drop_first() =~= peaks_of(pair_up(leaves)));
    }
}

/// The authentication path of a leaf leads from that leaf to a peak of the
/// range.
pub proof fn lemma_path_authenticates(leaves: Seq<Digest>, pos: int)
    requires
        0 <= pos < leaves.len(),
    ensures
        authenticates(peaks_of(leaves), leaves.len(), pos, leaves[pos], path_of(leaves, pos)),
    decreases leaves.len(),
{
    let path = path_of(leaves, pos);
    assert(peaks_of(leaves).drop_first() =~= peaks_of(pair_up(leaves)));
    if pos / 2 < leaves.len() / 2 {
        lemma_path_authenticates(pair_up(leaves), pos / 2);
        assert(path.drop_first() =~= path_of(pair_up(leaves), pos / 2));
        assert(pair_up(leaves)[pos / 2] == parent_of(leaves[pos], pos, path[0]));
    }
}

/// Appending to the peaks gives the peaks of the longer range.
pub proof fn lemma_append_peaks(leaves: Seq<Digest>, node: Digest)
    ensures
        carry(peaks_of(leaves), node) == peaks_of(leaves.push(node)),
    decreases leaves.len(),
{
    let longer = leaves.push(node);
    lemma_pair_up_push(leaves, node);
    if leaves.len() == 0 {
        assert(pair_up(longer) =~= Seq::<Digest>::empty());
        assert(peaks_of(pair_up(longer)) =~= Seq::<Option<Digest>>::empty());
        assert(carry(peaks_of(leaves), node) =~= peaks_of(longer));
    } else if leaves.len() % 2 == 0 {
        assert(carry(peaks_of(leaves), node) =~= peaks_of(longer));
    } else {
        let up = hash_pair_spec(leaves.last(), node);
        lemma_append_peaks(pair_up(leaves), up);
        assert(peaks_of(leaves).drop_first() =~= peaks_of(pair_up(leaves)));
        assert(carry(peaks_of(leaves), node) =~= peaks_of(longer));
    }
}

/// The peaks that a new leaf is hashed with are its authentication path in
/// the longer range.
pub proof fn lemma_append_fresh_path(leaves: Seq<Digest>, node: Digest)
    ensures
        merging_peaks(peaks_of(leaves)) == path_of(leaves.push(node), leaves.len() as int),
    decreases leaves.len(),
{
    let longer = leaves.push(node);
    let n = leaves.len() as int;
    lemma_pair_up_push(leaves, node);
    if n % 2 == 1 {
        let up = hash_pair_spec(leaves.last(), node);
        lemma_append_fresh_path(pair_up(leaves), up);
        assert(peaks_of(leaves).drop_first() =~= peaks_of(pair_up(leaves)));
        assert(n / 2 < longer.len() / 2);
        assert(longer[sibling(n)] == leaves.last());
    }
}

/// A path extended for an append is the path in the longer range.
pub proof fn lemma_append_extends_path(leaves: Seq<Digest>, node: Digest, pos: int)
    requires
        0 <= pos < leaves.len(),
    ensures
        extended(peaks_of(leaves), Some(node), path_of(leaves, pos)) == path_of(
            leaves.push(node),
            pos,
        ),
    decreases leaves.len(),
{
    let longer = leaves.push(node);
    let n = leaves.len() as int;
    let path = path_of(leaves, pos);
    lemma_pair_up_push(leaves, node);
    assert(peaks_of(leaves).drop_first() =~= peaks_of(pair_up(leaves)));
    if pos / 2 < n / 2 {
        assert(path.drop_first() =~= path_of(pair_up(leaves), pos / 2));
        assert(longer[sibling(pos)] == leaves[sibling(pos)]);
        if n % 2 == 1 {
            let up = hash_pair_spec(leaves.last(), node);
            lemma_append_extends_path(pair_up(leaves), up, pos / 2);
        } else {
            assert(extended(peaks_of(pair_up(leaves)), None, path.drop_first())
                == path.drop_first());
        }
    } else {
        let up = hash_pair_spec(leaves.last(), node);
        lemma_append_fresh_path(pair_up(leaves), up);
        assert(pos / 2 < longer.len() / 2);
        assert(longer[sibling(pos)] == node);
    }
}

/// The path of a leaf ends at a slot of the peaks that is filled, and a leaf
/// that is replaced changes that slot and no other.
pub proof fn lemma_update_peaks(leaves: Seq<Digest>, pos: int, node: Digest)
    requires
        0 <= pos < leaves.len(),
    ensures
        path_of(leaves, pos).len() < peaks_of(leaves).len(),
        peaks_of(leaves)[path_of(leaves, pos).len() as int].is_some(),
        replaced(peaks_of(leaves), pos, path_of(leaves, pos), node) == peaks_of(
            leaves.update(pos, node),
        ),
    decreases leaves.len(),
{
    let path = path_of(leaves, pos);
    let changed = leaves.update(pos, node);
    lemma_pair_up_update(leaves, pos, node);
    assert(peaks_of(leaves).drop_first() =~= peaks_of(pair_up(leaves)));
    if pos / 2 < leaves.len() / 2 {
        let up = parent_of(node, pos, leaves[sibling(pos)]);
        lemma_update_peaks(pair_up(leaves), pos / 2, up);
        assert(path.drop_first() =~= path_of(pair_up(leaves), pos / 2));
        assert(climb(node, pos, path) == climb(up, pos / 2, path.drop_first()));
        assert(peaks_of(changed) =~= peaks_of(leaves).update(
            path.len() as int,
            Some(climb(node, pos, path)),
        ));
    } else {
        assert(peaks_of(changed) =~= peaks_of(leaves).update(0, Some(node)));
    }
}

/// A path rerouted round a leaf that is replaced is the path in the range
/// that holds the new leaf.
pub proof fn lemma_update_reroutes(leaves: Seq<Digest>, pos: int, other_pos: int, node: Digest)
    requires
        0 <= pos < leaves.len(),
        0 <= other_pos < leaves.len(),
    ensures
        rerouted(path_of(leaves, pos), pos, path_of(leaves, other_pos), other_pos, node)
            == path_of(leaves.update(other_pos, node), pos),
    decreases leaves.len(),
{
    let path = path_of(leaves, pos);
    let other_path = path_of(leaves, other_pos);
    let changed = leaves.update(other_pos, node);
    lemma_pair_up_update(leaves, other_pos, node);
    if pos / 2 < leaves.len() / 2 {
        assert(path.drop_first() =~= path_of(pair_up(leaves), pos / 2));
        if other_pos / 2 < leaves.len() / 2 {
            let up = parent_of(node, other_pos, leaves[sibling(other_pos)]);
            assert(other_path.drop_first() =~= path_of(pair_up(leaves), other_pos / 2));
            lemma_update_reroutes(pair_up(leaves), pos / 2, other_pos / 2, up);
            lemma_same_leaf_same_path(pair_up(leaves), pos / 2, up);
            if pos == other_pos {
                assert(path_of(changed, pos) =~= path);
            } else if pos / 2 == other_pos / 2 {
                assert(path_of(changed, pos) =~= path.update(0, node));
            } else {
                assert(changed[sibling(pos)] == leaves[sibling(pos)]);
            }
        } else {
            assert(changed[sibling(pos)] == leaves[sibling(pos)]);
        }
    }
}

/// The path of a leaf does not depend on the leaf itself.
pub proof fn lemma_same_leaf_same_path(leaves: Seq<Digest>, pos: int, node: Digest)
    requires
        0 <= pos < leaves.len(),
    ensures
        path_of(leaves.update(pos, node), pos) == path_of(leaves, pos),
    decreases leaves.len(),
{
    let changed = leaves.update(pos, node);
    lemma_pair_up_update(leaves, pos, node);
    if pos / 2 < leaves.len() / 2 {
        lemma_same_leaf_same_path(
            pair_up(leaves),
            pos / 2,
            parent_of(node, pos, leaves[sibling(pos)]),
        );
        assert(changed[sibling(pos)] == leaves[sibling(pos)]);
    }
}

} // verus!
