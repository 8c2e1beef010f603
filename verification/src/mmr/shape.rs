//! The shape of a mountain range, as mathematics.
//!
//! A range over `n` leaves is read level by level. Level 0 holds the leaves;
//! each further level holds the parents of the level below, two neighbours to
//! one parent. A level of odd length ends in a node without a parent: a peak.
//! The peaks are kept lowest first, one slot for each level.

use vstd::prelude::*;
use crate::digest::Digest;
use crate::digest::hash_pair_spec;

verus! {

/// The level above `level`: each two neighbours hashed into their parent.
pub open spec fn pair_up(level: Seq<Digest>) -> Seq<Digest> {
    Seq::new(level.len() / 2, |k: int| hash_pair_spec(level[2 * k], level[2 * k + 1]))
}

/// The position of the neighbour with which the node at `pos` shares a parent.
pub open spec fn sibling(pos: int) -> int {
    if pos % 2 == 0 {
        pos + 1
    } else {
        pos - 1
    }
}

/// The parent of `node`, which stands at `pos`, and its neighbour `other`.
pub open spec fn parent_of(node: Digest, pos: int, other: Digest) -> Digest {
    if pos % 2 == 0 {
        hash_pair_spec(node, other)
    } else {
        hash_pair_spec(other, node)
    }
}

/// The peaks of the range over `leaves`, lowest first. Slot `h` holds the root
/// of the perfect tree over 2^h leaves, where the range has such a tree.
pub open spec fn peaks_of(leaves: Seq<Digest>) -> Seq<Option<Digest>>
    decreases leaves.len(),
{
    if leaves.len() == 0 {
        Seq::empty()
    } else {
        let slot = if leaves.len() % 2 == 1 {
            Some(leaves.last())
        } else {
            None
        };
        seq![slot] + peaks_of(pair_up(leaves))
    }
}

/// The authentication path of the node at `pos` of the lowest level: the
/// neighbours met on the way up to its peak, lowest first.
pub open spec fn path_of(leaves: Seq<Digest>, pos: int) -> Seq<Digest>
    decreases leaves.len(),
{
    if 0 <= pos && pos / 2 < leaves.len() / 2 {
        seq![leaves[sibling(pos)]] + path_of(pair_up(leaves), pos / 2)
    } else {
        Seq::empty()
    }
}

/// Whether `slots` has the shape of the peaks of a range whose lowest level
/// holds `count` nodes: one slot for each level, filled where the level is of
/// odd length.
pub open spec fn shaped(slots: Seq<Option<Digest>>, count: nat) -> bool
    decreases slots.len(),
{
    if slots.len() == 0 {
        count == 0
    } else {
        &&& count > 0
        &&& slots[0].is_some() <==> count % 2 == 1
        &&& shaped(slots.drop_first(), count / 2)
    }
}

/// The root reached from `node` at `pos` by hashing in the neighbours of `path`.
pub open spec fn climb(node: Digest, pos: int, path: Seq<Digest>) -> Digest
    decreases path.len(),
{
    if path.len() == 0 {
        node
    } else {
        climb(parent_of(node, pos, path[0]), pos / 2, path.drop_first())
    }
}

/// Whether `path` leads from `node`, at `pos` of a lowest level of `count`
/// nodes, to a peak of `slots`: every step has a parent to go to, and the walk
/// ends at the last node of a level of odd length, whose slot holds the root
/// that the walk has computed.
pub open spec fn authenticates(
    slots: Seq<Option<Digest>>,
    count: nat,
    pos: int,
    node: Digest,
    path: Seq<Digest>,
) -> bool
    decreases path.len(),
{
    if path.len() == 0 {
        &&& slots.len() > 0
        &&& count % 2 == 1
        &&& pos + 1 == count
        &&& slots[0] == Some(node)
    } else {
        &&& slots.len() > 0
        &&& 0 <= pos
        &&& pos / 2 < count / 2
        &&& authenticates(
            slots.drop_first(),
            count / 2,
            pos / 2,
            parent_of(node, pos, path[0]),
            path.drop_first(),
        )
    }
}

/// The peaks after one more node has come to the lowest level. Where the
/// level was of odd length its peak and the new node get a parent, which
/// comes to the level above in the same way.
pub open spec fn carry(slots: Seq<Option<Digest>>, node: Digest) -> Seq<Option<Digest>>
    decreases slots.len(),
{
    if slots.len() == 0 {
        seq![Some(node)]
    } else {
        match slots[0] {
            None => slots.update(0, Some(node)),
            Some(peak) => seq![None] + carry(slots.drop_first(), hash_pair_spec(peak, node)),
        }
    }
}

/// The peaks that a node appended next is hashed with, lowest first: the
/// authentication path that the node has once it is appended.
pub open spec fn merging_peaks(slots: Seq<Option<Digest>>) -> Seq<Digest>
    decreases slots.len(),
{
    if slots.len() == 0 {
        Seq::empty()
    } else {
        match slots[0] {
            None => Seq::empty(),
            Some(peak) => seq![peak] + merging_peaks(slots.drop_first()),
        }
    }
}

/// The authentication path `path` as it is after a node has been appended.
/// `incoming` is what the append brings to the lowest level, if anything. Below
/// its old peak the path stays. Where the old peak gets a parent, the path
/// goes on with what the peak is hashed with from there upwards.
pub open spec fn extended(
    slots: Seq<Option<Digest>>,
    incoming: Option<Digest>,
    path: Seq<Digest>,
) -> Seq<Digest>
    decreases slots.len(),
{
    match incoming {
        None => path,
        Some(node) => {
            if slots.len() == 0 {
                path
            } else if path.len() == 0 {
                seq![node] + merging_peaks(slots.drop_first())
            } else {
                let next = match slots[0] {
                    None => None,
                    Some(peak) => Some(hash_pair_spec(peak, node)),
                };
                seq![path[0]] + extended(slots.drop_first(), next, path.drop_first())
            }
        },
    }
}

/// The peaks after the node at `pos`, whose authentication path is `path`, has
/// been replaced by `node`: the peak above it is computed anew.
pub open spec fn replaced(
    slots: Seq<Option<Digest>>,
    pos: int,
    path: Seq<Digest>,
    node: Digest,
) -> Seq<Option<Digest>> {
    if path.len() < slots.len() && slots[path.len() as int].is_some() {
        slots.update(path.len() as int, Some(climb(node, pos, path)))
    } else {
        slots
    }
}

/// The authentication path `path` of the node at `pos` as it is after the
/// node at `other_pos`, whose path is `other_path`, has been replaced by
/// `node`. Only the step at which the two walks meet changes: there the
/// neighbour is the root computed anew from `node`.
pub open spec fn rerouted(
    path: Seq<Digest>,
    pos: int,
    other_path: Seq<Digest>,
    other_pos: int,
    node: Digest,
) -> Seq<Digest>
    decreases path.len(),
{
    if path.len() == 0 || other_path.len() == 0 || pos == other_pos {
        path
    } else if pos / 2 == other_pos / 2 {
        path.update(0, node)
    } else {
        seq![path[0]] + rerouted(
            path.drop_first(),
            pos / 2,
            other_path.drop_first(),
            other_pos / 2,
            parent_of(node, other_pos, other_path[0]),
        )
    }
}

} // verus!
