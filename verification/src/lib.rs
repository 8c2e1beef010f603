//! A mutator set: a cryptographic accumulator for the unspent outputs of a
//! chain, together with the small rule sets of the node that surrounds it.
//!
//! The set is made of two parts. The commitments to all items ever added
//! stand in an append-only list, kept as a Merkle mountain range ([`mmr`]).
//! The removals stand in a sliding-window Bloom filter ([`swbf`]): a removal
//! sets the bits of its item, and an item is in the set as long as none of
//! its bits is set. [`mutator_set`] puts the two together, in a light form
//! that keeps peaks and window only, and in a full form that keeps every
//! commitment and every chunk of the filter, and it states what holds
//! between the two.
//!
//! Hashing is that of the twenty-first crate ([`digest`]). What is known of a
//! hash here is that it is a function of what is hashed; nothing rests on
//! hashes being hard to invert or to make collide. So every statement on
//! proofs is one on proofs that were honestly made: such proofs are accepted,
//! and stay accepted when they are brought up to date.
//!
//! [`models`], [`rpc`] and [`tx_pool`] hold what the node around the set
//! decides and computes: the messages between its tasks, the fields of a
//! block, the answers of its HTTP interface, the rules of its pool of
//! transactions.

pub mod digest;
pub mod error;
pub mod mmr;
pub mod models;
pub mod mutator_set;
pub mod rpc;
pub mod swbf;
pub mod text;
pub mod tx_pool;
