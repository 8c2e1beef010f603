//! What the HTTP interface of a node decides and computes, apart from the
//! requests and answers themselves.

pub mod block_selector;
pub mod blocks;
pub mod membership;
pub mod mempool;
pub mod send;
pub mod status;
