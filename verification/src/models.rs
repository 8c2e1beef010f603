//! What the tasks of a node say to each other, and the fields of a block.

pub mod block_header;
pub mod block_info;
pub mod block_kernel;
pub mod channel;
pub mod state;
