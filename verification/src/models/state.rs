//! What a node holds while it runs.

pub mod mining_state;
