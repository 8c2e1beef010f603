//! The sliding-window Bloom filter: the bits that removals set.
//!
//! The filter is one long row of bits. Its most recent stretch, the active
//! window, is kept as it is. What lies before the window is cut into chunks
//! of equal length.

pub mod params;
pub mod bits;
