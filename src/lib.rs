//! Membership bitsets over the 16-bit universe `0..=65535`, and a scanner
//! that reports which values are absent from such a bitset.

pub mod bitset;
pub mod scan;
pub mod sampler;
