//! A fixed set of `n` positional slots, each empty or holding one value.

pub mod fixed_set;

pub use fixed_set::FixedSet;
