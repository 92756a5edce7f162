//! A binary hash tree over an ordered sequence of byte strings, stored level
//! by level in one flat vector, with the digest function left to the caller.

pub mod hasher;
pub mod levels;
pub mod sizing;
pub mod merkle_tree;
