//! Counting and probability.

pub mod probability;
