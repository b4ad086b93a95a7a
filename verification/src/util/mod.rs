//! Sequence and timestamp sources used by the replacers.

pub mod timestamp_generator;
pub mod unique_sequence;
