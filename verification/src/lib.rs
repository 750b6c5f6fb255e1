//! Consensus calling for aligned sequencing reads.
//!
//! The crate accumulates per-position base evidence from aligned reads,
//! admits reads through a quality gate, resolves the accumulated pileup
//! into a consensus sequence, and summarizes per-read metrics as exact
//! rational statistics.

pub mod calculator;
pub mod cli;
pub mod consensus;
pub mod errors;
pub mod indel;
pub mod pileup;
pub mod rational;
pub mod sequence;
pub mod settings;
pub mod stats;
