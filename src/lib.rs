//! Placeholder merging of paired-end sequence reads.
//!
//! Each pair of records read in lockstep from two streams is turned into one
//! synthesized record: the first read, a spacer, and the reverse complement of
//! the second read. The work is done chunk by chunk, in input order.

pub mod dna;
pub mod record;
pub mod merge;
pub mod pipeline;
pub mod reader;
