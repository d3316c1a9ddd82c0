//! Streaming extraction of sequencing reads: statistics, segment filtering,
//! record encoding, row partitioning and output planning.
use vstd::prelude::*;

pub mod text;
pub mod stats;
pub mod error;
pub mod segment;
pub mod filter;
pub mod encode;
pub mod worker;
pub mod partition;
pub mod output;
pub mod cli;
pub mod recode;
pub mod prefetch;
pub mod order;

verus! {

/// Size of the byte buffers that sit in front of each output handle.
pub const BUFFER_SIZE: usize = 1048576;

/// Number of spots a worker processes between two hand-offs of its buffers.
pub const RECORD_CAPACITY: usize = 1024;

} // verus!
