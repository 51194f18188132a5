//! Sequence-based content-defined chunking.
//!
//! The library splits a byte buffer into variable-length, content-aligned
//! chunks. A cutpoint finder scans for monotonic byte runs (increasing or
//! decreasing, per configuration) and declares a chunk boundary once a run of
//! `seq_threshold` reinforcing comparisons is seen; runs of identical bytes
//! are absorbed, and regions with too many opposing comparisons are skipped
//! over in jumps. Chunk sizes are kept between `min_block_size` and
//! `max_block_size` (the final chunk may be shorter).

use vstd::prelude::*;

pub mod chunker;
pub mod config;
pub mod error;
pub mod laws;
pub mod utils;

pub use chunker::{Chunk, ChunkIterator, ChunkingStats, SeqChunking};
pub use config::{ChunkingConfig, ChunkingConfigBuilder, SeqOpMode};
pub use error::ChunkingError;
pub use utils::{TestDataGenerator, ValidationUtils};

verus! {

/// Default sequence length threshold
pub const DEFAULT_SEQ_THRESHOLD: u64 = 5;

/// Default jump trigger count
pub const DEFAULT_JUMP_TRIGGER: u64 = 50;

/// Default jump size when trigger is hit
pub const DEFAULT_JUMP_SIZE: u64 = 256;

/// Default minimum block size
pub const DEFAULT_MIN_BLOCK_SIZE: u64 = 4096;

/// Default average block size
pub const DEFAULT_AVG_BLOCK_SIZE: u64 = 8192;

/// Default maximum block size
pub const DEFAULT_MAX_BLOCK_SIZE: u64 = 16384;

} // verus!
