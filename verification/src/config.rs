//! Configuration module for sequence-based chunking.

use crate::error::ChunkingError;
use crate::{DEFAULT_AVG_BLOCK_SIZE, DEFAULT_JUMP_SIZE, DEFAULT_JUMP_TRIGGER};
use crate::{DEFAULT_MAX_BLOCK_SIZE, DEFAULT_MIN_BLOCK_SIZE, DEFAULT_SEQ_THRESHOLD};
use vstd::prelude::*;

verus! {

/// Which sign of byte difference counts as reinforcing a run.
#[derive(Debug, Copy, Clone, PartialEq, Eq, Structural)]
pub enum SeqOpMode {
    /// Detect increasing byte sequences
    Increasing,
    /// Detect decreasing byte sequences
    Decreasing,
}

impl Default for SeqOpMode {
    /// The default mode detects increasing sequences.
    fn default() -> (r: Self)
        ensures
            r == SeqOpMode::Increasing,
    {
        SeqOpMode::Increasing
    }
}

/// Configuration for the chunking algorithm
#[derive(Debug, Clone)]
pub struct ChunkingConfig {
    /// Number of consecutive sequence bytes needed to trigger a cut
    pub seq_threshold: u64,
    /// Number of opposing slopes before jumping ahead
    pub jump_trigger: u64,
    /// Number of bytes to jump when trigger is hit
    pub jump_size: u64,
    /// Sequence detection mode (increasing or decreasing)
    pub op_mode: SeqOpMode,
    /// Minimum chunk size in bytes
    pub min_block_size: u64,
    /// Target average chunk size in bytes
    pub avg_block_size: u64,
    /// Maximum chunk size in bytes
    pub max_block_size: u64,
}

impl ChunkingConfig {
    /// The configuration invariant: every threshold and size bound that the
    /// scan relies on is positive, and the size bounds are ordered.
    pub open spec fn spec_valid(&self) -> bool {
        &&& self.seq_threshold > 0
        &&& self.min_block_size > 0
        &&& self.max_block_size >= self.min_block_size
        &&& self.jump_size > 0
    }

    /// The default parameter set.
    pub open spec fn spec_default() -> Self {
        ChunkingConfig {
            seq_threshold: DEFAULT_SEQ_THRESHOLD,
            jump_trigger: DEFAULT_JUMP_TRIGGER,
            jump_size: DEFAULT_JUMP_SIZE,
            op_mode: SeqOpMode::Increasing,
            min_block_size: DEFAULT_MIN_BLOCK_SIZE,
            avg_block_size: DEFAULT_AVG_BLOCK_SIZE,
            max_block_size: DEFAULT_MAX_BLOCK_SIZE,
        }
    }

    /// The message of the error that validation reports, naming the first
    /// (in checking order) violated rule. Meaningful only when the
    /// configuration is invalid.
    pub open spec fn spec_validation_message(&self) -> Seq<char> {
        if self.seq_threshold == 0 {
            "seq_threshold must be greater than 0"@
        } else if self.min_block_size == 0 {
            "min_block_size must be greater than 0"@
        } else if self.max_block_size < self.min_block_size {
            "max_block_size must be >= min_block_size"@
        } else {
            "jump_size must be greater than 0"@
        }
    }

    /// Create a new configuration with default values
    pub fn new() -> (r: Self)
        ensures
            r == Self::spec_default(),
    {
        Self::default()
    }

    /// Create a builder for configuring chunking parameters
    pub fn builder() -> (r: ChunkingConfigBuilder)
        ensures
            r.config == Self::spec_default(),
    {
        ChunkingConfigBuilder::new()
    }

    /// Validate the configuration parameters
    pub fn validate(&self) -> (r: Result<(), ChunkingError>)
        ensures
            r is Ok <==> self.spec_valid(),
            r matches Err(e) ==> e matches ChunkingError::InvalidConfig(m)
                && m@ == self.spec_validation_message(),
    {
        if self.seq_threshold == 0 {
            return Err(ChunkingError::invalid_config("seq_threshold must be greater than 0"));
        }

        if self.min_block_size == 0 {
            return Err(ChunkingError::invalid_config("min_block_size must be greater than 0"));
        }

        if self.max_block_size < self.min_block_size {
            return Err(ChunkingError::invalid_config("max_block_size must be >= min_block_size"));
        }

        if self.jump_size == 0 {
            return Err(ChunkingError::invalid_config("jump_size must be greater than 0"));
        }

        Ok(())
    }

    /// Get the sequence threshold
    pub fn seq_threshold(&self) -> (r: u64)
        ensures
            r == self.seq_threshold,
    {
        self.seq_threshold
    }

    /// Get the jump trigger count
    pub fn jump_trigger(&self) -> (r: u64)
        ensures
            r == self.jump_trigger,
    {
        self.jump_trigger
    }

    /// Get the jump size
    pub fn jump_size(&self) -> (r: u64)
        ensures
            r == self.jump_size,
    {
        self.jump_size
    }

    /// Get the operation mode
    pub fn op_mode(&self) -> (r: SeqOpMode)
        ensures
            r == self.op_mode,
    {
        self.op_mode
    }

    /// Get the minimum block size
    pub fn min_block_size(&self) -> (r: u64)
        ensures
            r == self.min_block_size,
    {
        self.min_block_size
    }

    /// Get the average block size
    pub fn avg_block_size(&self) -> (r: u64)
        ensures
            r == self.avg_block_size,
    {
        self.avg_block_size
    }

    /// Get the maximum block size
    pub fn max_block_size(&self) -> (r: u64)
        ensures
            r == self.max_block_size,
    {
        self.max_block_size
    }
}

impl Default for ChunkingConfig {
    /// The default configuration; it satisfies the configuration invariant.
    fn default() -> (r: Self)
        ensures
            r == Self::spec_default(),
    {
        ChunkingConfig {
            seq_threshold: DEFAULT_SEQ_THRESHOLD,
            jump_trigger: DEFAULT_JUMP_TRIGGER,
            jump_size: DEFAULT_JUMP_SIZE,
            op_mode: SeqOpMode::Increasing,
            min_block_size: DEFAULT_MIN_BLOCK_SIZE,
            avg_block_size: DEFAULT_AVG_BLOCK_SIZE,
            max_block_size: DEFAULT_MAX_BLOCK_SIZE,
        }
    }
}

/// Builder pattern for ChunkingConfig
#[derive(Debug)]
pub struct ChunkingConfigBuilder {
    /// The configuration assembled so far.
    pub config: ChunkingConfig,
}

impl ChunkingConfigBuilder {
    /// Create a new builder with default values
    pub fn new() -> (r: Self)
        ensures
            r.config == ChunkingConfig::spec_default(),
    {
        ChunkingConfigBuilder { config: ChunkingConfig::default() }
    }

    /// Set the sequence threshold
    pub fn seq_threshold(self, threshold: u64) -> (r: Self)
        ensures
            r.config == (ChunkingConfig { seq_threshold: threshold, ..self.config }),
    {
        ChunkingConfigBuilder {
            config: ChunkingConfig { seq_threshold: threshold, ..self.config },
        }
    }

    /// Set the jump trigger count
    pub fn jump_trigger(self, trigger: u64) -> (r: Self)
        ensures
            r.config == (ChunkingConfig { jump_trigger: trigger, ..self.config }),
    {
        ChunkingConfigBuilder { config: ChunkingConfig { jump_trigger: trigger, ..self.config } }
    }

    /// Set the jump size
    pub fn jump_size(self, size: u64) -> (r: Self)
        ensures
            r.config == (ChunkingConfig { jump_size: size, ..self.config }),
    {
        ChunkingConfigBuilder { config: ChunkingConfig { jump_size: size, ..self.config } }
    }

    /// Set the operation mode
    pub fn op_mode(self, mode: SeqOpMode) -> (r: Self)
        ensures
            r.config == (ChunkingConfig { op_mode: mode, ..self.config }),
    {
        ChunkingConfigBuilder { config: ChunkingConfig { op_mode: mode, ..self.config } }
    }

    /// Set the minimum block size
    pub fn min_block_size(self, size: u64) -> (r: Self)
        ensures
            r.config == (ChunkingConfig { min_block_size: size, ..self.config }),
    {
        ChunkingConfigBuilder { config: ChunkingConfig { min_block_size: size, ..self.config } }
    }

    /// Set the average block size
    pub fn avg_block_size(self, size: u64) -> (r: Self)
        ensures
            r.config == (ChunkingConfig { avg_block_size: size, ..self.config }),
    {
        ChunkingConfigBuilder { config: ChunkingConfig { avg_block_size: size, ..self.config } }
    }

    /// Set the maximum block size
    pub fn max_block_size(self, size: u64) -> (r: Self)
        ensures
            r.config == (ChunkingConfig { max_block_size: size, ..self.config }),
    {
        ChunkingConfigBuilder { config: ChunkingConfig { max_block_size: size, ..self.config } }
    }

    /// Build the configuration, validating parameters
    pub fn build(self) -> (r: Result<ChunkingConfig, ChunkingError>)
        ensures
            r is Ok <==> self.config.spec_valid(),
            r matches Ok(c) ==> c == self.config,
            r matches Err(e) ==> e matches ChunkingError::InvalidConfig(m)
                && m@ == self.config.spec_validation_message(),
    {
        match self.config.validate() {
            Ok(()) => Ok(self.config),
            Err(e) => Err(e),
        }
    }

    /// Build the configuration without validation
    pub fn build_unchecked(self) -> (r: ChunkingConfig)
        ensures
            r == self.config,
    {
        self.config
    }
}

impl Default for ChunkingConfigBuilder {
    /// A default builder holds the default configuration.
    fn default() -> (r: Self)
        ensures
            r.config == ChunkingConfig::spec_default(),
    {
        ChunkingConfigBuilder::new()
    }
}

} // verus!
