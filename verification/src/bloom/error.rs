//! Errors of the Bloom filter operations.

use crate::bloom::parameters::Rate;
use vstd::prelude::*;

verus! {

/// An error of a Bloom filter operation.
#[derive(Debug)]
pub enum BloomError {
    /// Invalid magic bytes.
    InvalidMagic { actual: [u8; 4] },
    /// A snapshot shorter than its header.
    Truncated { expected_at_least: usize, actual: usize },
    /// Incompatible definition version.
    IncompatibleDefinition { expected: u8, actual: u8 },
    /// The bit count must be a byte-aligned power of two.
    InvalidBitCount { m_bits: u64 },
    /// The probe count must be between 1 and 64.
    InvalidProbeCount { k: u8 },
    /// The maximum heartbeat interval must be greater than zero.
    InvalidHeartbeatInterval,
    /// The maximum accepted false-positive rate must be finite and between 0 and 1.
    InvalidFalsePositiveRate { rate: Rate },
    /// A filter that does not fit in memory.
    TooLarge { m_bits: u64 },
    /// Snapshot dimensions that do not match the configured dimensions.
    SnapshotParameterMismatch {
        expected_m_bits: u64,
        expected_k: u8,
        actual_m_bits: u64,
        actual_k: u8,
    },
    /// Invalid body length.
    InvalidBodyLength { expected: usize, actual: usize },
    /// Body checksum mismatch.
    ChecksumMismatch { expected: String, actual: String },
    /// An estimated false-positive rate above the safety limit.
    ExcessiveFalsePositiveRate { estimated_fpr: Rate, limit: Rate },
    /// A store path hash that does not decode to 20 bytes.
    InvalidStorePathHash { hash: String },
    /// Positions for a smaller filter than this one.
    IncompatiblePositions { event_m_bits: u64, filter_m_bits: u64 },
    /// Fewer probe positions than this filter's probe count.
    InsufficientPositions { count: usize, k: u8 },
    /// The position count must be between 1 and 64.
    InvalidPositionCount { count: usize },
    /// A position out of range for the bit count.
    PositionOutOfRange { position: u64, m_bits: u64 },
    /// Invalid manifest JSON.
    ManifestJson(serde_json::Error),
    /// The manifest does not describe the decoded snapshot.
    ManifestSnapshotMismatch,
    /// Invalid source shard key.
    InvalidShardKey { key: Vec<u8> },
    /// Invalid source shard bounds.
    InvalidShardBounds { first_id: u64, last_id: u64 },
    /// Invalid source shard JSON.
    ShardJson(serde_json::Error),
    /// Source shards must not be empty.
    EmptyShard,
    /// A source shard with more records than one shard may hold.
    OversizedShard { count: usize },
    /// Source shard row IDs are not strictly increasing.
    NonMonotonicShardRows,
    /// Source shard contents do not match the bounds of the key.
    ShardBoundsMismatch { key: Vec<u8> },
    /// A source shard that overlaps another shard of its generation.
    ShardOverlap { key: Vec<u8> },
    /// A source shard that does not belong to the expected generation.
    WrongShardGeneration { key: Vec<u8>, expected: String },
}

} // verus!
