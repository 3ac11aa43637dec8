//! Parsed types for versioned, immutable Bloom source shards.
//!
//! JSON shard keys have the form
//! `bloom/source/v1/{generation}/{kind}/{first_id}/{last_id}/{anchor_ts}.json`. Ordinary shard
//! ranges must not overlap; bootstrap shards are overlays and may overlap other ranges.

pub mod index;
pub mod key;
pub mod order;
pub mod shard;

pub use index::ShardIndex;
pub use key::{ShardKey, ShardKind};
pub use shard::{validate_records, SourceRecord, SourceShard, SOURCE_SHARD_FLUSH_ROWS};
