//! Versioned Bloom-filter snapshot and manifest formats.
//!
//! There are three kinds of parameters:
//!
//! - The [`FilterDefinition`] version changes how bytes are interpreted. A version bump creates a
//!   separate namespace for incompatible snapshots.
//! - [`BloomParameters`] is configuration carried by each manifest and retained by the decoded
//!   filter. The snapshot header repeats the bit count and the probe count; decoding requires
//!   those dimensions to match the manifest before allocating the body.
//! - The build time and the source cursor describe one build and do not affect compatibility.
//!
//! The number of inserted items is deliberately not part of the format: what matters for
//! correctness is the false-positive rate, and both it and the distinct-item estimate are
//! calculated from the set bits.

pub mod bits;
pub mod error;
pub mod filter;
pub mod format_laws;
pub mod header;
pub mod laws;
pub mod manifest;
pub mod parameters;
pub mod power;
pub mod probe;
pub mod source;
pub mod stream;
pub mod stream_laws;
pub mod wire;

pub use error::BloomError;
pub use filter::{BloomSnapshotStats, ConcurrentBloomFilter, EncodedBloomSnapshot};
pub use header::{SNAPSHOT_HEADER_LEN, SNAPSHOT_MAGIC};
pub use manifest::SnapshotManifest;
pub use parameters::{BloomParameters, Dimensions, FilterDefinition, Rate, MAX_PROBE_COUNT};
pub use probe::decode_store_path_hash;
pub use stream::SnapshotDecoder;
