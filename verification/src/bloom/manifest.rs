//! The manifest that names and describes one snapshot object.

use crate::bloom::error::BloomError;
use crate::bloom::filter::{ConcurrentBloomFilter, EncodedBloomSnapshot};
use crate::bloom::parameters::{BloomParameters, CURRENT_DEFINITION_VERSION};
use crate::generation::Generation;
use crate::outside::{hex_encode, sha256_digest};
use crate::text::hex_text;
use vstd::prelude::*;

verus! {

/// Metadata identifying and validating one snapshot object.
#[derive(Clone, Debug, PartialEq)]
pub struct SnapshotManifest {
    pub version: u8,
    pub object_key: Vec<u8>,
    pub body_checksum: String,
    pub parameters: BloomParameters,
    pub source_generation: Generation,
    /// The snapshot's source cursor within `source_generation`.
    pub source_max_row_id: u64,
    /// Unix timestamp from which updates after this snapshot may be required.
    pub replay_from: u64,
}

/// Why a manifest version is refused, if it is.
pub open spec fn definition_refusal(version: u8) -> Option<BloomError> {
    if version != CURRENT_DEFINITION_VERSION {
        Some(
            BloomError::IncompatibleDefinition {
                expected: CURRENT_DEFINITION_VERSION,
                actual: version,
            },
        )
    } else {
        None
    }
}

/// What a manifest that was read from JSON is decoded to: itself where its version is the current
/// one, and the error otherwise.
pub open spec fn decoded_manifest(parsed: Result<SnapshotManifest, serde_json::Error>) -> Result<
    SnapshotManifest,
    BloomError,
> {
    match parsed {
        Ok(manifest) => match definition_refusal(manifest.version) {
            Some(error) => Err(error),
            None => Ok(manifest),
        },
        Err(error) => Err(BloomError::ManifestJson(error)),
    }
}

impl SnapshotManifest {
    /// The manifest names these values of a snapshot.
    pub open spec fn describes(
        self,
        parameters: BloomParameters,
        source_max_row_id: u64,
        body_checksum: Seq<u8>,
    ) -> bool {
        &&& self.body_checksum@ == hex_text(body_checksum)
        &&& self.parameters == parameters
        &&& self.source_max_row_id == source_max_row_id
    }

    /// Why the manifest does not fit a snapshot, if it does not.
    pub open spec fn snapshot_refusal(
        self,
        parameters: BloomParameters,
        source_max_row_id: u64,
        body_checksum: Seq<u8>,
    ) -> Option<BloomError> {
        match definition_refusal(self.version) {
            Some(error) => Some(error),
            None => if self.describes(parameters, source_max_row_id, body_checksum) {
                None
            } else {
                Some(BloomError::ManifestSnapshotMismatch)
            },
        }
    }

    /// The manifest of a snapshot that is still in memory.
    pub fn for_snapshot(
        snapshot: &ConcurrentBloomFilter,
        object_key: Vec<u8>,
        source_generation: Generation,
        replay_from: u64,
    ) -> (manifest: Self)
        requires
            snapshot.wf(),
        ensures
            manifest.version == CURRENT_DEFINITION_VERSION,
            manifest.object_key == object_key,
            manifest.source_generation == source_generation,
            manifest.replay_from == replay_from,
            manifest.describes(
                snapshot@.parameters,
                snapshot@.source_max_row_id,
                sha256_digest(snapshot@.body)@,
            ),
    {
        Self::new(
            object_key,
            snapshot.source_max_row_id(),
            snapshot.body_checksum_hex(),
            snapshot.parameters(),
            source_generation,
            replay_from,
        )
    }

    /// The manifest of an encoded snapshot.
    pub fn for_encoded_snapshot(
        encoded: &EncodedBloomSnapshot,
        object_key: Vec<u8>,
        source_generation: Generation,
        replay_from: u64,
    ) -> (manifest: Self)
        ensures
            manifest.version == CURRENT_DEFINITION_VERSION,
            manifest.object_key == object_key,
            manifest.source_generation == source_generation,
            manifest.replay_from == replay_from,
            manifest.describes(
                encoded@.parameters,
                encoded@.source_max_row_id,
                encoded@.body_checksum,
            ),
    {
        Self::new(
            object_key,
            encoded.source_max_row_id(),
            encoded.body_checksum_hex(),
            encoded.parameters(),
            source_generation,
            replay_from,
        )
    }

    fn new(
        object_key: Vec<u8>,
        source_max_row_id: u64,
        body_checksum: String,
        parameters: BloomParameters,
        source_generation: Generation,
        replay_from: u64,
    ) -> (manifest: Self)
        ensures
            manifest == (SnapshotManifest {
                version: CURRENT_DEFINITION_VERSION,
                object_key,
                body_checksum,
                parameters,
                source_generation,
                source_max_row_id,
                replay_from,
            }),
    {
        SnapshotManifest {
            version: CURRENT_DEFINITION_VERSION,
            object_key,
            body_checksum,
            parameters,
            source_generation,
            source_max_row_id,
            replay_from,
        }
    }

    /// Frames a manifest that was written as JSON: a newline ends it.
    pub fn encode(serialized: Result<Vec<u8>, serde_json::Error>) -> (r: Result<
        Vec<u8>,
        BloomError,
    >)
        ensures
            match serialized {
                Ok(json) => r matches Ok(encoded) && encoded@ == json@.push(0x0a),
                Err(error) => r == Err::<Vec<u8>, BloomError>(BloomError::ManifestJson(error)),
            },
    {
        match serialized {
            Ok(json) => {
                let mut encoded = json;
                encoded.push(0x0a);
                Ok(encoded)
            },
            Err(error) => Err(BloomError::ManifestJson(error)),
        }
    }

    /// Accepts a manifest that was read from JSON, if its version is the current one.
    pub fn decode(parsed: Result<SnapshotManifest, serde_json::Error>) -> (r: Result<
        Self,
        BloomError,
    >)
        ensures
            r == decoded_manifest(parsed),
    {
        match parsed {
            Ok(manifest) => match manifest.validate_definition() {
                Ok(_) => Ok(manifest),
                Err(error) => Err(error),
            },
            Err(error) => Err(BloomError::ManifestJson(error)),
        }
    }

    /// Checks that the manifest describes a snapshot.
    pub fn validate_snapshot(&self, snapshot: &ConcurrentBloomFilter) -> (r: Result<
        (),
        BloomError,
    >)
        requires
            snapshot.wf(),
        ensures
            r == (match self.snapshot_refusal(
                snapshot@.parameters,
                snapshot@.source_max_row_id,
                sha256_digest(snapshot@.body)@,
            ) {
                Some(error) => Err::<(), BloomError>(error),
                None => Ok::<(), BloomError>(()),
            }),
    {
        self.validate_snapshot_parts(
            snapshot.parameters(),
            snapshot.source_max_row_id(),
            snapshot.body_checksum(),
        )
    }

    /// Checks that the manifest describes a snapshot with these values.
    pub fn validate_snapshot_parts(
        &self,
        parameters: BloomParameters,
        source_max_row_id: u64,
        body_checksum: [u8; 32],
    ) -> (r: Result<(), BloomError>)
        ensures
            r == (match self.snapshot_refusal(parameters, source_max_row_id, body_checksum@) {
                Some(error) => Err::<(), BloomError>(error),
                None => Ok::<(), BloomError>(()),
            }),
    {
        match self.validate_definition() {
            Ok(_) => {},
            Err(error) => {
                return Err(error);
            },
        }
        let expected = hex_encode(body_checksum.as_slice());
        if self.body_checksum != expected || self.parameters != parameters
            || self.source_max_row_id != source_max_row_id {
            return Err(BloomError::ManifestSnapshotMismatch);
        }
        Ok(())
    }

    /// Validates the manifest version.
    pub fn validate_definition(&self) -> (r: Result<(), BloomError>)
        ensures
            r == (match definition_refusal(self.version) {
                Some(error) => Err::<(), BloomError>(error),
                None => Ok::<(), BloomError>(()),
            }),
    {
        if self.version != CURRENT_DEFINITION_VERSION {
            return Err(
                BloomError::IncompatibleDefinition {
                    expected: CURRENT_DEFINITION_VERSION,
                    actual: self.version,
                },
            );
        }
        Ok(())
    }
}

} // verus!
