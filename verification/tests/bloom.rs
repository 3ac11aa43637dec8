use flakehub_cache_types::bloom::filter::{BloomSnapshotStats, ConcurrentBloomFilter};
use flakehub_cache_types::bloom::header::{DecodedSnapshotHeader, SnapshotHeader};
use flakehub_cache_types::bloom::wire::{ProbePositions, UncheckedPositions};
use flakehub_cache_types::bloom::{
    decode_store_path_hash, BloomError, BloomParameters, Dimensions, FilterDefinition, Rate,
    SnapshotDecoder, SnapshotManifest, MAX_PROBE_COUNT, SNAPSHOT_HEADER_LEN, SNAPSHOT_MAGIC,
};
use flakehub_cache_types::generation::Generation;
use flakehub_cache_types::nix_store::StorePathHash;
use serde_json::Value;

fn hash_a() -> StorePathHash {
    StorePathHash::new("ia70ss13m22znbl8khrf2hq72qmh5drr").unwrap()
}

fn hash_b() -> StorePathHash {
    StorePathHash::new("00000000000000000000000000000000").unwrap()
}

fn rate(value: f64) -> Rate {
    Rate {
        bits: value.to_bits(),
    }
}

fn estimate(stats: BloomSnapshotStats) -> Rate {
    let fill_ratio = stats.set_bits as f64 / stats.m_bits as f64;
    rate(fill_ratio.powi(i32::from(stats.k)))
}

fn parameters(m_bits: u64, probe_count: u8) -> BloomParameters {
    parameters_with_fpr(m_bits, probe_count, 0.001)
}

fn parameters_with_fpr(
    m_bits: u64,
    probe_count: u8,
    max_accepted_false_positive_rate: f64,
) -> BloomParameters {
    BloomParameters::new(
        m_bits,
        probe_count,
        6 * 60 * 60,
        5 * 60,
        rate(max_accepted_false_positive_rate),
    )
    .unwrap()
}

fn positions(m_bits: u64, positions: Vec<u64>) -> ProbePositions {
    ProbePositions::try_from(UncheckedPositions { m_bits, positions }).unwrap()
}

fn generation() -> Generation {
    Generation {
        id: uuid::Uuid::parse_str("019bf5a7-f6e8-7ac0-b973-8536596bdb45")
            .unwrap()
            .as_u128(),
    }
}

fn location() -> Vec<u8> {
    b"producer-chosen/location".to_vec()
}

fn text(bytes: &[u8]) -> Value {
    Value::from(String::from_utf8(bytes.to_vec()).unwrap())
}

fn parameters_to_value(parameters: BloomParameters) -> Value {
    let mut map = serde_json::Map::new();
    map.insert("m-bits".to_owned(), Value::from(parameters.m_bits()));
    map.insert(
        "probe-count".to_owned(),
        Value::from(parameters.probe_count()),
    );
    map.insert(
        "max-heartbeat-interval-seconds".to_owned(),
        Value::from(parameters.max_heartbeat_interval()),
    );
    map.insert(
        "clock-skew-slack-seconds".to_owned(),
        Value::from(parameters.clock_skew_slack()),
    );
    map.insert(
        "max-accepted-false-positive-rate".to_owned(),
        Value::from(f64::from_bits(
            parameters.max_accepted_false_positive_rate().bits,
        )),
    );
    Value::Object(map)
}

fn number(value: &Value, field: &'static str) -> Result<u64, serde_json::Error> {
    value
        .get(field)
        .and_then(Value::as_u64)
        .ok_or_else(|| <serde_json::Error as serde::de::Error>::missing_field(field))
}

fn parameters_from_value(value: &Value) -> Result<BloomParameters, serde_json::Error> {
    if value.as_object().map(|map| map.len()) != Some(5) {
        return Err(<serde_json::Error as serde::de::Error>::custom("fields"));
    }
    let max_rate = value
        .get("max-accepted-false-positive-rate")
        .and_then(Value::as_f64)
        .ok_or_else(|| <serde_json::Error as serde::de::Error>::missing_field("rate"))?;
    BloomParameters::new(
        number(value, "m-bits")?,
        u8::try_from(number(value, "probe-count")?).unwrap(),
        number(value, "max-heartbeat-interval-seconds")?,
        number(value, "clock-skew-slack-seconds")?,
        rate(max_rate),
    )
    .map_err(|error| <serde_json::Error as serde::de::Error>::custom(format!("{error:?}")))
}

fn manifest_to_json(manifest: &SnapshotManifest) -> Result<Vec<u8>, serde_json::Error> {
    let mut map = serde_json::Map::new();
    map.insert("version".to_owned(), Value::from(manifest.version));
    map.insert("object_key".to_owned(), text(&manifest.object_key));
    map.insert(
        "body_checksum".to_owned(),
        Value::from(manifest.body_checksum.clone()),
    );
    map.insert(
        "parameters".to_owned(),
        parameters_to_value(manifest.parameters),
    );
    map.insert(
        "source_generation".to_owned(),
        Value::from(manifest.source_generation.to_string()),
    );
    map.insert(
        "source_max_row_id".to_owned(),
        Value::from(manifest.source_max_row_id),
    );
    map.insert("replay_from".to_owned(), Value::from(manifest.replay_from));
    serde_json::to_vec(&Value::Object(map))
}

fn manifest_from_json(encoded: &[u8]) -> Result<SnapshotManifest, serde_json::Error> {
    let value: Value = serde_json::from_slice(encoded)?;
    let missing = <serde_json::Error as serde::de::Error>::missing_field;
    Ok(SnapshotManifest {
        version: u8::try_from(number(&value, "version")?).unwrap(),
        object_key: value
            .get("object_key")
            .and_then(Value::as_str)
            .ok_or_else(|| missing("object_key"))?
            .as_bytes()
            .to_vec(),
        body_checksum: value
            .get("body_checksum")
            .and_then(Value::as_str)
            .ok_or_else(|| missing("body_checksum"))?
            .to_owned(),
        parameters: parameters_from_value(
            value.get("parameters").ok_or_else(|| missing("parameters"))?,
        )?,
        source_generation: Generation {
            id: uuid::Uuid::parse_str(
                value
                    .get("source_generation")
                    .and_then(Value::as_str)
                    .ok_or_else(|| missing("source_generation"))?,
            )
            .unwrap()
            .as_u128(),
        },
        source_max_row_id: number(&value, "source_max_row_id")?,
        replay_from: number(&value, "replay_from")?,
    })
}

fn encode_manifest(manifest: &SnapshotManifest) -> Vec<u8> {
    SnapshotManifest::encode(manifest_to_json(manifest)).unwrap()
}

fn decode_manifest(encoded: &[u8]) -> Result<SnapshotManifest, BloomError> {
    SnapshotManifest::decode(manifest_from_json(encoded))
}

fn decode_chunks(
    manifest: &SnapshotManifest,
    encoded: &[u8],
    size: usize,
) -> Result<(ConcurrentBloomFilter, BloomSnapshotStats), BloomError> {
    let chunks: Vec<&[u8]> = encoded.chunks(size).collect();
    ConcurrentBloomFilter::decode_with_manifest(manifest, &chunks, estimate)
}

fn decode_once(
    manifest: &SnapshotManifest,
    encoded: &[u8],
) -> Result<(ConcurrentBloomFilter, BloomSnapshotStats), BloomError> {
    ConcurrentBloomFilter::decode_with_manifest(manifest, &[encoded], estimate)
}

fn filter_with_a() -> ConcurrentBloomFilter {
    let parameters = parameters(1024, 10);
    let mut filter = ConcurrentBloomFilter::new(parameters, 123).unwrap();
    let positions = ProbePositions::of(&hash_a(), parameters).unwrap();
    filter.insert_positions(&positions).unwrap();
    filter
}

#[test]
fn inserted_items_are_never_negative_and_duplicates_are_free() {
    let parameters = parameters(1024, 10);
    let mut filter = ConcurrentBloomFilter::new(parameters, 123).unwrap();
    let positions = ProbePositions::of(&hash_a(), parameters).unwrap();
    filter.insert_positions(&positions).unwrap();
    let after_first = filter.copied_bits();
    filter.insert_positions(&positions).unwrap();

    assert!(filter.contains(&hash_a()).unwrap());
    assert!(!filter.contains(&hash_b()).unwrap());
    assert_eq!(filter.copied_bits(), after_first);
}

#[test]
fn concurrent_filter_probes_and_inserts() {
    let parameters = parameters(1024, 10);
    let mut filter = ConcurrentBloomFilter::new(parameters, 123).unwrap();
    let positions = ProbePositions::of(&hash_a(), parameters).unwrap();
    filter.insert_positions(&positions).unwrap();

    assert!(filter.contains(&hash_a()).unwrap());
    assert!(!filter.contains(&hash_b()).unwrap());
    assert_eq!(filter.built_at(), 123);

    let positions = ProbePositions::of(&hash_b(), parameters).unwrap();
    filter.insert_positions(&positions).unwrap();
    assert!(filter.contains(&hash_b()).unwrap());
}

#[test]
fn insertion_invalidates_a_decoded_snapshot_checksum() {
    let parameters = parameters(1024, 10);
    let source = ConcurrentBloomFilter::new(parameters, 123).unwrap();
    let mut decoded =
        ConcurrentBloomFilter::decode(parameters, &source.encode(), estimate).unwrap();
    let empty_checksum = decoded.body_checksum();

    let positions = ProbePositions::of(&hash_a(), parameters).unwrap();
    decoded.insert_positions(&positions).unwrap();

    assert_ne!(decoded.body_checksum(), empty_checksum);
}

/// Positions calculated for an equal or larger filter mask down to exactly the positions this
/// filter calculates itself, so a probe of the same hash turns positive.
#[test]
fn streamed_positions_mask_down_to_local_probes() {
    let mut filter = ConcurrentBloomFilter::new(parameters(1024, 10), 123).unwrap();

    let larger_parameters = parameters(1 << 20, 12);
    let positions = ProbePositions::of(&hash_a(), larger_parameters).unwrap();

    filter.insert_positions(&positions).unwrap();
    assert!(filter.contains(&hash_a()).unwrap());
    assert!(!filter.contains(&hash_b()).unwrap());
}

/// Positions calculated for a smaller filter have discarded high bits, so the record is rejected
/// and no bit changes.
#[test]
fn positions_from_a_smaller_filter_are_rejected() {
    let mut filter = ConcurrentBloomFilter::new(parameters(1024, 10), 123).unwrap();
    let empty_bits = filter.copied_bits();

    // Valid in itself, but calculated against a smaller filter.
    let positions = positions(8, vec![3]);

    assert!(matches!(
        filter.insert_positions(&positions),
        Err(BloomError::IncompatiblePositions {
            event_m_bits: 8,
            filter_m_bits: 1024,
        })
    ));
    assert_eq!(filter.copied_bits(), empty_bits);
}

#[test]
fn positions_with_fewer_probes_than_the_filter_are_rejected() {
    let mut filter = ConcurrentBloomFilter::new(parameters(1024, 10), 123).unwrap();
    let empty_bits = filter.copied_bits();

    // Valid in itself, but calculated with a smaller probe count: applying it would leave probe
    // bits 10 and higher unset, leading to a false negative.
    let positions = positions(1024, vec![1, 2, 3, 4]);

    assert!(matches!(
        filter.insert_positions(&positions),
        Err(BloomError::InsufficientPositions { count: 4, k: 10 })
    ));
    assert_eq!(filter.copied_bits(), empty_bits);
}

/// A concurrent filter round-trips through a snapshot: the copy keeps the source bits and the live
/// inserts, carries the caller's freshness time, and encodes into decodable bytes.
#[test]
fn concurrent_filter_round_trips_through_a_snapshot() {
    let parameters = parameters(1024, 10);
    let mut filter = ConcurrentBloomFilter::new(parameters, 123).unwrap();
    let positions = ProbePositions::of(&hash_a(), parameters).unwrap();
    filter.insert_positions(&positions).unwrap();
    filter.set_source_max_row_id(456);

    let positions = ProbePositions::of(&hash_b(), parameters).unwrap();
    filter.insert_positions(&positions).unwrap();

    let copy = filter.to_snapshot(789);
    assert_eq!(copy.built_at(), 789);
    assert_eq!(copy.source_max_row_id(), 456);

    let decoded = ConcurrentBloomFilter::decode(parameters, &copy.encode(), estimate).unwrap();
    assert!(decoded.contains(&hash_a()).unwrap());
    assert!(decoded.contains(&hash_b()).unwrap());

    let streamed = copy.encode_with_checksum().into_bytes();
    assert_eq!(streamed, copy.encode());
}

#[test]
fn snapshot_and_manifest_round_trip() {
    let parameters = parameters(1024, 10);
    let mut snapshot = ConcurrentBloomFilter::new(parameters, 123).unwrap();
    let positions = ProbePositions::of(&hash_a(), parameters).unwrap();
    snapshot.insert_positions(&positions).unwrap();
    snapshot.set_source_max_row_id(456);

    let encoded = snapshot.encode_with_checksum();
    assert!(encoded.as_bytes().starts_with(&SNAPSHOT_MAGIC));
    assert_eq!(encoded.as_bytes(), snapshot.encode());

    let decoded =
        ConcurrentBloomFilter::decode(parameters, encoded.as_bytes(), estimate).unwrap();
    // The encoded value owns the metadata from its header, so later changes to the source filter
    // cannot produce a manifest that disagrees with the encoded bytes.
    snapshot.set_source_max_row_id(789);
    let generation = generation();
    let manifest = SnapshotManifest::for_encoded_snapshot(
        &encoded,
        location(),
        generation,
        1_700_000_000,
    );
    let decoded_manifest = decode_manifest(&encode_manifest(&manifest)).unwrap();
    decoded_manifest.validate_snapshot(&decoded).unwrap();
    let (concurrent, stats) = decode_chunks(&decoded_manifest, encoded.as_bytes(), 7).unwrap();

    assert!(decoded.contains(&hash_a()).unwrap());
    assert!(concurrent.contains(&hash_a()).unwrap());
    assert_eq!(stats, snapshot.stats());
    assert_eq!(decoded.built_at(), 123);
    assert_eq!(concurrent.built_at(), 123);
    assert_eq!(decoded.source_max_row_id(), 456);
    assert_eq!(concurrent.source_max_row_id(), 456);
    assert_eq!(decoded_manifest.source_generation, generation);
    assert_eq!(decoded_manifest.source_max_row_id, 456);
    assert_eq!(decoded_manifest.replay_from, 1_700_000_000);
    assert_eq!(decoded_manifest.parameters, parameters);
    assert_eq!(concurrent.parameters(), parameters);

    // Parameters and the replay timestamp are required manifest metadata.
    for required in ["parameters", "replay_from"] {
        let mut incomplete: Value = serde_json::from_slice(&encode_manifest(&manifest)).unwrap();
        incomplete
            .as_object_mut()
            .unwrap()
            .remove(required)
            .unwrap();
        decode_manifest(&serde_json::to_vec(&incomplete).unwrap()).unwrap_err();
    }
}

#[test]
fn corruption_is_rejected() {
    let parameters = parameters(1024, 10);
    let snapshot = ConcurrentBloomFilter::new(parameters, 123).unwrap();
    let manifest =
        SnapshotManifest::for_snapshot(&snapshot, location(), generation(), 1_700_000_000);
    let mut encoded = snapshot.encode();
    encoded[SNAPSHOT_HEADER_LEN] ^= 1;

    assert!(matches!(
        ConcurrentBloomFilter::decode(parameters, &encoded, estimate),
        Err(BloomError::ChecksumMismatch { .. })
    ));
    assert!(matches!(
        decode_once(&manifest, &encoded),
        Err(BloomError::ChecksumMismatch { .. })
    ));
}

#[test]
fn manifest_aware_decode_rejects_wrong_manifest_and_lengths() {
    let mut snapshot = ConcurrentBloomFilter::new(parameters(1024, 10), 123).unwrap();
    snapshot.set_source_max_row_id(456);
    let encoded = snapshot.encode_with_checksum();
    let manifest = SnapshotManifest::for_encoded_snapshot(
        &encoded,
        location(),
        generation(),
        1_700_000_000,
    );

    decode_manifest(&encode_manifest(&manifest)).unwrap();
    decode_once(&manifest, encoded.as_bytes()).unwrap();

    let mut wrong_manifest = manifest.clone();
    wrong_manifest.body_checksum = "0".repeat(64);
    assert!(matches!(
        decode_once(&wrong_manifest, encoded.as_bytes()),
        Err(BloomError::ManifestSnapshotMismatch)
    ));

    let mut wrong_manifest = manifest.clone();
    wrong_manifest.parameters = parameters(2048, 10);
    assert!(matches!(
        decode_once(&wrong_manifest, encoded.as_bytes()),
        Err(BloomError::SnapshotParameterMismatch { .. })
    ));

    assert!(matches!(
        decode_once(&manifest, &encoded.as_bytes()[..SNAPSHOT_HEADER_LEN - 1]),
        Err(BloomError::Truncated { .. })
    ));
    assert!(matches!(
        decode_once(
            &manifest,
            &encoded.as_bytes()[..encoded.as_bytes().len() - 1]
        ),
        Err(BloomError::InvalidBodyLength { .. })
    ));

    let mut overlong = encoded.as_bytes().to_vec();
    overlong.push(0);
    assert!(matches!(
        decode_chunks(&manifest, &overlong, 13),
        Err(BloomError::InvalidBodyLength { .. })
    ));

    let mut oversized = encoded.as_bytes().to_vec();
    oversized[5..13].copy_from_slice(&(1_u64 << 63).to_le_bytes());
    assert!(matches!(
        decode_once(&manifest, &oversized),
        Err(BloomError::SnapshotParameterMismatch { .. })
    ));
}

#[test]
fn configured_false_positive_rate_is_enforced() {
    let permissive = parameters_with_fpr(8, 1, 0.6);
    let mut snapshot = ConcurrentBloomFilter::new(permissive, 123).unwrap();
    for position in 0..4 {
        snapshot
            .insert_positions(&positions(8, vec![position]))
            .unwrap();
    }
    assert_eq!(snapshot.copied_bits(), vec![0b0000_1111]);
    let manifest =
        SnapshotManifest::for_snapshot(&snapshot, location(), generation(), 1_700_000_000);
    let encoded = snapshot.encode();

    ConcurrentBloomFilter::decode(permissive, &encoded, estimate).unwrap();
    decode_once(&manifest, &encoded).unwrap();

    let restrictive = parameters_with_fpr(8, 1, 0.4);
    assert!(matches!(
        ConcurrentBloomFilter::decode(restrictive, &encoded, estimate),
        Err(BloomError::ExcessiveFalsePositiveRate { .. })
    ));
    let mut restrictive_manifest = manifest;
    restrictive_manifest.parameters = restrictive;
    assert!(matches!(
        decode_once(&restrictive_manifest, &encoded),
        Err(BloomError::ExcessiveFalsePositiveRate { .. })
    ));
}

#[test]
fn incompatible_definition_is_rejected() {
    let parameters = parameters(1024, 10);
    let snapshot = ConcurrentBloomFilter::new(parameters, 123).unwrap();
    let mut encoded = snapshot.encode();
    // Byte 4 holds the version, directly after the 4-byte magic.
    encoded[4] = FilterDefinition::current().version + 1;

    assert!(matches!(
        ConcurrentBloomFilter::decode(parameters, &encoded, estimate),
        Err(BloomError::IncompatibleDefinition { .. })
    ));
}

#[test]
fn parameters_validate_and_round_trip() {
    let parameters = BloomParameters::new(1024, 10, 21_600, 0, rate(0.001)).unwrap();
    assert_eq!(parameters.m_bits(), 1024);
    assert_eq!(parameters.probe_count(), 10);
    assert_eq!(parameters.max_heartbeat_interval(), 21_600);
    assert_eq!(parameters.clock_skew_slack(), 0);
    assert_eq!(parameters.max_accepted_false_positive_rate(), rate(0.001));

    let encoded = serde_json::to_vec(&parameters_to_value(parameters)).unwrap();
    assert_eq!(
        parameters_from_value(&serde_json::from_slice(&encoded).unwrap()).unwrap(),
        parameters
    );

    let mut value = parameters_to_value(parameters);
    value.as_object_mut().unwrap().remove("probe-count");
    assert!(parameters_from_value(&value).is_err());

    let mut value = parameters_to_value(parameters);
    value["unknown"] = Value::from(true);
    assert!(parameters_from_value(&value).is_err());

    for result in [
        BloomParameters::new(7, 10, 1, 0, rate(0.001)),
        BloomParameters::new(1000, 10, 1, 0, rate(0.001)),
        BloomParameters::new(1024, 0, 1, 0, rate(0.001)),
        BloomParameters::new(1024, MAX_PROBE_COUNT + 1, 1, 0, rate(0.001)),
        BloomParameters::new(1024, 10, 0, 0, rate(0.001)),
        BloomParameters::new(1024, 10, 1, 0, rate(0.0)),
        BloomParameters::new(1024, 10, 1, 0, rate(1.0)),
        BloomParameters::new(1024, 10, 1, 0, rate(f64::NAN)),
        BloomParameters::new(1024, 10, 1, 0, rate(f64::INFINITY)),
    ] {
        assert!(result.is_err());
    }
}

#[test]
fn snapshot_dimensions_must_match_parameters() {
    let encoded_parameters = parameters(1024, 10);
    let snapshot = ConcurrentBloomFilter::new(encoded_parameters, 123).unwrap();
    let encoded = snapshot.encode();

    for mismatched in [parameters(2048, 10), parameters(1024, 11)] {
        assert!(matches!(
            ConcurrentBloomFilter::decode(mismatched, &encoded, estimate),
            Err(BloomError::SnapshotParameterMismatch { .. })
        ));
    }
}

// XXX: These golden values pin the format contract. An incompatible change must also bump the
// version of `FilterDefinition::current()`, which places new snapshots in a separate namespace.
#[test]
fn definition_and_probe_behavior_are_golden() {
    assert_eq!(SNAPSHOT_MAGIC, *b"FBF1");
    assert_eq!(FilterDefinition::current().object_prefix(), b"bloom/v1");
    assert_eq!(
        decode_store_path_hash(&hash_a()).unwrap(),
        [
            57, 183, 2, 43, 22, 7, 67, 225, 50, 156, 136, 46, 251, 133, 168, 35, 104, 13, 142, 138,
        ]
    );
    assert_eq!(
        Dimensions::new(1024, 10)
            .unwrap()
            .probe_positions(&hash_a())
            .unwrap(),
        vec![825, 876, 927, 978, 5, 56, 107, 158, 209, 260]
    );
}

#[test]
fn compatibility_change_uses_a_new_namespace() {
    let current = FilterDefinition::current();
    let changed = FilterDefinition {
        version: current.version + 1,
    };

    assert_ne!(changed.object_prefix(), current.object_prefix());
}

#[test]
fn every_version_has_its_own_manifest_key() {
    assert_eq!(
        FilterDefinition::current().manifest_key(),
        b"bloom/v1/latest"
    );
    let keys: Vec<Vec<u8>> = (0..=255)
        .map(|version| FilterDefinition { version }.manifest_key())
        .collect();
    for (i, key) in keys.iter().enumerate() {
        assert!(!keys[..i].contains(key));
    }
    assert_eq!(keys[10], b"bloom/v10/latest");
    assert_eq!(keys[255], b"bloom/v255/latest");
}

#[test]
fn insertions_commute() {
    let parameters = parameters(1024, 10);
    let a = ProbePositions::of(&hash_a(), parameters).unwrap();
    let b = ProbePositions::of(&hash_b(), parameters).unwrap();
    let mut first = ConcurrentBloomFilter::new(parameters, 123).unwrap();
    first.insert_positions(&a).unwrap();
    first.insert_positions(&b).unwrap();
    let mut second = ConcurrentBloomFilter::new(parameters, 123).unwrap();
    second.insert_positions(&b).unwrap();
    second.insert_positions(&a).unwrap();
    assert_eq!(first.copied_bits(), second.copied_bits());
}

#[test]
fn insertion_sets_exactly_the_probed_bits() {
    let filter = filter_with_a();
    let bits = filter.copied_bits();
    assert_eq!(bits.len(), 128);
    for position in 0..1024_usize {
        let set = bits[position / 8] & (1 << (position % 8)) != 0;
        let probed = [825, 876, 927, 978, 5, 56, 107, 158, 209, 260].contains(&position);
        assert_eq!(set, probed);
    }
    let stats = filter.stats();
    assert_eq!(stats.set_bits, 10);
    assert_eq!(stats.m_bits, 1024);
    assert_eq!(stats.k, 10);
    assert_eq!(filter.m_bits(), 1024);
    assert_eq!(filter.k(), 10);
    assert_eq!(filter.body_len(), 128);
}

#[test]
fn a_full_filter_has_all_bits_set() {
    let mut filter = ConcurrentBloomFilter::new(parameters(8, 1), 123).unwrap();
    let mut before = filter.stats().set_bits;
    assert_eq!(before, 0);
    for position in 0..8 {
        filter
            .insert_positions(&positions(8, vec![position]))
            .unwrap();
        assert!(filter.stats().set_bits > before);
        before = filter.stats().set_bits;
    }
    assert_eq!(filter.copied_bits(), vec![255]);
    assert_eq!(filter.stats().set_bits, filter.m_bits());
}

#[test]
fn an_empty_filter_contains_nothing() {
    let filter = ConcurrentBloomFilter::new(parameters(1024, 10), 123).unwrap();
    assert!(!filter.contains(&hash_a()).unwrap());
    assert!(!filter.contains(&hash_b()).unwrap());
    assert_eq!(filter.source_max_row_id(), 0);
}

#[test]
fn later_insertions_keep_what_is_contained() {
    let mut filter = filter_with_a();
    for first in 0..100 {
        filter
            .insert_positions(&positions(1024, (first..first + 10).collect()))
            .unwrap();
        assert!(filter.contains(&hash_a()).unwrap());
    }
}

#[test]
fn the_snapshot_layout_is_fixed() {
    let mut filter = ConcurrentBloomFilter::new(parameters(8, 3), 0x0102_0304).unwrap();
    filter.set_source_max_row_id(0x0506);
    let checksum = "6e340b9cffb37a989ca544e6bb780a2c78901d3fb33738768511a30617afa01d";
    assert_eq!(filter.body_checksum_hex(), checksum);

    let mut expected = b"FBF1".to_vec();
    expected.push(1);
    expected.extend([8, 0, 0, 0, 0, 0, 0, 0]);
    expected.push(3);
    expected.extend([4, 3, 2, 1, 0, 0, 0, 0]);
    expected.extend([6, 5, 0, 0, 0, 0, 0, 0]);
    expected.extend(hex::decode(checksum).unwrap());
    expected.push(0);
    assert_eq!(expected.len(), SNAPSHOT_HEADER_LEN + 1);
    assert_eq!(filter.encode(), expected);

    let encoded = filter.encode_with_checksum();
    assert_eq!(encoded.body_checksum_hex(), checksum);
    assert_eq!(encoded.built_at(), 0x0102_0304);
    assert_eq!(encoded.source_max_row_id(), 0x0506);
    assert_eq!(encoded.parameters(), filter.parameters());
}

#[test]
fn encoding_what_was_decoded_gives_the_same_bytes() {
    let filter = filter_with_a();
    let encoded = filter.encode();
    let decoded =
        ConcurrentBloomFilter::decode(filter.parameters(), &encoded, estimate).unwrap();
    assert_eq!(decoded.encode(), encoded);
    assert_eq!(decoded.body_checksum(), filter.body_checksum());
}

#[test]
fn chunk_boundaries_do_not_matter() {
    let filter = filter_with_a();
    let encoded = filter.encode_with_checksum();
    let manifest = SnapshotManifest::for_encoded_snapshot(&encoded, location(), generation(), 0);
    for size in [1, 2, 61, 62, 63, 64, 189, 190, 1000] {
        let (decoded, stats) = decode_chunks(&manifest, encoded.as_bytes(), size).unwrap();
        assert_eq!(decoded.encode(), encoded.as_bytes());
        assert_eq!(stats.set_bits, 10);
    }
    let empty: &[u8] = &[];
    let chunks: [&[u8]; 5] = [
        empty,
        &encoded.as_bytes()[..62],
        empty,
        &encoded.as_bytes()[62..],
        empty,
    ];
    assert!(ConcurrentBloomFilter::decode_with_manifest(&manifest, &chunks, estimate).is_ok());
}

#[test]
fn a_decoder_refuses_as_soon_as_it_can() {
    let filter = filter_with_a();
    let manifest = SnapshotManifest::for_snapshot(&filter, location(), generation(), 0);
    let encoded = filter.encode();

    let mut decoder = SnapshotDecoder::new(&manifest).unwrap();
    for chunk in encoded.chunks(11) {
        decoder.take_chunk(chunk).unwrap();
    }
    let (decoded, stats) = decoder.finish(estimate).unwrap();
    assert_eq!(decoded.encode(), encoded);
    assert_eq!(stats, filter.stats());

    let mut wrong = encoded.clone();
    wrong[13] = 11;
    let mut decoder = SnapshotDecoder::new(&manifest).unwrap();
    decoder.take_chunk(&wrong[..61]).unwrap();
    assert!(matches!(
        decoder.take_chunk(&wrong[61..62]),
        Err(BloomError::SnapshotParameterMismatch {
            expected_m_bits: 1024,
            expected_k: 10,
            actual_m_bits: 1024,
            actual_k: 11
        })
    ));

    let mut decoder = SnapshotDecoder::new(&manifest).unwrap();
    decoder.take_chunk(&encoded).unwrap();
    assert!(matches!(
        decoder.take_chunk(&[1, 2, 3]),
        Err(BloomError::InvalidBodyLength {
            expected: 128,
            actual: 131
        })
    ));
}

#[test]
fn memory_for_the_body_decides_only_where_the_header_fits() {
    let filter = filter_with_a();
    let encoded = filter.encode();
    let mut manifest = SnapshotManifest::for_snapshot(&filter, location(), generation(), 0);

    let mut decoder = SnapshotDecoder::new(&manifest).unwrap();
    decoder.take_chunk_reserved(&encoded[..61], false).unwrap();
    assert!(matches!(
        decoder.take_chunk_reserved(&encoded[61..], false),
        Err(BloomError::TooLarge { m_bits: 1024 })
    ));
    let mut decoder = SnapshotDecoder::new(&manifest).unwrap();
    decoder.take_chunk_reserved(&encoded[..62], true).unwrap();
    decoder.take_chunk_reserved(&encoded[62..], false).unwrap();
    assert_eq!(decoder.finish(estimate).unwrap().0.encode(), encoded);

    let decode = |manifest: &SnapshotManifest, encoded: &[u8], memory: Option<Vec<u8>>| {
        let chunks: Vec<&[u8]> = encoded.chunks(7).collect();
        ConcurrentBloomFilter::decode_reserved(manifest, &chunks, memory, estimate)
            .map(|(decoded, _)| decoded.encode())
    };
    for memory in [Vec::new(), Vec::with_capacity(128), vec![1, 2, 3]] {
        assert_eq!(decode(&manifest, &encoded, Some(memory)).unwrap(), encoded);
    }
    let mut overlong = encoded.clone();
    overlong.push(0);
    for bytes in [&encoded[..], &encoded[..62], &overlong[..]] {
        assert!(matches!(
            decode(&manifest, bytes, None),
            Err(BloomError::TooLarge { m_bits: 1024 })
        ));
    }
    assert!(matches!(
        decode(&manifest, &encoded[..61], None),
        Err(BloomError::Truncated { .. })
    ));
    let mut wrong = encoded.clone();
    wrong[0] = 0;
    assert!(matches!(
        decode(&manifest, &wrong, None),
        Err(BloomError::InvalidMagic { .. })
    ));
    manifest.version = 2;
    assert!(matches!(
        decode(&manifest, &encoded, None),
        Err(BloomError::IncompatibleDefinition { .. })
    ));
}

#[test]
fn a_chunked_snapshot_decodes_to_its_filter() {
    let parameters = parameters(1024, 10);
    let mut snapshot = filter_with_a();
    snapshot.set_source_max_row_id(456);
    let encoded = snapshot.encode_with_checksum();
    let manifest = SnapshotManifest::for_encoded_snapshot(
        &encoded,
        b"k".to_vec(),
        Generation { id: 0 },
        1_700_000_000,
    );
    let (filter, stats) = decode_chunks(&manifest, encoded.as_bytes(), 7).unwrap();
    assert!(filter.contains(&hash_a()).unwrap());
    assert_eq!(filter.encode(), encoded.as_bytes());
    assert_eq!(filter.built_at(), 123);
    assert_eq!(filter.source_max_row_id(), 456);
    assert_eq!(filter.parameters(), parameters);
    assert_eq!(stats, snapshot.stats());
    assert_eq!(stats.set_bits as f64 / stats.m_bits as f64, 0.009765625);

    let whole =
        ConcurrentBloomFilter::decode(parameters, encoded.as_bytes(), estimate).unwrap();
    manifest.validate_snapshot(&whole).unwrap();
    assert_eq!(whole.encode(), filter.encode());
    assert_eq!(whole.stats(), stats);

    let mut overlong = encoded.as_bytes().to_vec();
    overlong.push(0);
    assert!(matches!(
        decode_chunks(&manifest, &overlong, 13),
        Err(BloomError::InvalidBodyLength {
            expected: 128,
            actual: 129
        })
    ));
    assert!(matches!(
        decode_once(&manifest, &encoded.as_bytes()[..189]),
        Err(BloomError::InvalidBodyLength {
            expected: 128,
            actual: 127
        })
    ));
}

#[test]
fn bits_are_taken_back_as_a_filter() {
    let filter = filter_with_a();
    let copy =
        ConcurrentBloomFilter::from_bits(filter.parameters(), 123, 0, filter.copied_bits())
            .unwrap();
    assert_eq!(copy.encode(), filter.encode());
    assert!(matches!(
        ConcurrentBloomFilter::from_bits(filter.parameters(), 123, 0, vec![0; 127]),
        Err(BloomError::InvalidBodyLength {
            expected: 128,
            actual: 127
        })
    ));
}

#[test]
fn lengths_are_reported_exactly() {
    let filter = filter_with_a();
    let encoded = filter.encode();
    let manifest = SnapshotManifest::for_snapshot(&filter, location(), generation(), 0);

    assert!(matches!(
        ConcurrentBloomFilter::decode(filter.parameters(), &encoded[..61], estimate),
        Err(BloomError::Truncated {
            expected_at_least: 62,
            actual: 61
        })
    ));
    assert!(matches!(
        decode_chunks(&manifest, &encoded[..61], 7),
        Err(BloomError::Truncated {
            expected_at_least: 62,
            actual: 61
        })
    ));
    assert!(matches!(
        ConcurrentBloomFilter::decode_with_manifest(&manifest, &[], estimate),
        Err(BloomError::Truncated {
            expected_at_least: 62,
            actual: 0
        })
    ));
    assert!(matches!(
        decode_chunks(&manifest, &encoded[..100], 7),
        Err(BloomError::InvalidBodyLength {
            expected: 128,
            actual: 38
        })
    ));

    // An overlong body is counted up to the end of the chunk that was too much.
    let mut overlong = encoded.clone();
    overlong.extend([0; 100]);
    assert!(matches!(
        ConcurrentBloomFilter::decode(filter.parameters(), &overlong, estimate),
        Err(BloomError::InvalidBodyLength {
            expected: 128,
            actual: 228
        })
    ));
    assert!(matches!(
        decode_once(&manifest, &overlong),
        Err(BloomError::InvalidBodyLength {
            expected: 128,
            actual: 228
        })
    ));
    assert!(matches!(
        decode_chunks(&manifest, &overlong, 1),
        Err(BloomError::InvalidBodyLength {
            expected: 128,
            actual: 129
        })
    ));
    assert!(matches!(
        decode_chunks(&manifest, &overlong, 100),
        Err(BloomError::InvalidBodyLength {
            expected: 128,
            actual: 138
        })
    ));
}

#[test]
fn headers_are_refused_for_their_first_fault() {
    let filter = filter_with_a();
    let decode = |encoded: &[u8]| {
        ConcurrentBloomFilter::decode(filter.parameters(), encoded, estimate).unwrap_err()
    };
    let mut encoded = filter.encode();
    encoded[13] = 65;
    assert!(matches!(
        decode(&encoded),
        BloomError::InvalidProbeCount { k: 65 }
    ));
    encoded[5] = 1;
    assert!(matches!(
        decode(&encoded),
        BloomError::InvalidBitCount { m_bits: 1025 }
    ));
    encoded[4] = 7;
    assert!(matches!(
        decode(&encoded),
        BloomError::IncompatibleDefinition {
            expected: 1,
            actual: 7
        }
    ));
    encoded[0] = 0;
    assert!(matches!(
        decode(&encoded),
        BloomError::InvalidMagic {
            actual: [0, 66, 70, 49]
        }
    ));
}

#[test]
fn a_checksum_mismatch_names_both_checksums() {
    let filter = ConcurrentBloomFilter::new(parameters(8, 1), 0).unwrap();
    let mut encoded = filter.encode();
    encoded[62] = 1;
    match ConcurrentBloomFilter::decode(filter.parameters(), &encoded, estimate) {
        Err(BloomError::ChecksumMismatch { expected, actual }) => {
            assert_eq!(
                expected,
                "6e340b9cffb37a989ca544e6bb780a2c78901d3fb33738768511a30617afa01d"
            );
            assert_eq!(
                actual,
                "4bf5122f344554c53bde2ebb8cd2b7e3d1600ad631c385a5d7cce23c7785459a"
            );
        }
        other => panic!("{other:?}"),
    }
}

#[test]
fn no_memory_for_the_body_is_an_error() {
    let filter = ConcurrentBloomFilter::new(parameters(1024, 10), 0).unwrap();
    let header = SnapshotHeader::read_from_prefix(&filter.encode()).unwrap();
    let header = DecodedSnapshotHeader::decode(&header, filter.parameters()).unwrap();
    assert!(header.check_reserved(true).is_ok());
    assert!(matches!(
        header.check_reserved(false),
        Err(BloomError::TooLarge { m_bits: 1024 })
    ));
}

#[test]
fn manifests_of_another_version_are_refused() {
    let filter = filter_with_a();
    let mut manifest = SnapshotManifest::for_snapshot(&filter, location(), generation(), 5);
    assert_eq!(manifest.version, 1);
    assert_eq!(manifest.object_key, location());
    assert_eq!(encode_manifest(&manifest).last(), Some(&b'\n'));
    manifest.validate_snapshot(&filter).unwrap();

    manifest.version = 2;
    assert!(matches!(
        manifest.validate_snapshot(&filter),
        Err(BloomError::IncompatibleDefinition {
            expected: 1,
            actual: 2
        })
    ));
    assert!(matches!(
        decode_manifest(&encode_manifest(&manifest)),
        Err(BloomError::IncompatibleDefinition {
            expected: 1,
            actual: 2
        })
    ));
    assert!(matches!(
        decode_once(&manifest, &[]),
        Err(BloomError::IncompatibleDefinition { .. })
    ));
    assert!(matches!(
        decode_manifest(b"no JSON"),
        Err(BloomError::ManifestJson(_))
    ));
    let failed = Err(serde_json::from_slice::<Value>(b"{").unwrap_err());
    assert!(matches!(
        SnapshotManifest::encode(failed),
        Err(BloomError::ManifestJson(_))
    ));
}

#[test]
fn manifests_of_another_snapshot_are_refused() {
    let mut filter = filter_with_a();
    let manifest = SnapshotManifest::for_snapshot(&filter, location(), generation(), 5);
    filter.set_source_max_row_id(9);
    assert!(matches!(
        manifest.validate_snapshot(&filter),
        Err(BloomError::ManifestSnapshotMismatch)
    ));
    filter.set_source_max_row_id(0);
    assert!(manifest.validate_snapshot(&filter).is_ok());
    filter
        .insert_positions(&positions(1024, (0..10).collect()))
        .unwrap();
    assert!(matches!(
        manifest.validate_snapshot(&filter),
        Err(BloomError::ManifestSnapshotMismatch)
    ));
}

#[test]
fn parameters_are_refused_for_their_first_fault() {
    assert!(matches!(
        BloomParameters::new(7, 0, 0, 0, rate(2.0)),
        Err(BloomError::InvalidHeartbeatInterval)
    ));
    for value in [0.0, -0.0, -0.5, 1.0, 1.5, f64::NAN, f64::NEG_INFINITY] {
        assert!(matches!(
            BloomParameters::new(7, 0, 1, 0, rate(value)),
            Err(BloomError::InvalidFalsePositiveRate { rate: refused }) if refused == rate(value)
        ));
    }
    assert!(matches!(
        BloomParameters::new(7, 0, 1, 0, rate(0.5)),
        Err(BloomError::InvalidBitCount { m_bits: 7 })
    ));
    assert!(matches!(
        BloomParameters::new(8, 0, 1, 0, rate(0.5)),
        Err(BloomError::InvalidProbeCount { k: 0 })
    ));
    for value in [f64::MIN_POSITIVE, 5e-324, 0.999_999_999_999_999_9] {
        assert!(BloomParameters::new(8, 64, 1, 0, rate(value)).is_ok());
    }
}

#[test]
fn rates_are_compared_as_numbers() {
    for limit in [0.001, 0.25, 0.5] {
        for value in [0.0, 0.001, 0.002, 0.25, 0.3, 0.5, 0.9, 1.0, f64::INFINITY] {
            assert_eq!(rate(value).validate(rate(limit)).is_err(), value > limit);
        }
    }
}

#[test]
fn the_largest_dimensions_are_accepted() {
    let dims = Dimensions::new(1 << 63, 64).unwrap();
    assert_eq!(dims.m_bits(), 1 << 63);
    assert_eq!(dims.k(), 64);
    assert_eq!(dims.body_len(), 1 << 60);
    let positions = dims.probe_positions(&hash_a()).unwrap();
    assert_eq!(positions.len(), 64);
    assert_eq!(
        positions[0],
        u64::from_le_bytes([57, 183, 2, 43, 22, 7, 67, 225]) % (1 << 63)
    );
}

#[test]
fn a_small_probe_count_probes_a_prefix() {
    let few = Dimensions::new(1024, 4).unwrap();
    let many = Dimensions::new(1024, 10).unwrap();
    assert_eq!(
        few.probe_positions(&hash_a()).unwrap(),
        many.probe_positions(&hash_a()).unwrap()[..4]
    );
}

#[test]
fn probes_do_not_repeat() {
    let mut positions = Dimensions::new(64, 64)
        .unwrap()
        .probe_positions(&hash_a())
        .unwrap();
    positions.sort_unstable();
    assert_eq!(positions, (0..64).collect::<Vec<u64>>());
}

#[test]
fn larger_positions_set_the_same_bits() {
    let own = parameters(1024, 10);
    for larger in [parameters(1024, 64), parameters(2048, 10), parameters(1 << 40, 33)] {
        let mut filter = ConcurrentBloomFilter::new(own, 123).unwrap();
        filter
            .insert_positions(&ProbePositions::of(&hash_a(), larger).unwrap())
            .unwrap();
        assert_eq!(filter.copied_bits(), filter_with_a().copied_bits());
    }
}
