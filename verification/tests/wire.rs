use flakehub_cache_types::bloom::wire::{
    BloomStreamEvent, DecodedEvent, ProbePositions, UncheckedPositions,
};
use flakehub_cache_types::bloom::{BloomError, BloomParameters, Rate};
use flakehub_cache_types::nix_store::StorePathHash;
use serde_json::Value;

fn hash() -> StorePathHash {
    StorePathHash::new("s66mzxpvicwk07gjbjfw9izjfa797vsw").unwrap()
}

fn parameters() -> BloomParameters {
    let rate = Rate {
        bits: 0.001_f64.to_bits(),
    };
    BloomParameters::new(1 << 20, 10, 6 * 60 * 60, 5 * 60, rate).unwrap()
}

fn custom(text: &str) -> serde_json::Error {
    <serde_json::Error as serde::de::Error>::custom(text)
}

fn encode(event: &BloomStreamEvent) -> Vec<u8> {
    let record = event.encode();
    let mut map = serde_json::Map::new();
    map.insert("version".to_owned(), Value::from(record.version));
    match record.event {
        BloomStreamEvent::PathCreated(positions) => {
            map.insert("kind".to_owned(), Value::from("path_created"));
            map.insert("m_bits".to_owned(), Value::from(positions.m_bits()));
            map.insert(
                "positions".to_owned(),
                Value::from(positions.positions().to_vec()),
            );
        }
        BloomStreamEvent::Heartbeat => {
            map.insert("kind".to_owned(), Value::from("heartbeat"));
        }
    }
    serde_json::to_vec(&Value::Object(map)).unwrap()
}

fn read_event(value: &Value) -> Result<BloomStreamEvent, serde_json::Error> {
    match value.get("kind").and_then(Value::as_str) {
        Some("heartbeat") => Ok(BloomStreamEvent::Heartbeat),
        Some("path_created") => {
            let m_bits = value
                .get("m_bits")
                .and_then(Value::as_u64)
                .ok_or_else(|| custom("m_bits"))?;
            let positions = value
                .get("positions")
                .and_then(Value::as_array)
                .ok_or_else(|| custom("positions"))?
                .iter()
                .map(|position| position.as_u64().ok_or_else(|| custom("position")))
                .collect::<Result<Vec<u64>, serde_json::Error>>()?;
            ProbePositions::try_from(UncheckedPositions { m_bits, positions })
                .map(BloomStreamEvent::PathCreated)
                .map_err(|error| custom(&format!("{error:?}")))
        }
        _ => Err(custom("kind")),
    }
}

fn decode(encoded: &[u8]) -> Result<DecodedEvent, serde_json::Error> {
    let value: Value = serde_json::from_slice(encoded)?;
    let version = value
        .get("version")
        .and_then(Value::as_u64)
        .and_then(|version| u8::try_from(version).ok())
        .ok_or_else(|| custom("version"));
    BloomStreamEvent::decode(version, read_event(&value))
}

#[test]
fn events_round_trip() {
    for event in [
        BloomStreamEvent::path_created(&hash(), parameters()).unwrap(),
        BloomStreamEvent::Heartbeat,
    ] {
        let encoded = encode(&event);
        assert_eq!(decode(&encoded).unwrap(), DecodedEvent::Event(event));
    }
}

#[test]
fn encoding_carries_version_and_kind() {
    let event = BloomStreamEvent::path_created(&hash(), parameters()).unwrap();
    let encoded: Value = serde_json::from_slice(&encode(&event)).unwrap();

    assert_eq!(encoded["version"], BloomStreamEvent::CURRENT_VERSION);
    assert_eq!(encoded["kind"], "path_created");
}

/// A path-created event never carries the store path hash, in any encoding of it. It carries the
/// probe positions calculated from the supplied parameters instead.
#[test]
fn path_created_carries_positions_and_not_the_hash() {
    let parameters = parameters();
    let positions = ProbePositions::of(&hash(), parameters).unwrap();
    assert_eq!(positions.m_bits(), parameters.m_bits());
    assert_eq!(
        positions.positions().len(),
        usize::from(parameters.probe_count())
    );

    let event = BloomStreamEvent::PathCreated(positions);
    let encoded = String::from_utf8(encode(&event)).unwrap();

    // The record carries exactly these fields; no hash field rides along.
    let value: Value = serde_json::from_str(&encoded).unwrap();
    let object = value.as_object().unwrap();
    assert_eq!(object.len(), 4, "{encoded}");
    for key in ["version", "kind", "m_bits", "positions"] {
        assert!(object.contains_key(key), "{key} is missing: {encoded}");
    }

    // The raw record text never contains the hash, in any position.
    assert!(!encoded.contains(hash().as_str()), "{encoded}");
}

/// A record whose positions violate an invariant fails to decode, so decoding never produces an
/// invalid [`ProbePositions`] value.
#[test]
fn invalid_positions_fail_to_decode() {
    for (reason, m_bits, positions) in [
        ("not a power of two", 1000, vec![3]),
        ("no positions at all", 1024, vec![]),
        ("a position beyond the claimed size", 1024, vec![1024]),
        (
            "more positions than the format permits",
            1024,
            (0..65).collect::<Vec<u64>>(),
        ),
    ] {
        let mut record = serde_json::Map::new();
        record.insert(
            "version".to_owned(),
            Value::from(BloomStreamEvent::CURRENT_VERSION),
        );
        record.insert("kind".to_owned(), Value::from("path_created"));
        record.insert("m_bits".to_owned(), Value::from(m_bits));
        record.insert("positions".to_owned(), Value::from(positions));
        let encoded = serde_json::to_vec(&Value::Object(record)).unwrap();
        assert!(decode(&encoded).is_err(), "{reason}");
    }
}

/// Heartbeats carry only the wire discriminators.
#[test]
fn heartbeat_has_no_payload() {
    let encoded = encode(&BloomStreamEvent::Heartbeat);
    let value: Value = serde_json::from_slice(&encoded).unwrap();
    let object = value.as_object().unwrap();

    assert_eq!(object.len(), 2);
    assert_eq!(object["version"], BloomStreamEvent::CURRENT_VERSION);
    assert_eq!(object["kind"], "heartbeat");
}

/// An unsupported version is recognized from the version alone; the other fields of the record are
/// free to change shape.
#[test]
fn unsupported_version_is_recognized_without_the_fields() {
    let mut reshaped = serde_json::Map::new();
    reshaped.insert("reshaped".to_owned(), Value::from(true));
    let mut record = serde_json::Map::new();
    record.insert("version".to_owned(), Value::from(255));
    record.insert("kind".to_owned(), Value::from("path_created"));
    record.insert("store_path_hash".to_owned(), Value::Object(reshaped));
    let encoded = serde_json::to_vec(&Value::Object(record)).unwrap();

    assert_eq!(
        decode(&encoded).unwrap(),
        DecodedEvent::UnsupportedVersion(255)
    );
}

#[test]
fn positions_are_refused_for_their_first_fault() {
    let refused = |m_bits, positions| {
        ProbePositions::try_from(UncheckedPositions { m_bits, positions }).unwrap_err()
    };
    assert!(matches!(
        refused(4, vec![]),
        BloomError::InvalidBitCount { m_bits: 4 }
    ));
    assert!(matches!(
        refused(0, vec![0]),
        BloomError::InvalidBitCount { m_bits: 0 }
    ));
    assert!(matches!(
        refused(8, vec![]),
        BloomError::InvalidPositionCount { count: 0 }
    ));
    assert!(matches!(
        refused(8, vec![9; 65]),
        BloomError::InvalidPositionCount { count: 65 }
    ));
    assert!(matches!(
        refused(8, vec![7, 9, 8]),
        BloomError::PositionOutOfRange {
            position: 9,
            m_bits: 8
        }
    ));
    let kept = ProbePositions::try_from(UncheckedPositions {
        m_bits: 8,
        positions: vec![7, 0, 7],
    })
    .unwrap();
    assert_eq!(kept.positions(), [7, 0, 7]);
}

#[test]
fn the_version_counts_before_the_event() {
    assert!(matches!(
        BloomStreamEvent::decode(Ok(2), Err(custom("event"))),
        Ok(DecodedEvent::UnsupportedVersion(2))
    ));
    assert!(BloomStreamEvent::decode(Ok(1), Err(custom("event"))).is_err());
    assert!(BloomStreamEvent::decode(Err(custom("version")), Ok(BloomStreamEvent::Heartbeat))
        .is_err());
}
