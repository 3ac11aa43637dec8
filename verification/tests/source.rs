use flakehub_cache_types::bloom::source::{
    ShardIndex, ShardKey, ShardKind, SourceRecord, SourceShard, SOURCE_SHARD_FLUSH_ROWS,
};
use flakehub_cache_types::bloom::BloomError;
use flakehub_cache_types::generation::Generation;
use serde_json::Value;

fn generation_of(text: &str) -> Generation {
    Generation {
        id: uuid::Uuid::parse_str(text).unwrap().as_u128(),
    }
}

fn generation() -> Generation {
    generation_of("019bf5a7-f6e8-7ac0-b973-8536596bdb45")
}

fn record(id: u64) -> SourceRecord {
    SourceRecord {
        id,
        store_path_hash: "ia70ss13m22znbl8khrf2hq72qmh5drr".to_owned(),
    }
}

fn encode(shard: &SourceShard) -> Vec<u8> {
    let records = shard
        .records()
        .iter()
        .map(|record| {
            let mut map = serde_json::Map::new();
            map.insert("id".to_owned(), Value::from(record.id));
            map.insert(
                "store_path_hash".to_owned(),
                Value::from(record.store_path_hash.clone()),
            );
            Value::Object(map)
        })
        .collect();
    SourceShard::encode(serde_json::to_vec(&Value::Array(records))).unwrap()
}

fn decode(key: ShardKey, encoded: &[u8]) -> Result<SourceShard, BloomError> {
    let parsed = serde_json::from_slice::<Vec<Value>>(encoded).map(|records| {
        records
            .iter()
            .map(|record| SourceRecord {
                id: record["id"].as_u64().unwrap(),
                store_path_hash: record["store_path_hash"].as_str().unwrap().to_owned(),
            })
            .collect()
    });
    SourceShard::decode(key, parsed)
}

#[test]
fn shard_keys_round_trip() {
    let key = ShardKey::new(generation(), ShardKind::Bootstrap, 12, 345, 1_700_000_000).unwrap();
    assert_eq!(
        key.to_key(),
        b"bloom/source/v1/019bf5a7-f6e8-7ac0-b973-8536596bdb45/bootstrap/12/345/1700000000.json"
    );
    assert_eq!(key.kind(), ShardKind::Bootstrap);
    assert_eq!(ShardKey::parse(&key.to_key()).unwrap(), key);
}

/// A ready marker is not a shard key and must never parse as one.
#[test]
fn ready_markers_are_not_shard_keys() {
    let key = ShardKey::ready_marker_key(generation());
    assert_eq!(
        key,
        b"bloom/source/v1/019bf5a7-f6e8-7ac0-b973-8536596bdb45/ready"
    );
    assert!(ShardKey::parse(&key).is_err());
}

#[test]
fn malformed_shard_keys_fail_to_parse() {
    for key in [
        // A key without a shard kind is incomplete.
        "bloom/source/v1/019bf5a7-f6e8-7ac0-b973-8536596bdb45/12/345.json",
        "bloom/source/v1/019bf5a7-f6e8-7ac0-b973-8536596bdb45/12/345/1700000000.json",
        "bloom/source/v1/019bf5a7-f6e8-7ac0-b973-8536596bdb45/other/12/345/1700000000.json",
        "bloom/source/v1/019bf5a7-f6e8-7ac0-b973-8536596bdb45/ordinary/12/345/1700000000",
        "bloom/source/v1/019bf5a7-f6e8-7ac0-b973-8536596bdb45/ordinary/12/345/1700000000.json/extra",
        "bloom/source/v1/not-a-uuid/ordinary/12/345/1700000000.json",
        "bloom/source/v2/019bf5a7-f6e8-7ac0-b973-8536596bdb45/ordinary/12/345/1700000000.json",
        // Bounds violations.
        "bloom/source/v1/019bf5a7-f6e8-7ac0-b973-8536596bdb45/ordinary/0/345/1700000000.json",
        "bloom/source/v1/019bf5a7-f6e8-7ac0-b973-8536596bdb45/ordinary/12/11/1700000000.json",
        // Non-canonical numerals must not alias a canonical key.
        "bloom/source/v1/019bf5a7-f6e8-7ac0-b973-8536596bdb45/ordinary/012/345/1700000000.json",
    ] {
        assert!(ShardKey::parse(key.as_bytes()).is_err(), "{key}");
    }
}

#[test]
fn shard_contents_validate_against_the_key() {
    let shard = SourceShard::new(
        generation(),
        ShardKind::Bootstrap,
        1_700_000_000,
        vec![record(1), record(4), record(9)],
    )
    .unwrap();
    assert_eq!(shard.key().first_id(), 1);
    assert_eq!(shard.key().last_id(), 9);
    assert_eq!(shard.kind(), ShardKind::Bootstrap);

    let decoded = decode(*shard.key(), &encode(&shard)).unwrap();
    assert_eq!(decoded, shard);

    // Contents whose bounds disagree with the key are rejected.
    let wrong_key =
        ShardKey::new(generation(), ShardKind::Bootstrap, 1, 10, 1_700_000_000).unwrap();
    assert!(matches!(
        decode(wrong_key, &encode(&shard)),
        Err(BloomError::ShardBoundsMismatch { .. })
    ));
}

#[test]
fn shards_reject_bad_orders_and_sizes() {
    assert!(matches!(
        SourceShard::new(generation(), ShardKind::Ordinary, 0, vec![]),
        Err(BloomError::EmptyShard)
    ));
    assert!(matches!(
        SourceShard::new(
            generation(),
            ShardKind::Ordinary,
            0,
            vec![record(2), record(2)]
        ),
        Err(BloomError::NonMonotonicShardRows)
    ));
}

#[test]
fn the_index_rejects_ordinary_overlap_and_exposes_the_watermark() {
    let shard =
        |kind, first, last, anchor| ShardKey::new(generation(), kind, first, last, anchor).unwrap();

    let index = ShardIndex::new(
        generation(),
        vec![
            shard(ShardKind::Ordinary, 200, 250, 40),
            shard(ShardKind::Ordinary, 1, 100, 10),
            shard(ShardKind::Ordinary, 101, 199, 20),
            shard(ShardKind::Bootstrap, 50, 300, 99),
            shard(ShardKind::Bootstrap, 50, 150, 98),
        ],
    )
    .unwrap();
    assert_eq!(index.watermark(), 250);
    assert_eq!(index.anchor_ts(), Some(40));
    assert_eq!(index.shards().len(), 5);
    assert_eq!(index.shards()[1].kind(), ShardKind::Bootstrap);
    assert_eq!(index.shards()[2].kind(), ShardKind::Bootstrap);
    assert_eq!(
        index
            .shards()
            .iter()
            .map(ShardKey::first_id)
            .collect::<Vec<_>>(),
        vec![1, 50, 50, 101, 200]
    );

    assert!(matches!(
        ShardIndex::new(
            generation(),
            vec![
                shard(ShardKind::Ordinary, 1, 100, 10),
                shard(ShardKind::Ordinary, 100, 150, 20)
            ]
        ),
        Err(BloomError::ShardOverlap { .. })
    ));

    let other_generation = generation_of("019bf5a7-f6e8-7ac0-b973-8536596bdb46");
    assert!(matches!(
        ShardIndex::new(
            other_generation,
            vec![shard(ShardKind::Bootstrap, 1, 100, 10)]
        ),
        Err(BloomError::WrongShardGeneration { .. })
    ));
}

#[test]
fn an_empty_index_has_watermark_zero_and_no_anchor() {
    let index = ShardIndex::new(generation(), Vec::new()).unwrap();
    assert!(index.is_empty());
    assert_eq!(index.watermark(), 0);
    assert_eq!(index.anchor_ts(), None);
}

#[test]
fn an_overlay_only_index_is_not_empty_but_has_no_checkpoint() {
    let index = ShardIndex::new(
        generation(),
        vec![
            ShardKey::new(generation(), ShardKind::Bootstrap, 1, 100, 10).unwrap(),
            ShardKey::new(generation(), ShardKind::Bootstrap, 50, 150, 20).unwrap(),
        ],
    )
    .unwrap();

    assert!(!index.is_empty());
    assert_eq!(index.shards().len(), 2);
    assert_eq!(index.watermark(), 0);
    assert_eq!(index.anchor_ts(), None);
}

#[test]
fn shard_keys_have_no_aliases() {
    for key in [
        "bloom/source/v1/019BF5A7-F6E8-7AC0-B973-8536596BDB45/ordinary/12/345/17.json",
        "bloom/source/v1/019bf5a7f6e87ac0b9738536596bdb45/ordinary/12/345/17.json",
        "bloom/source/v1/{019bf5a7-f6e8-7ac0-b973-8536596bdb45}/ordinary/12/345/17.json",
        "bloom/source/v1//019bf5a7-f6e8-7ac0-b973-8536596bdb45/ordinary/12/345/17.json",
        "bloom/source/v1/./019bf5a7-f6e8-7ac0-b973-8536596bdb45/ordinary/12/345/17.json",
        "bloom/source/v1/019bf5a7-f6e8-7ac0-b973-8536596bdb45/ordinary/12/345/17.json/",
        "/bloom/source/v1/019bf5a7-f6e8-7ac0-b973-8536596bdb45/ordinary/12/345/17.json",
        "bloom/source/v1/019bf5a7-f6e8-7ac0-b973-8536596bdb45/ordinary/+12/345/17.json",
        "bloom/source/v1/019bf5a7-f6e8-7ac0-b973-8536596bdb45/ordinary/12/345/017.json",
        "bloom/source/v1/019bf5a7-f6e8-7ac0-b973-8536596bdb45/ordinary/12/345/.json",
        "bloom/source/v1/019bf5a7-f6e8-7ac0-b973-8536596bdb45/Ordinary/12/345/17.json",
        "bloom/source/v1/019bf5a7-f6e8-7ac0-b973-8536596bdb45/ordinary/12/345/17.JSON",
        "bloom/source/v1/019bf5a7-f6e8-7ac0-b973-8536596bdb45/ordinary/1/18446744073709551616/1.json",
        "",
    ] {
        match ShardKey::parse(key.as_bytes()) {
            Err(BloomError::InvalidShardKey { key: refused }) => {
                assert_eq!(refused, key.as_bytes())
            }
            other => panic!("{key}: {other:?}"),
        }
    }
    let key = "bloom/source/v1/019bf5a7-f6e8-7ac0-b973-8536596bdb45/ordinary/12/345/17.json";
    let parsed = ShardKey::parse(key.as_bytes()).unwrap();
    assert_eq!(parsed.generation(), generation());
    assert_eq!(parsed.kind(), ShardKind::Ordinary);
    assert_eq!(parsed.first_id(), 12);
    assert_eq!(parsed.last_id(), 345);
    assert_eq!(parsed.anchor_ts(), 17);
    assert!(ShardKey::parse(&[0xff; 90]).is_err());
}

#[test]
fn extreme_numbers_round_trip_through_keys() {
    let key = ShardKey::new(
        Generation { id: 0 },
        ShardKind::Ordinary,
        1,
        u64::MAX,
        u64::MAX,
    )
    .unwrap();
    assert_eq!(
        String::from_utf8(key.to_key()).unwrap(),
        "bloom/source/v1/00000000-0000-0000-0000-000000000000/ordinary/1/\
         18446744073709551615/18446744073709551615.json"
    );
    assert_eq!(ShardKey::parse(&key.to_key()).unwrap(), key);
    assert_eq!(ShardKey::source_prefix(), b"bloom/source/v1");
}

#[test]
fn shard_bounds_are_checked() {
    assert!(matches!(
        ShardKey::new(generation(), ShardKind::Ordinary, 0, 5, 0),
        Err(BloomError::InvalidShardBounds {
            first_id: 0,
            last_id: 5
        })
    ));
    assert!(matches!(
        ShardKey::new(generation(), ShardKind::Ordinary, 6, 5, 0),
        Err(BloomError::InvalidShardBounds {
            first_id: 6,
            last_id: 5
        })
    ));
    assert!(matches!(
        SourceShard::new(
            generation(),
            ShardKind::Ordinary,
            0,
            vec![record(3), record(2)]
        ),
        Err(BloomError::InvalidShardBounds {
            first_id: 3,
            last_id: 2
        })
    ));
}

#[test]
fn a_shard_holds_a_limited_number_of_records() {
    let most = SOURCE_SHARD_FLUSH_ROWS as u64;
    assert_eq!(most, 100_000);
    let full = SourceShard::new(
        generation(),
        ShardKind::Ordinary,
        7,
        (1..=most).map(record).collect(),
    )
    .unwrap();
    assert_eq!(full.records().len(), 100_000);
    assert_eq!(full.key().last_id(), most);
    assert!(matches!(
        SourceShard::new(
            generation(),
            ShardKind::Ordinary,
            7,
            (1..=most + 1).map(record).collect(),
        ),
        Err(BloomError::OversizedShard { count: 100_001 })
    ));
}

#[test]
fn shard_contents_are_framed_by_a_newline() {
    let shard =
        SourceShard::new(generation(), ShardKind::Ordinary, 0, vec![record(1)]).unwrap();
    assert_eq!(encode(&shard).last(), Some(&b'\n'));
    assert!(matches!(
        decode(*shard.key(), b"["),
        Err(BloomError::ShardJson(_))
    ));
    assert!(matches!(
        decode(*shard.key(), b"[]"),
        Err(BloomError::EmptyShard)
    ));
    let failed = Err(serde_json::from_slice::<Value>(b"{").unwrap_err());
    assert!(matches!(
        SourceShard::encode(failed),
        Err(BloomError::ShardJson(_))
    ));
}

#[test]
fn a_bounds_mismatch_names_the_key() {
    let key = ShardKey::new(generation(), ShardKind::Ordinary, 1, 2, 3).unwrap();
    match SourceShard::decode(key, Ok(vec![record(1), record(3)])) {
        Err(BloomError::ShardBoundsMismatch { key: named }) => assert_eq!(named, key.to_key()),
        other => panic!("{other:?}"),
    }
}

#[test]
fn the_arrangement_of_shards_does_not_matter() {
    let shard =
        |kind, first, last, anchor| ShardKey::new(generation(), kind, first, last, anchor).unwrap();
    let shards = vec![
        shard(ShardKind::Ordinary, 10, 19, 1),
        shard(ShardKind::Bootstrap, 10, 19, 2),
        shard(ShardKind::Bootstrap, 10, 19, 1),
        shard(ShardKind::Ordinary, 1, 9, 5),
        shard(ShardKind::Ordinary, 30, 30, 4),
    ];
    let index = ShardIndex::new(generation(), shards.clone()).unwrap();
    assert_eq!(index.generation(), generation());
    assert_eq!(
        index.shards(),
        [
            shard(ShardKind::Ordinary, 1, 9, 5),
            shard(ShardKind::Ordinary, 10, 19, 1),
            shard(ShardKind::Bootstrap, 10, 19, 1),
            shard(ShardKind::Bootstrap, 10, 19, 2),
            shard(ShardKind::Ordinary, 30, 30, 4),
        ]
    );
    assert_eq!(index.watermark(), 30);
    assert_eq!(index.anchor_ts(), Some(4));
    for rotation in 0..shards.len() {
        let mut other = shards.clone();
        other.rotate_left(rotation);
        let other = ShardIndex::new(generation(), other).unwrap();
        assert_eq!(other.shards(), index.shards());
    }
}

#[test]
fn the_first_fault_of_an_index_is_named() {
    let shard =
        |kind, first, last, anchor| ShardKey::new(generation(), kind, first, last, anchor).unwrap();
    // The same ordinary shard twice overlaps itself.
    let twice = shard(ShardKind::Ordinary, 5, 6, 7);
    match ShardIndex::new(generation(), vec![twice, twice]) {
        Err(BloomError::ShardOverlap { key }) => assert_eq!(key, twice.to_key()),
        other => panic!("{other:?}"),
    }
    // The overlap is found through a bootstrap shard that stands between.
    match ShardIndex::new(
        generation(),
        vec![
            shard(ShardKind::Ordinary, 90, 95, 1),
            shard(ShardKind::Ordinary, 50, 60, 1),
            shard(ShardKind::Bootstrap, 2, 3, 1),
            shard(ShardKind::Ordinary, 1, 50, 1),
            shard(ShardKind::Ordinary, 92, 93, 1),
        ],
    ) {
        Err(BloomError::ShardOverlap { key }) => {
            assert_eq!(key, shard(ShardKind::Ordinary, 50, 60, 1).to_key())
        }
        other => panic!("{other:?}"),
    }
    let foreign = ShardKey::new(Generation { id: 1 }, ShardKind::Ordinary, 1, 2, 3).unwrap();
    match ShardIndex::new(generation(), vec![twice, foreign, twice]) {
        Err(BloomError::WrongShardGeneration { key, expected }) => {
            assert_eq!(key, foreign.to_key());
            assert_eq!(expected, "019bf5a7-f6e8-7ac0-b973-8536596bdb45");
        }
        other => panic!("{other:?}"),
    }
}

#[test]
fn shard_contents_decode_under_every_key_with_their_bounds() {
    let shard = SourceShard::new(
        generation(),
        ShardKind::Ordinary,
        7,
        vec![record(2), record(5)],
    )
    .unwrap();
    let other = ShardKey::new(Generation { id: 1 }, ShardKind::Bootstrap, 2, 5, 9).unwrap();
    let decoded = decode(other, &encode(&shard)).unwrap();
    assert_eq!(*decoded.key(), other);
    assert_eq!(decoded.records(), shard.records());
    for (first, last) in [(1, 5), (2, 6), (3, 4)] {
        let wrong = ShardKey::new(generation(), ShardKind::Ordinary, first, last, 7).unwrap();
        match decode(wrong, &encode(&shard)) {
            Err(BloomError::ShardBoundsMismatch { key }) => assert_eq!(key, wrong.to_key()),
            other => panic!("{other:?}"),
        }
    }
}
