//! Contents of source shards.

use crate::bloom::error::BloomError;
use crate::bloom::source::key::{key_text, ShardKey, ShardKind};
use crate::generation::Generation;
use vstd::prelude::*;

verus! {

/// Maximum records in one source shard.
pub const SOURCE_SHARD_FLUSH_ROWS: usize = 100_000;

/// One indexed store-path hash carried by a source shard.
#[derive(Clone, Debug, PartialEq, Eq)]
pub struct SourceRecord {
    /// A positive, monotonically ordered source ID.
    pub id: u64,
    /// The textual store path hash. Validation is deferred until insertion into a filter, so one
    /// invalid record does not fail a whole shard.
    pub store_path_hash: String,
}

/// The decoded contents of one source shard, validated against its key.
///
/// Invariants: at least one and at most [`SOURCE_SHARD_FLUSH_ROWS`] records, strictly increasing
/// row IDs, and first/last IDs that equal the key's bounds.
#[derive(Clone, Debug, PartialEq, Eq)]
pub struct SourceShard {
    key: ShardKey,
    records: Vec<SourceRecord>,
}

/// Row IDs are strictly increasing.
pub open spec fn ids_increase(records: Seq<SourceRecord>) -> bool {
    forall|i: int, j: int|
        0 <= i < j < records.len() ==> (#[trigger] records[i]).id < (#[trigger] records[j]).id
}

/// Whether records uphold the invariants of a shard with that key.
pub open spec fn records_fit(records: Seq<SourceRecord>, key: ShardKey) -> bool {
    &&& 1 <= records.len() <= SOURCE_SHARD_FLUSH_ROWS
    &&& ids_increase(records)
    &&& records.first().id == key.first_id()
    &&& records.last().id == key.last_id()
}

/// Whether `error` is what is wrong with records that do not fit: the first of their number, their
/// order and their bounds.
pub open spec fn records_refusal(
    records: Seq<SourceRecord>,
    key: ShardKey,
    error: BloomError,
) -> bool {
    if records.len() == 0 {
        error == BloomError::EmptyShard
    } else if records.len() > SOURCE_SHARD_FLUSH_ROWS {
        error == (BloomError::OversizedShard { count: records.len() as usize })
    } else if !ids_increase(records) {
        error == BloomError::NonMonotonicShardRows
    } else {
        error matches BloomError::ShardBoundsMismatch { key: mismatched } && mismatched@
            == key_text(key)
    }
}

/// What decoding the records of a shard under a key gives: a shard of that key and those records
/// where they fit, and what is wrong with them otherwise.
pub open spec fn shard_outcome(
    key: ShardKey,
    records: Seq<SourceRecord>,
    r: Result<SourceShard, BloomError>,
) -> bool {
    match r {
        Ok(shard) => shard.wf() && shard.spec_key() == key && shard@ == records,
        Err(error) => !records_fit(records, key) && records_refusal(records, key, error),
    }
}

/// Row IDs increase if and only if each is below the next.
pub proof fn ids_increase_from_each_to_the_next(records: Seq<SourceRecord>)
    ensures
        ids_increase(records) <==> forall|i: int, next: int|
            0 <= i && next == i + 1 && next < records.len() ==> (#[trigger] records[i]).id < (
            #[trigger] records[next]).id,
    decreases records.len(),
{
    if records.len() > 0 && forall|i: int, next: int|
        0 <= i && next == i + 1 && next < records.len() ==> (#[trigger] records[i]).id < (
        #[trigger] records[next]).id {
        let shorter = records.drop_last();
        assert forall|i: int, next: int|
            0 <= i && next == i + 1 && next < shorter.len() implies (#[trigger] shorter[i]).id < (
        #[trigger] shorter[next]).id by {
            assert(records[i].id < records[next].id);
        }
        ids_increase_from_each_to_the_next(shorter);
        let last = records.len() - 1;
        assert forall|i: int, j: int| 0 <= i < j < records.len() implies (#[trigger] records[i]).id
            < (#[trigger] records[j]).id by {
            if j < last {
                assert(shorter[i].id < shorter[j].id);
            } else {
                assert(records[last - 1].id < records[last].id);
                if i < last - 1 {
                    assert(shorter[i].id < shorter[last - 1].id);
                }
            }
        }
    }
}

/// Contents are taken as a shard exactly where there are 1 to 100,000 records, each ID is below
/// the next, and the first and last ID are the bounds of the key. Otherwise the number, the order
/// and the bounds are named in that order.
pub proof fn shards_hold_ordered_records_within_bounds(
    key: ShardKey,
    records: Seq<SourceRecord>,
    r: Result<SourceShard, BloomError>,
)
    requires
        shard_outcome(key, records, r),
    ensures
        r matches Ok(shard) ==> {
            &&& shard@ == records
            &&& shard.spec_key() == key
            &&& 1 <= key.first_id() <= key.last_id()
        },
        r is Ok ==> {
            &&& 1 <= records.len() <= 100_000
            &&& records[0].id == key.first_id()
            &&& records[records.len() - 1].id == key.last_id()
            &&& forall|i: int, next: int|
                0 <= i && next == i + 1 && next < records.len() ==> (#[trigger] records[i]).id < (
                #[trigger] records[next]).id
        },
        records.len() == 0 ==> r == Err::<SourceShard, BloomError>(BloomError::EmptyShard),
        records.len() > 100_000 ==> r == Err::<SourceShard, BloomError>(
            BloomError::OversizedShard { count: records.len() as usize },
        ),
        forall|i: int, next: int|
            1 <= records.len() <= 100_000 && 0 <= i && next == i + 1 && next < records.len() && (
            #[trigger] records[i]).id >= (#[trigger] records[next]).id ==> r == Err::<
                SourceShard,
                BloomError,
            >(BloomError::NonMonotonicShardRows),
        1 <= records.len() <= 100_000 && (forall|i: int, next: int|
            0 <= i && next == i + 1 && next < records.len() ==> (#[trigger] records[i]).id < (
            #[trigger] records[next]).id) ==> (if records[0].id == key.first_id()
            && records[records.len() - 1].id == key.last_id() {
            r is Ok
        } else {
            r matches Err(BloomError::ShardBoundsMismatch { key: mismatched }) && mismatched@
                == key_text(key)
        }),
{
    ids_increase_from_each_to_the_next(records);
}

/// The records of a shard that are read back as they were written are decoded under every key with
/// the bounds of the shard, its own among them, and are refused under every other key for its
/// bounds.
pub proof fn shard_contents_round_trip(
    shard: SourceShard,
    key: ShardKey,
    r: Result<SourceShard, BloomError>,
)
    requires
        shard.wf(),
        shard_outcome(key, shard@, r),
    ensures
        if key.first_id() == shard.spec_key().first_id() && key.last_id()
            == shard.spec_key().last_id() {
            r matches Ok(decoded) && decoded.spec_key() == key && decoded@ == shard@
        } else {
            r matches Err(BloomError::ShardBoundsMismatch { key: mismatched }) && mismatched@
                == key_text(key)
        },
{
}

/// Checks records against the key of their shard.
pub fn validate_records(records: &[SourceRecord], key: &ShardKey) -> (r: Result<(), BloomError>)
    ensures
        match r {
            Ok(_) => records_fit(records@, *key),
            Err(error) => !records_fit(records@, *key) && records_refusal(records@, *key, error),
        },
{
    if records.len() == 0 {
        return Err(BloomError::EmptyShard);
    }
    if records.len() > SOURCE_SHARD_FLUSH_ROWS {
        return Err(BloomError::OversizedShard { count: records.len() });
    }
    let mut i: usize = 1;
    while i < records.len()
        invariant
            1 <= i <= records@.len(),
            records@.len() <= SOURCE_SHARD_FLUSH_ROWS,
            ids_increase(records@.take(i as int)),
        decreases records@.len() - i,
    {
        if records[i - 1].id >= records[i].id {
            assert(!ids_increase(records@)) by {
                assert(records@[i - 1].id >= records@[i as int].id);
            }
            return Err(BloomError::NonMonotonicShardRows);
        }
        proof {
            let before = records@.take(i as int);
            let after = records@.take(i + 1);
            assert forall|a: int, b: int| 0 <= a < b < after.len() implies (#[trigger] after[a]).id
                < (#[trigger] after[b]).id by {
                if b < i {
                    assert(before[a].id < before[b].id);
                } else if a < i - 1 {
                    assert(before[a].id < before[i - 1].id);
                }
            }
        }
        i = i + 1;
    }
    assert(records@.take(i as int) =~= records@);
    let first: u64 = records[0].id;
    let last: u64 = records[records.len() - 1].id;
    if first != key.first_id() || last != key.last_id() {
        return Err(BloomError::ShardBoundsMismatch { key: key.to_key() });
    }
    Ok(())
}

impl SourceShard {
    pub closed spec fn spec_key(&self) -> ShardKey {
        self.key
    }

    /// The records as a sequence.
    pub closed spec fn view(&self) -> Seq<SourceRecord> {
        self.records@
    }

    /// The invariants of the type.
    pub open spec fn wf(&self) -> bool {
        self.spec_key().wf() && records_fit(self@, self.spec_key())
    }

    /// Builds a shard from freshly scanned records. The key bounds come from the records
    /// themselves; `anchor_ts` is the creation time of the last record.
    pub fn new(
        generation: Generation,
        kind: ShardKind,
        anchor_ts: u64,
        records: Vec<SourceRecord>,
    ) -> (r: Result<Self, BloomError>)
        ensures
            match r {
                Ok(shard) => {
                    &&& shard.wf()
                    &&& shard@ == records@
                    &&& shard.spec_key().generation() == generation
                    &&& shard.spec_key().kind() == kind
                    &&& shard.spec_key().anchor_ts() == anchor_ts
                },
                Err(error) => if records@.len() == 0 {
                    error == BloomError::EmptyShard
                } else if records@.first().id == 0 || records@.last().id < records@.first().id {
                    error == (BloomError::InvalidShardBounds {
                        first_id: records@.first().id,
                        last_id: records@.last().id,
                    })
                } else if records@.len() > SOURCE_SHARD_FLUSH_ROWS {
                    error == (BloomError::OversizedShard { count: records@.len() as usize })
                } else {
                    !ids_increase(records@) && error == BloomError::NonMonotonicShardRows
                },
            },
    {
        if records.len() == 0 {
            return Err(BloomError::EmptyShard);
        }
        let first_id: u64 = records[0].id;
        let last_id: u64 = records[records.len() - 1].id;
        let key = match ShardKey::new(generation, kind, first_id, last_id, anchor_ts) {
            Ok(key) => key,
            Err(error) => {
                return Err(error);
            },
        };
        match validate_records(records.as_slice(), &key) {
            Ok(_) => Ok(SourceShard { key, records }),
            Err(error) => Err(error),
        }
    }

    /// Accepts shard contents that were read from JSON, if they fit the parsed key.
    pub fn decode(key: ShardKey, parsed: Result<Vec<SourceRecord>, serde_json::Error>) -> (r: Result<
        Self,
        BloomError,
    >)
        requires
            key.wf(),
        ensures
            match parsed {
                Ok(records) => shard_outcome(key, records@, r),
                Err(error) => r == Err::<Self, BloomError>(BloomError::ShardJson(error)),
            },
    {
        match parsed {
            Ok(records) => match validate_records(records.as_slice(), &key) {
                Ok(_) => Ok(SourceShard { key, records }),
                Err(error) => Err(error),
            },
            Err(error) => Err(BloomError::ShardJson(error)),
        }
    }

    /// Frames records that were written as JSON: a newline ends them.
    pub fn encode(serialized: Result<Vec<u8>, serde_json::Error>) -> (r: Result<
        Vec<u8>,
        BloomError,
    >)
        ensures
            match serialized {
                Ok(json) => r matches Ok(encoded) && encoded@ == json@.push(0x0a),
                Err(error) => r == Err::<Vec<u8>, BloomError>(BloomError::ShardJson(error)),
            },
    {
        match serialized {
            Ok(json) => {
                let mut encoded = json;
                encoded.push(0x0a);
                Ok(encoded)
            },
            Err(error) => Err(BloomError::ShardJson(error)),
        }
    }

    /// The key of the shard.
    pub fn key(&self) -> (key: &ShardKey)
        ensures
            *key == self.spec_key(),
    {
        &self.key
    }

    /// The kind of the shard.
    pub fn kind(&self) -> (kind: ShardKind)
        ensures
            kind == self.spec_key().kind(),
    {
        self.key.kind()
    }

    /// The records of the shard.
    pub fn records(&self) -> (records: &[SourceRecord])
        ensures
            records@ == self@,
    {
        self.records.as_slice()
    }
}

} // verus!
