//! Laws that relate insertion, lookup, snapshots and manifests.

use crate::bloom::bits::{
    bit_set, lemma_bits_determine_body, lemma_ones_below_bound, ones, ones_below,
    ones_counts_the_set_bits, set_bits_below,
};
use crate::bloom::error::BloomError;
use crate::bloom::filter::{
    checksum_refusal, encoded_view, header_of, hits, inserted, insertion_refusal, lemma_body_bits,
    snapshot_accepted, snapshot_body, snapshot_bytes, snapshot_outcome, snapshot_refusal,
    snapshot_view, BloomSnapshotStats, ConcurrentBloomFilter, FilterView,
};
use crate::bloom::header::{
    header_bytes, header_is_the_only_one, header_round_trips, read_header, SNAPSHOT_HEADER_LEN,
};
use crate::bloom::manifest::{decoded_manifest, definition_refusal, SnapshotManifest};
use crate::bloom::parameters::{
    object_prefix_text, BloomParameters, Rate, CURRENT_DEFINITION_VERSION,
};
use crate::bloom::power::is_power_of_two;
use crate::bloom::probe::{probe, probe_is_in_range, probes, probes_mask_down};
use crate::bloom::stream::{
    joined, lemma_overrun_of_short, overrun, saturated, stream_accepted, stream_outcome,
    stream_refusal,
};
use crate::outside::sha256_digest;
use crate::path::join;
use crate::text::{decimal, decimal_round_trips, hex_text_is_injective};
use vstd::prelude::*;

verus! {

/// No false negatives: positions calculated for a filter that is at least as large and has at
/// least as many probes are accepted, and the filter contains the hash afterwards.
pub proof fn inserted_hashes_are_contained(
    before: FilterView,
    text: Seq<char>,
    m_bits: u64,
    probe_count: u8,
    after: FilterView,
)
    requires
        before.wf(),
        is_power_of_two(m_bits as int),
        before.parameters.m_bits() <= m_bits,
        before.parameters.probe_count() <= probe_count,
    ensures
        insertion_refusal(
            before.parameters.m_bits(),
            before.parameters.probe_count(),
            m_bits,
            probes(text, m_bits, probe_count),
        ) is None,
        inserted(before, probes(text, m_bits, probe_count), after) ==> after.contains(text),
{
    lemma_body_bits(before);
    let positions = probes(text, m_bits, probe_count);
    let small = before.parameters.m_bits() as int;
    let k = before.parameters.probe_count();
    if inserted(before, positions, after) {
        assert forall|i: int| 0 <= i < k implies bit_set(
            after.body,
            #[trigger] probe(text, small, i),
        ) by {
            probes_mask_down(text, small, m_bits as int, i);
            probe_is_in_range(text, m_bits as int, i);
            probe_is_in_range(text, small, i);
            assert(positions[i] as int % small == probe(text, small, i));
            assert(hits(positions, k as int, small, probe(text, small, i)));
        }
    }
}

/// Positions are taken exactly where they were calculated for a filter that is at least as large
/// and there are as many as the filter has probes. Positions of a smaller filter are refused
/// first.
pub proof fn positions_are_taken_from_filters_as_large(
    m_bits: u64,
    k: u8,
    positions_m_bits: u64,
    positions: Seq<u64>,
)
    ensures
        positions_m_bits < m_bits ==> insertion_refusal(m_bits, k, positions_m_bits, positions)
            == Some(
            BloomError::IncompatiblePositions {
                event_m_bits: positions_m_bits,
                filter_m_bits: m_bits,
            },
        ),
        positions_m_bits >= m_bits && positions.len() < k ==> insertion_refusal(
            m_bits,
            k,
            positions_m_bits,
            positions,
        ) == Some(BloomError::InsufficientPositions { count: positions.len() as usize, k }),
        positions_m_bits >= m_bits && positions.len() >= k ==> insertion_refusal(
            m_bits,
            k,
            positions_m_bits,
            positions,
        ) is None,
{
}

/// Whatever size and probe count the positions of a hash were calculated for, the filter contains
/// the hash once it has taken them.
pub proof fn taken_positions_are_contained(
    before: FilterView,
    text: Seq<char>,
    m_bits: u64,
    probe_count: u8,
    after: FilterView,
)
    requires
        before.wf(),
        is_power_of_two(m_bits as int),
        insertion_refusal(
            before.parameters.m_bits(),
            before.parameters.probe_count(),
            m_bits,
            probes(text, m_bits, probe_count),
        ) is None,
        inserted(before, probes(text, m_bits, probe_count), after),
    ensures
        after.contains(text),
        forall|i: int|
            0 <= i < before.parameters.probe_count() ==> bit_set(
                after.body,
                #[trigger] probe(text, before.parameters.m_bits() as int, i),
            ),
{
    inserted_hashes_are_contained(before, text, m_bits, probe_count, after);
}

/// A filter contains a hash if and only if every bit that the hash probes is set: one unset bit is
/// enough for a negative.
pub proof fn every_probed_bit_counts(view: FilterView, text: Seq<char>)
    ensures
        forall|i: int|
            0 <= i < view.parameters.probe_count() && !bit_set(
                view.body,
                #[trigger] probe(text, view.parameters.m_bits() as int, i),
            ) ==> !view.contains(text),
        (forall|i: int|
            0 <= i < view.parameters.probe_count() ==> bit_set(
                view.body,
                #[trigger] probe(text, view.parameters.m_bits() as int, i),
            )) ==> view.contains(text),
{
}

/// An insertion sets the bit of each of the first positions, reduced to the filter's size, and no
/// other bit, and changes nothing else.
pub proof fn insertion_sets_the_reduced_positions_alone(
    before: FilterView,
    positions: Seq<u64>,
    after: FilterView,
    p: int,
)
    requires
        before.wf(),
        inserted(before, positions, after),
        0 <= p < before.parameters.m_bits(),
    ensures
        after.parameters == before.parameters,
        after.built_at == before.built_at,
        after.source_max_row_id == before.source_max_row_id,
        after.body.len() == before.body.len(),
        forall|i: int|
            0 <= i < before.parameters.probe_count() && #[trigger] positions[i] as int
                % before.parameters.m_bits() as int == p ==> bit_set(after.body, p),
        bit_set(before.body, p) ==> bit_set(after.body, p),
        bit_set(after.body, p) && !bit_set(before.body, p) ==> exists|i: int|
            0 <= i < before.parameters.probe_count() && #[trigger] positions[i] as int
                % before.parameters.m_bits() as int == p,
{
    lemma_body_bits(before);
    let m_bits = before.parameters.m_bits() as int;
    let k = before.parameters.probe_count() as int;
    assert(bit_set(after.body, p) == (bit_set(before.body, p) || hits(positions, k, m_bits, p)));
}

/// The statistics of a filter count its set bits beside its size and probe count.
pub proof fn statistics_count_the_set_bits(view: FilterView)
    requires
        view.wf(),
    ensures
        view.stats().m_bits == view.parameters.m_bits(),
        view.stats().k == view.parameters.probe_count(),
        view.stats().set_bits == set_bits_below(view.body, view.parameters.m_bits() as nat).len(),
{
    lemma_body_bits(view);
    ones_counts_the_set_bits(view.body, view.parameters.m_bits() as nat);
    lemma_ones_below_bound(view.body, view.parameters.m_bits() as nat);
}

/// A set bit never becomes unset, so a hash that the filter contains stays contained.
pub proof fn insertion_keeps_what_is_contained(
    before: FilterView,
    positions: Seq<u64>,
    after: FilterView,
    text: Seq<char>,
)
    requires
        before.wf(),
        inserted(before, positions, after),
    ensures
        forall|p: int|
            0 <= p < before.parameters.m_bits() && bit_set(before.body, p) ==> #[trigger] bit_set(
                after.body,
                p,
            ),
        before.contains(text) ==> after.contains(text),
{
    lemma_body_bits(before);
    if before.contains(text) {
        let m_bits = before.parameters.m_bits() as int;
        assert forall|i: int| 0 <= i < after.parameters.probe_count() implies bit_set(
            after.body,
            #[trigger] probe(text, m_bits, i),
        ) by {
            probe_is_in_range(text, m_bits, i);
            assert(bit_set(before.body, probe(text, m_bits, i)));
        }
    }
}

/// Whether each filter of a history is the one before it after an insertion.
pub open spec fn is_history(filters: Seq<FilterView>, insertions: Seq<Seq<u64>>) -> bool {
    &&& filters.len() == insertions.len() + 1
    &&& filters[0].wf()
    &&& forall|i: int|
        0 <= i < insertions.len() ==> inserted(
            filters[i],
            #[trigger] insertions[i],
            filters[i + 1],
        )
}

/// The filters of a history have the same parameters.
proof fn lemma_history_is_wf(filters: Seq<FilterView>, insertions: Seq<Seq<u64>>, i: int)
    requires
        is_history(filters, insertions),
        0 <= i < filters.len(),
    ensures
        filters[i].wf(),
        filters[i].parameters == filters[0].parameters,
    decreases i,
{
    if i > 0 {
        lemma_history_is_wf(filters, insertions, i - 1);
        assert(inserted(filters[i - 1], insertions[i - 1], filters[i]));
    }
}

/// No insertion is ever forgotten: a hash that was inserted at any time, by positions that the
/// filter accepts, is contained at every later time.
pub proof fn no_insertion_is_forgotten(
    filters: Seq<FilterView>,
    insertions: Seq<Seq<u64>>,
    i: int,
    text: Seq<char>,
    m_bits: u64,
    probe_count: u8,
    later: int,
)
    requires
        is_history(filters, insertions),
        0 <= i < later < filters.len(),
        is_power_of_two(m_bits as int),
        filters[0].parameters.m_bits() <= m_bits,
        filters[0].parameters.probe_count() <= probe_count,
        insertions[i] == probes(text, m_bits, probe_count),
    ensures
        filters[later].contains(text),
    decreases later,
{
    lemma_history_is_wf(filters, insertions, later - 1);
    let step = insertions[later - 1];
    if later == i + 1 {
        inserted_hashes_are_contained(filters[i], text, m_bits, probe_count, filters[later]);
    } else {
        no_insertion_is_forgotten(
            filters,
            insertions,
            i,
            text,
            m_bits,
            probe_count,
            later - 1,
        );
        insertion_keeps_what_is_contained(filters[later - 1], step, filters[later], text);
    }
}

/// Positions calculated for a larger filter set exactly the bits that this filter probes itself.
pub proof fn larger_positions_set_the_same_bits(
    before: FilterView,
    text: Seq<char>,
    m_bits: u64,
    probe_count: u8,
    by_larger: FilterView,
    by_own: FilterView,
)
    requires
        before.wf(),
        is_power_of_two(m_bits as int),
        before.parameters.m_bits() <= m_bits,
        before.parameters.probe_count() <= probe_count,
        inserted(before, probes(text, m_bits, probe_count), by_larger),
        inserted(
            before,
            probes(text, before.parameters.m_bits(), before.parameters.probe_count()),
            by_own,
        ),
    ensures
        by_larger == by_own,
{
    lemma_body_bits(before);
    let small = before.parameters.m_bits();
    let k = before.parameters.probe_count();
    let larger = probes(text, m_bits, probe_count);
    let own = probes(text, small, k);
    assert forall|i: int| 0 <= i < k implies #[trigger] larger[i] as int % small as int
        == own[i] as int % small as int by {
        probes_mask_down(text, small as int, m_bits as int, i);
        probe_is_in_range(text, m_bits as int, i);
        probe_is_in_range(text, small as int, i);
        vstd::arithmetic::div_mod::lemma_small_mod(own[i] as nat, small as nat);
    }
    assert forall|p: int| 0 <= p < 8 * by_own.body.len() implies bit_set(by_larger.body, p)
        == #[trigger] bit_set(by_own.body, p) by {
        if hits(larger, k as int, small as int, p) {
            let i = choose|i: int| 0 <= i < k && #[trigger] larger[i] as int % small as int == p;
            assert(own[i] as int % small as int == p);
        }
        if hits(own, k as int, small as int, p) {
            let i = choose|i: int| 0 <= i < k && #[trigger] own[i] as int % small as int == p;
            assert(larger[i] as int % small as int == p);
        }
        assert(bit_set(by_larger.body, p) == (bit_set(before.body, p) || hits(
            larger,
            k as int,
            small as int,
            p,
        )));
    }
    lemma_bits_determine_body(by_larger.body, by_own.body);
}

proof fn lemma_more_bits_are_more_ones(a: Seq<u8>, b: Seq<u8>, n: nat)
    requires
        forall|p: int| 0 <= p < n && bit_set(a, p) ==> #[trigger] bit_set(b, p),
    ensures
        ones_below(a, n) <= ones_below(b, n),
    decreases n,
{
    if n > 0 {
        lemma_more_bits_are_more_ones(a, b, (n - 1) as nat);
        assert(bit_set(a, n - 1) ==> bit_set(b, n - 1));
    }
}

/// An insertion never lowers the number of set bits.
pub proof fn insertion_never_lowers_occupancy(
    before: FilterView,
    positions: Seq<u64>,
    after: FilterView,
)
    requires
        before.wf(),
        inserted(before, positions, after),
    ensures
        ones(before.body) <= ones(after.body),
{
    lemma_body_bits(before);
    lemma_more_bits_are_more_ones(before.body, after.body, 8 * before.body.len());
}

/// Duplicates are free: a second insertion of the same positions changes nothing.
pub proof fn insertion_is_idempotent(
    before: FilterView,
    positions: Seq<u64>,
    after: FilterView,
    again: FilterView,
)
    requires
        before.wf(),
        inserted(before, positions, after),
        inserted(after, positions, again),
    ensures
        again == after,
{
    lemma_body_bits(before);
    assert forall|p: int| 0 <= p < 8 * again.body.len() implies bit_set(again.body, p)
        == #[trigger] bit_set(after.body, p) by {}
    lemma_bits_determine_body(again.body, after.body);
}

/// Two insertions give the same filter in either order.
pub proof fn insertions_commute(
    before: FilterView,
    p: Seq<u64>,
    q: Seq<u64>,
    after_p: FilterView,
    after_p_q: FilterView,
    after_q: FilterView,
    after_q_p: FilterView,
)
    requires
        before.wf(),
        inserted(before, p, after_p),
        inserted(after_p, q, after_p_q),
        inserted(before, q, after_q),
        inserted(after_q, p, after_q_p),
    ensures
        after_p_q == after_q_p,
{
    lemma_body_bits(before);
    assert forall|b: int| 0 <= b < 8 * after_p_q.body.len() implies bit_set(after_p_q.body, b)
        == #[trigger] bit_set(after_q_p.body, b) by {
        assert(bit_set(after_p.body, b) == bit_set(after_p.body, b));
        assert(bit_set(after_q.body, b) == bit_set(after_q.body, b));
    }
    lemma_bits_determine_body(after_p_q.body, after_q_p.body);
}

/// A filter whose body is zero contains no hash.
pub proof fn an_empty_filter_contains_nothing(view: FilterView, text: Seq<char>)
    requires
        view.wf(),
        forall|i: int| 0 <= i < view.body.len() ==> #[trigger] view.body[i] == 0,
    ensures
        !view.contains(text),
{
    lemma_body_bits(view);
    let p = probe(text, view.parameters.m_bits() as int, 0);
    probe_is_in_range(text, view.parameters.m_bits() as int, 0);
    let mask = 1u8 << ((p % 8) as u8);
    assert(view.body[p / 8] == 0);
    assert(0u8 & mask == 0) by (bit_vector);
    assert(!bit_set(view.body, p));
}

/// A filter round-trips through a snapshot: decoding accepts the bytes that encoding gives, and
/// gives the filter back.
pub proof fn snapshots_round_trip(view: FilterView)
    requires
        view.wf(),
    ensures
        snapshot_accepted(view.parameters, snapshot_bytes(view)),
        snapshot_view(view.parameters, snapshot_bytes(view)) == view,
{
    header_round_trips(header_of(view), view.body);
    assert(snapshot_body(snapshot_bytes(view)) =~= view.body);
    assert(snapshot_view(view.parameters, snapshot_bytes(view)) =~= view);
}

/// A filter has one snapshot: encoding what was decoded gives the same bytes.
pub proof fn snapshots_are_canonical(parameters: BloomParameters, encoded: Seq<u8>)
    requires
        snapshot_accepted(parameters, encoded),
    ensures
        snapshot_bytes(snapshot_view(parameters, encoded)) == encoded,
{
    let view = snapshot_view(parameters, encoded);
    header_is_the_only_one(encoded);
    assert(header_of(view) =~= read_header(encoded));
    assert(snapshot_bytes(view) =~= encoded);
}

/// Corruption is rejected: a body of the right length with another checksum is refused for its
/// checksum.
pub proof fn corrupted_bodies_are_refused(view: FilterView, body: Seq<u8>, error: BloomError)
    requires
        view.wf(),
        body.len() == view.body.len(),
        sha256_digest(body)@ != sha256_digest(view.body)@,
    ensures
        !snapshot_accepted(view.parameters, header_bytes(header_of(view)) + body),
        snapshot_refusal(view.parameters, header_bytes(header_of(view)) + body, error)
            <==> checksum_refusal(header_bytes(header_of(view)) + body, error),
{
    header_round_trips(header_of(view), body);
    assert(snapshot_body(header_bytes(header_of(view)) + body) =~= body);
}

/// The manifest of an encoded snapshot accepts its bytes, in whatever chunks they come, and
/// describes the filter that is decoded from them.
pub proof fn manifests_describe_their_snapshots(view: FilterView, manifest: SnapshotManifest)
    requires
        view.wf(),
        manifest.version == CURRENT_DEFINITION_VERSION,
        manifest.describes(
            encoded_view(view).parameters,
            encoded_view(view).source_max_row_id,
            encoded_view(view).body_checksum,
        ),
    ensures
        forall|chunks: Seq<Seq<u8>>| #[trigger]
            joined(chunks) == encoded_view(view).bytes ==> stream_accepted(
                manifest,
                joined(chunks),
            ),
        ({
            let decoded = snapshot_view(manifest.parameters, encoded_view(view).bytes);
            manifest.snapshot_refusal(
                decoded.parameters,
                decoded.source_max_row_id,
                sha256_digest(decoded.body)@,
            ) is None
        }),
{
    snapshots_round_trip(view);
}

/// A manifest that is read back as it was written is decoded to itself where its version is
/// current, as that of a new manifest is, and is refused for its version otherwise. One that could
/// not be read is refused for that.
pub proof fn manifests_round_trip(manifest: SnapshotManifest, unread: serde_json::Error)
    ensures
        decoded_manifest(Err(unread)) == Err::<SnapshotManifest, BloomError>(
            BloomError::ManifestJson(unread),
        ),
        manifest.version == CURRENT_DEFINITION_VERSION ==> decoded_manifest(Ok(manifest)) == Ok::<
            SnapshotManifest,
            BloomError,
        >(manifest),
        manifest.version != CURRENT_DEFINITION_VERSION ==> decoded_manifest(Ok(manifest)) == Err::<
            SnapshotManifest,
            BloomError,
        >(
            BloomError::IncompatibleDefinition {
                expected: CURRENT_DEFINITION_VERSION,
                actual: manifest.version,
            },
        ),
{
}

/// A manifest describes one set of parameters, one source cursor and one checksum.
pub proof fn manifests_describe_nothing_else(
    manifest: SnapshotManifest,
    a: FilterView,
    b: FilterView,
)
    requires
        manifest.describes(a.parameters, a.source_max_row_id, sha256_digest(a.body)@),
        manifest.describes(b.parameters, b.source_max_row_id, sha256_digest(b.body)@),
    ensures
        a.parameters == b.parameters,
        a.source_max_row_id == b.source_max_row_id,
        sha256_digest(a.body)@ == sha256_digest(b.body)@,
{
    hex_text_is_injective(sha256_digest(a.body)@, sha256_digest(b.body)@);
}

/// Whether two errors refuse bytes for the same reason: they are equal, but for the number of
/// bytes that a body of the wrong length is said to have.
pub open spec fn same_refusal(x: BloomError, y: BloomError) -> bool {
    match (x, y) {
        (
            BloomError::InvalidBodyLength { expected: a, .. },
            BloomError::InvalidBodyLength { expected: b, .. },
        ) => a == b,
        (
            BloomError::ChecksumMismatch { expected: a, actual: c },
            BloomError::ChecksumMismatch { expected: b, actual: d },
        ) => a@ == b@ && c@ == d@,
        (BloomError::InvalidMagic { actual: a }, BloomError::InvalidMagic { actual: b }) => a@
            == b@,
        _ => x == y,
    }
}

/// Whether an estimate gives one rate for the same statistics.
pub open spec fn is_function<F: Fn(BloomSnapshotStats) -> Rate>(estimate: F) -> bool {
    forall|stats: BloomSnapshotStats, x: Rate, y: Rate| #[trigger]
        call_ensures(estimate, (stats,), x) && #[trigger] call_ensures(estimate, (stats,), y) ==> x
            == y
}

/// A snapshot decodes under its manifest, in whatever chunks it comes, where memory was reserved
/// and no rate that is estimated for it is too high: to the filter and its statistics.
pub proof fn chunked_snapshots_decode<F: Fn(BloomSnapshotStats) -> Rate>(
    view: FilterView,
    manifest: SnapshotManifest,
    chunks: Seq<Seq<u8>>,
    estimate: F,
    r: Result<(ConcurrentBloomFilter, BloomSnapshotStats), BloomError>,
)
    requires
        view.wf(),
        manifest.version == CURRENT_DEFINITION_VERSION,
        manifest.describes(
            encoded_view(view).parameters,
            encoded_view(view).source_max_row_id,
            encoded_view(view).body_checksum,
        ),
        joined(chunks) == encoded_view(view).bytes,
        forall|rate: Rate| #[trigger]
            call_ensures(estimate, (view.stats(),), rate) ==> !rate.exceeds(
                view.parameters.max_accepted_false_positive_rate(),
            ),
        stream_outcome(manifest, chunks, true, estimate, r),
    ensures
        r matches Ok((filter, stats)) && filter@ == view && stats == view.stats(),
{
    manifests_describe_their_snapshots(view, manifest);
    snapshots_round_trip(view);
}

/// A snapshot that the manifest does not describe is refused for that, in whatever chunks it
/// comes, where memory was reserved.
pub proof fn snapshots_of_other_manifests_are_refused<F: Fn(BloomSnapshotStats) -> Rate>(
    view: FilterView,
    manifest: SnapshotManifest,
    chunks: Seq<Seq<u8>>,
    estimate: F,
    r: Result<(ConcurrentBloomFilter, BloomSnapshotStats), BloomError>,
)
    requires
        view.wf(),
        manifest.version == CURRENT_DEFINITION_VERSION,
        manifest.parameters == view.parameters,
        !manifest.describes(
            encoded_view(view).parameters,
            encoded_view(view).source_max_row_id,
            encoded_view(view).body_checksum,
        ),
        joined(chunks) == encoded_view(view).bytes,
        stream_outcome(manifest, chunks, true, estimate, r),
    ensures
        r == Err::<(ConcurrentBloomFilter, BloomSnapshotStats), BloomError>(
            BloomError::ManifestSnapshotMismatch,
        ),
{
    snapshots_round_trip(view);
}

/// A body of another length than the header says is refused for its length, in whatever chunks it
/// comes, where memory was reserved. The error counts the bytes up to the end of the first chunk
/// that was too much, or all of them.
pub proof fn bodies_of_other_lengths_are_refused<F: Fn(BloomSnapshotStats) -> Rate>(
    view: FilterView,
    body: Seq<u8>,
    manifest: SnapshotManifest,
    chunks: Seq<Seq<u8>>,
    estimate: F,
    r: Result<(ConcurrentBloomFilter, BloomSnapshotStats), BloomError>,
)
    requires
        view.wf(),
        manifest.version == CURRENT_DEFINITION_VERSION,
        manifest.parameters == view.parameters,
        body.len() != view.body.len(),
        joined(chunks) == header_bytes(header_of(view)) + body,
        stream_outcome(manifest, chunks, true, estimate, r),
    ensures
        r matches Err(BloomError::InvalidBodyLength { expected, actual }) && {
            &&& expected == view.body.len()
            &&& body.len() < view.body.len() ==> actual == body.len()
            &&& body.len() > view.body.len() ==> actual == saturated(
                (overrun(chunks, SNAPSHOT_HEADER_LEN as nat + view.body.len())
                    - SNAPSHOT_HEADER_LEN) as nat,
            )
        },
{
    header_round_trips(header_of(view), body);
    assert(snapshot_body(joined(chunks)) =~= body);
    if body.len() < view.body.len() {
        lemma_overrun_of_short(chunks, SNAPSHOT_HEADER_LEN as nat + view.body.len());
    }
}

/// Where the bytes are cut does not matter: equal bytes in other chunks give the same filter and
/// statistics, or are refused for the same reason.
pub proof fn chunk_boundaries_do_not_matter<F: Fn(BloomSnapshotStats) -> Rate>(
    manifest: SnapshotManifest,
    a: Seq<Seq<u8>>,
    b: Seq<Seq<u8>>,
    reserved: bool,
    estimate: F,
    from_a: Result<(ConcurrentBloomFilter, BloomSnapshotStats), BloomError>,
    from_b: Result<(ConcurrentBloomFilter, BloomSnapshotStats), BloomError>,
)
    requires
        joined(a) == joined(b),
        is_function(estimate),
        stream_outcome(manifest, a, reserved, estimate, from_a),
        stream_outcome(manifest, b, reserved, estimate, from_b),
    ensures
        match (from_a, from_b) {
            (Ok((filter, stats)), Ok((other, other_stats))) => {
                &&& filter@ == other@
                &&& stats == other_stats
            },
            (Err(x), Err(y)) => same_refusal(x, y),
            _ => false,
        },
{
}

/// Where no more bytes come than a snapshot has, the errors for other chunks are the same to the
/// last number.
pub proof fn short_streams_are_refused_alike(
    manifest: SnapshotManifest,
    a: Seq<Seq<u8>>,
    b: Seq<Seq<u8>>,
    error: BloomError,
)
    requires
        joined(a) == joined(b),
        joined(a).len() <= SNAPSHOT_HEADER_LEN + manifest.parameters.m_bits() / 8,
    ensures
        stream_refusal(manifest, a, error) == stream_refusal(manifest, b, error),
{
    let limit = (SNAPSHOT_HEADER_LEN + manifest.parameters.m_bits() / 8) as nat;
    lemma_overrun_of_short(a, limit);
    lemma_overrun_of_short(b, limit);
}

/// Decoding in chunks succeeds exactly where memory was reserved, the version of the manifest is
/// current, decoding the whole succeeds and the manifest describes the result; it then gives the
/// same filter. Bytes that are no intact snapshot are refused for the same reason either way, and
/// so is an intact snapshot with too high a rate that the manifest describes.
pub proof fn chunked_and_whole_decoding_agree<F: Fn(BloomSnapshotStats) -> Rate>(
    manifest: SnapshotManifest,
    chunks: Seq<Seq<u8>>,
    estimate: F,
    whole: Result<ConcurrentBloomFilter, BloomError>,
    chunked: Result<(ConcurrentBloomFilter, BloomSnapshotStats), BloomError>,
)
    requires
        joined(chunks).len() <= usize::MAX,
        is_function(estimate),
        snapshot_outcome(manifest.parameters, joined(chunks), estimate, whole),
        stream_outcome(manifest, chunks, true, estimate, chunked),
    ensures
        chunked is Ok <==> {
            &&& definition_refusal(manifest.version) is None
            &&& whole matches Ok(filter)
            &&& manifest.snapshot_refusal(
                filter@.parameters,
                filter@.source_max_row_id,
                sha256_digest(filter@.body)@,
            ) is None
        },
        chunked matches Ok((filter, stats)) ==> {
            &&& whole matches Ok(other)
            &&& filter@ == other@
            &&& stats == other@.stats()
            &&& snapshot_bytes(filter@) == joined(chunks)
            &&& filter@.parameters == manifest.parameters
            &&& filter@.source_max_row_id == manifest.source_max_row_id
        },
        ({
            &&& definition_refusal(manifest.version) is None
            &&& whole is Err
            &&& snapshot_accepted(manifest.parameters, joined(chunks)) ==> stream_accepted(
                manifest,
                joined(chunks),
            )
        }) ==> (chunked is Err && same_refusal(whole->Err_0, chunked->Err_0)),
{
    if snapshot_accepted(manifest.parameters, joined(chunks)) {
        snapshots_are_canonical(manifest.parameters, joined(chunks));
    }
}

/// A version bump creates a separate namespace: no key below the prefix of one version is below
/// the prefix of another.
pub proof fn versions_have_separate_namespaces(a: u8, b: u8, below_a: Seq<u8>, below_b: Seq<u8>)
    requires
        a != b,
    ensures
        object_prefix_text(a) != object_prefix_text(b),
        join(object_prefix_text(a), below_a) != join(object_prefix_text(b), below_b),
{
    reveal_strlit("bloom");
    reveal_strlit("v");
    let da = decimal(a as nat);
    let db = decimal(b as nat);
    let pa = object_prefix_text(a);
    let pb = object_prefix_text(b);
    decimal_round_trips(a as nat);
    decimal_round_trips(b as nat);
    assert(pa.len() == 7 + da.len());
    assert(pb.len() == 7 + db.len());
    assert forall|i: int| 0 <= i < da.len() implies pa[7 + i] == da[i] by {}
    assert forall|i: int| 0 <= i < db.len() implies pb[7 + i] == db[i] by {}
    if pa == pb {
        assert(da =~= db);
    }
    let ka = join(pa, below_a);
    let kb = join(pb, below_b);
    if ka == kb {
        assert(ka[7int + da.len()] == 0x2f);
        assert(kb[7int + db.len()] == 0x2f);
        if da.len() < db.len() {
            assert(kb[7int + da.len()] == db[da.len() as int]);
        } else if db.len() < da.len() {
            assert(ka[7int + db.len()] == da[db.len() as int]);
        } else {
            assert forall|i: int| 0 <= i < da.len() implies da[i] == db[i] by {
                assert(ka[7 + i] == pa[7 + i]);
                assert(kb[7 + i] == pb[7 + i]);
            }
            assert(da =~= db);
        }
    }
}

} // verus!
