//! Decoding of a snapshot that arrives in chunks.

use crate::bloom::error::BloomError;
use crate::bloom::filter::{
    checksum_refusal, rate_refusal, snapshot_accepted, snapshot_body, snapshot_view,
    BloomSnapshotStats, ConcurrentBloomFilter,
};
use crate::bloom::header::{
    header_accepted, header_refusal, lemma_header_prefix, read_header, DecodedSnapshotHeader,
    SnapshotHeader, SNAPSHOT_HEADER_LEN,
};
use crate::bloom::manifest::{definition_refusal, SnapshotManifest};
use crate::bloom::parameters::{Dimensions, Rate};
use crate::bloom::power::{is_power_of_two, lemma_smaller_power_divides};
use crate::outside::{hex_encode, sha256, sha256_digest};
use crate::text::{bytes_eq, push_bytes, to_vec};
use vstd::prelude::*;

verus! {

/// The bytes of chunks.
pub open spec fn chunk_bytes(chunks: Seq<&[u8]>) -> Seq<Seq<u8>> {
    chunks.map_values(|chunk: &[u8]| chunk@)
}

/// The bytes of all chunks, one after another.
pub open spec fn joined(chunks: Seq<Seq<u8>>) -> Seq<u8>
    decreases chunks.len(),
{
    if chunks.len() == 0 {
        Seq::empty()
    } else {
        joined(chunks.drop_last()) + chunks.last()
    }
}

/// How many bytes have come with the first chunk that brings their number above a limit.
pub open spec fn overrun(chunks: Seq<Seq<u8>>, limit: nat) -> nat
    decreases chunks.len(),
{
    if chunks.len() > 0 && joined(chunks.drop_last()).len() > limit {
        overrun(chunks.drop_last(), limit)
    } else {
        joined(chunks).len()
    }
}

/// The first chunks hold the first bytes.
proof fn lemma_joined_prefix(chunks: Seq<Seq<u8>>, n: int)
    requires
        0 <= n <= chunks.len(),
    ensures
        joined(chunks.take(n)).len() <= joined(chunks).len(),
        joined(chunks).take(joined(chunks.take(n)).len() as int) == joined(chunks.take(n)),
    decreases chunks.len(),
{
    if n == chunks.len() {
        assert(chunks.take(n) =~= chunks);
        assert(joined(chunks).take(joined(chunks).len() as int) =~= joined(chunks));
    } else {
        let shorter = chunks.drop_last();
        lemma_joined_prefix(shorter, n);
        assert(shorter.take(n) =~= chunks.take(n));
        let part = joined(chunks.take(n));
        assert(joined(chunks).take(part.len() as int) =~= joined(shorter).take(part.len() as int));
    }
}

/// Chunks after the first that goes above the limit do not change the overrun.
proof fn lemma_overrun(chunks: Seq<Seq<u8>>, n: int, limit: nat)
    requires
        0 <= n < chunks.len(),
        joined(chunks.take(n)).len() <= limit < joined(chunks.take(n + 1)).len(),
    ensures
        joined(chunks).len() > limit,
        overrun(chunks, limit) == joined(chunks.take(n + 1)).len(),
    decreases chunks.len(),
{
    if n + 1 == chunks.len() {
        assert(chunks.take(n + 1) =~= chunks);
        assert(chunks.drop_last() =~= chunks.take(n));
    } else {
        let shorter = chunks.drop_last();
        assert(shorter.take(n) =~= chunks.take(n));
        assert(shorter.take(n + 1) =~= chunks.take(n + 1));
        lemma_overrun(shorter, n, limit);
        lemma_joined_prefix(chunks, n + 1);
    }
}

/// A number of bytes as it is reported: at most the largest number there is.
pub open spec fn saturated(n: nat) -> usize {
    if n <= usize::MAX {
        n as usize
    } else {
        usize::MAX
    }
}

/// Whether bytes are an intact snapshot that a manifest describes.
pub open spec fn stream_accepted(manifest: SnapshotManifest, encoded: Seq<u8>) -> bool {
    &&& definition_refusal(manifest.version) is None
    &&& snapshot_accepted(manifest.parameters, encoded)
    &&& manifest.describes(
        manifest.parameters,
        read_header(encoded).source_max_row_id,
        sha256_digest(snapshot_body(encoded))@,
    )
}

/// Whether `error` is what is wrong with chunks that do not hold an intact snapshot that the
/// manifest describes: the first of the manifest's version, the length of the header, the header,
/// the length of the body, its checksum, and the manifest's other values.
pub open spec fn stream_refusal(
    manifest: SnapshotManifest,
    chunks: Seq<Seq<u8>>,
    error: BloomError,
) -> bool {
    let encoded = joined(chunks);
    let parameters = manifest.parameters;
    let body_len = parameters.m_bits() / 8;
    match definition_refusal(manifest.version) {
        Some(incompatible) => error == incompatible,
        None => if encoded.len() < SNAPSHOT_HEADER_LEN {
            error == (BloomError::Truncated {
                expected_at_least: SNAPSHOT_HEADER_LEN,
                actual: encoded.len() as usize,
            })
        } else if !header_accepted(read_header(encoded), parameters) {
            header_refusal(read_header(encoded), parameters, error)
        } else if snapshot_body(encoded).len() != body_len {
            error == (BloomError::InvalidBodyLength {
                expected: body_len as usize,
                actual: saturated(
                    (overrun(chunks, (SNAPSHOT_HEADER_LEN + body_len) as nat)
                        - SNAPSHOT_HEADER_LEN) as nat,
                ),
            })
        } else if read_header(encoded).body_checksum != sha256_digest(snapshot_body(encoded))@ {
            checksum_refusal(encoded, error)
        } else {
            error == BloomError::ManifestSnapshotMismatch
        },
    }
}

/// Whether bytes start with a header that fits a manifest of the current version. Memory for the
/// body is reserved exactly then.
pub open spec fn header_fits(manifest: SnapshotManifest, encoded: Seq<u8>) -> bool {
    &&& definition_refusal(manifest.version) is None
    &&& encoded.len() >= SNAPSHOT_HEADER_LEN
    &&& header_accepted(read_header(encoded), manifest.parameters)
}

/// The number of body bytes under the parameters of a manifest.
pub open spec fn body_len(manifest: SnapshotManifest) -> usize {
    (manifest.parameters.m_bits() / 8) as usize
}

/// Whether nothing is wrong yet with chunks to which more may come.
pub open spec fn chunks_fit(manifest: SnapshotManifest, chunks: Seq<Seq<u8>>) -> bool {
    let encoded = joined(chunks);
    ||| encoded.len() < SNAPSHOT_HEADER_LEN
    ||| {
        &&& header_accepted(read_header(encoded), manifest.parameters)
        &&& encoded.len() <= SNAPSHOT_HEADER_LEN + manifest.parameters.m_bits() / 8
    }
}

/// Whether a chunk brings the last byte of a header that fits.
pub open spec fn completes_header(
    manifest: SnapshotManifest,
    before: Seq<Seq<u8>>,
    chunk: Seq<u8>,
) -> bool {
    &&& joined(before).len() < SNAPSHOT_HEADER_LEN
    &&& header_fits(manifest, joined(before.push(chunk)))
}

/// Whether chunks are refused with this error whatever chunks follow them.
pub open spec fn refused_early(
    manifest: SnapshotManifest,
    chunks: Seq<Seq<u8>>,
    error: BloomError,
) -> bool {
    forall|rest: Seq<Seq<u8>>|
        {
            &&& !stream_accepted(manifest, joined(#[trigger] (chunks + rest)))
            &&& stream_refusal(manifest, chunks + rest, error)
        }
}

/// What taking a chunk gives. Where the chunk completes a header that fits, `reserved` says
/// whether memory for the body could be reserved.
pub open spec fn chunk_outcome(
    manifest: SnapshotManifest,
    before: Seq<Seq<u8>>,
    chunk: Seq<u8>,
    reserved: bool,
    r: Result<(), BloomError>,
) -> bool {
    if completes_header(manifest, before, chunk) && !reserved {
        r == Err::<(), BloomError>(BloomError::TooLarge { m_bits: manifest.parameters.m_bits() })
    } else {
        match r {
            Ok(_) => chunks_fit(manifest, before.push(chunk)),
            Err(error) => {
                &&& !chunks_fit(manifest, before.push(chunk))
                &&& refused_early(manifest, before.push(chunk), error)
            },
        }
    }
}

/// What decoding chunks gives. Where the bytes start with a header that fits, `reserved` says
/// whether memory for the body could be reserved.
pub open spec fn stream_outcome<F: Fn(BloomSnapshotStats) -> Rate>(
    manifest: SnapshotManifest,
    chunks: Seq<Seq<u8>>,
    reserved: bool,
    estimate: F,
    r: Result<(ConcurrentBloomFilter, BloomSnapshotStats), BloomError>,
) -> bool {
    if header_fits(manifest, joined(chunks)) && !reserved {
        r == Err::<(ConcurrentBloomFilter, BloomSnapshotStats), BloomError>(
            BloomError::TooLarge { m_bits: manifest.parameters.m_bits() },
        )
    } else {
        match r {
            Ok((filter, stats)) => decoded_stream(manifest, chunks, estimate, filter, stats),
            Err(error) => refused_stream(manifest, chunks, estimate, error),
        }
    }
}

/// Reserves memory for a body, or gives `None` where there is none to be had: as an empty `Vec`
/// answers to `Vec::try_reserve` with that length. Which of the two rests on the machine.
pub fn reserve_body(len: usize) -> (memory: Option<Vec<u8>>)
    ensures
        exists|body: &mut Vec<u8>, outcome: Result<(), std::collections::TryReserveError>|
            {
                &&& #[trigger] call_ensures(Vec::<u8>::try_reserve, (body, len), outcome)
                &&& body@.len() == 0
                &&& memory == (match outcome {
                    Ok(_) => Some(*final(body)),
                    Err(_) => None::<Vec<u8>>,
                })
            },
        memory matches Some(body) ==> body@.len() == 0,
{
    let mut body: Vec<u8> = Vec::new();
    match body.try_reserve(len) {
        Ok(_) => Some(body),
        Err(_) => None,
    }
}

/// The first bytes of chunks, up to the length of a header.
fn header_start(chunks: &[&[u8]]) -> (start: Vec<u8>)
    ensures
        joined(chunk_bytes(chunks@)).len() < SNAPSHOT_HEADER_LEN ==> start@ == joined(
            chunk_bytes(chunks@),
        ),
        joined(chunk_bytes(chunks@)).len() >= SNAPSHOT_HEADER_LEN ==> start@ == joined(
            chunk_bytes(chunks@),
        ).take(SNAPSHOT_HEADER_LEN as int),
{
    let ghost all = chunk_bytes(chunks@);
    let mut start: Vec<u8> = Vec::new();
    let mut i: usize = 0;
    assert(joined(all.take(0)) =~= Seq::<u8>::empty());
    while i < chunks.len()
        invariant
            i <= chunks@.len(),
            all == chunk_bytes(chunks@),
            start@ == joined(all.take(i as int)),
            start@.len() < SNAPSHOT_HEADER_LEN,
        decreases chunks@.len() - i,
    {
        let chunk = chunks[i];
        let missing: usize = SNAPSHOT_HEADER_LEN - start.len();
        proof {
            assert(all.take(i + 1).drop_last() =~= all.take(i as int));
            assert(joined(all.take(i + 1)) == start@ + chunk@);
        }
        if chunk.len() >= missing {
            push_bytes(&mut start, &chunk[0..missing]);
            proof {
                lemma_joined_prefix(all, i + 1);
                let part = joined(all.take(i + 1));
                assert(start@ =~= part.take(SNAPSHOT_HEADER_LEN as int));
                assert(joined(all).take(part.len() as int).take(SNAPSHOT_HEADER_LEN as int)
                    =~= joined(all).take(SNAPSHOT_HEADER_LEN as int));
            }
            return start;
        }
        push_bytes(&mut start, chunk);
        i = i + 1;
    }
    assert(all.take(i as int) =~= all);
    start
}

/// The number of body bytes to reserve memory for, if the first bytes are a header that fits.
fn fitting_body_len(manifest: &SnapshotManifest, start: &[u8]) -> (r: Option<usize>)
    requires
        manifest.parameters.wf(),
    ensures
        r == (if header_fits(*manifest, start@) {
            Some(body_len(*manifest))
        } else {
            None
        }),
{
    match manifest.validate_definition() {
        Ok(_) => {},
        Err(_) => {
            return None;
        },
    }
    match SnapshotHeader::read_from_prefix(start) {
        Some(header) => match DecodedSnapshotHeader::decode(&header, manifest.parameters) {
            Ok(header) => Some(header.dims.body_len()),
            Err(_) => None,
        },
        None => None,
    }
}

/// More chunks do not change the header.
proof fn lemma_header_stays(chunks: Seq<Seq<u8>>, rest: Seq<Seq<u8>>)
    requires
        joined(chunks).len() >= SNAPSHOT_HEADER_LEN,
    ensures
        joined(chunks + rest).len() >= joined(chunks).len(),
        read_header(joined(chunks + rest)) == read_header(joined(chunks)),
{
    let all = chunks + rest;
    assert(all.take(chunks.len() as int) =~= chunks);
    lemma_joined_prefix(all, chunks.len() as int);
    lemma_header_prefix(joined(chunks), joined(all));
}

proof fn lemma_header_refused_early(
    manifest: SnapshotManifest,
    chunks: Seq<Seq<u8>>,
    error: BloomError,
)
    requires
        definition_refusal(manifest.version) is None,
        joined(chunks).len() >= SNAPSHOT_HEADER_LEN,
        !header_accepted(read_header(joined(chunks)), manifest.parameters),
        header_refusal(read_header(joined(chunks)), manifest.parameters, error),
    ensures
        refused_early(manifest, chunks, error),
{
    assert forall|rest: Seq<Seq<u8>>|
        {
            &&& !stream_accepted(manifest, joined(#[trigger] (chunks + rest)))
            &&& stream_refusal(manifest, chunks + rest, error)
        } by {
        lemma_header_stays(chunks, rest);
    }
}

proof fn lemma_length_refused_early(
    manifest: SnapshotManifest,
    chunks: Seq<Seq<u8>>,
    error: BloomError,
)
    requires
        definition_refusal(manifest.version) is None,
        chunks.len() > 0,
        joined(chunks).len() >= SNAPSHOT_HEADER_LEN,
        header_accepted(read_header(joined(chunks)), manifest.parameters),
        joined(chunks.drop_last()).len() <= SNAPSHOT_HEADER_LEN + manifest.parameters.m_bits() / 8
            < joined(chunks).len(),
        error == (BloomError::InvalidBodyLength {
            expected: (manifest.parameters.m_bits() / 8) as usize,
            actual: saturated((joined(chunks).len() - SNAPSHOT_HEADER_LEN) as nat),
        }),
    ensures
        refused_early(manifest, chunks, error),
{
    let limit = (SNAPSHOT_HEADER_LEN + manifest.parameters.m_bits() / 8) as nat;
    assert forall|rest: Seq<Seq<u8>>|
        {
            &&& !stream_accepted(manifest, joined(#[trigger] (chunks + rest)))
            &&& stream_refusal(manifest, chunks + rest, error)
        } by {
        lemma_header_stays(chunks, rest);
        let all = chunks + rest;
        let last = chunks.len() - 1;
        assert(all.take(last) =~= chunks.drop_last());
        assert(all.take(last + 1) =~= chunks);
        lemma_overrun(all, last, limit);
    }
}

/// Decodes a snapshot whose bytes come in chunks.
///
/// Chunks may split the fixed header or body at any byte. No filter is given out until its
/// dimensions, body length, checksum, manifest metadata, and false-positive rate all pass
/// validation. The manifest's object key is trusted as the location from which the caller read
/// the bytes.
pub struct SnapshotDecoder<'a> {
    manifest: &'a SnapshotManifest,
    header_bytes: Vec<u8>,
    header: Option<DecodedSnapshotHeader>,
    body: Vec<u8>,
    chunks: Ghost<Seq<Seq<u8>>>,
}

impl<'a> SnapshotDecoder<'a> {
    /// The chunks that have come so far.
    pub closed spec fn view(&self) -> Seq<Seq<u8>> {
        self.chunks@
    }

    /// The manifest that the snapshot is decoded with.
    pub closed spec fn spec_manifest(&self) -> SnapshotManifest {
        *self.manifest
    }

    /// The header and body are those of the chunks.
    pub closed spec fn inv(&self) -> bool {
        let bytes = joined(self.chunks@);
        let parameters = self.manifest.parameters;
        match self.header {
            None => {
                &&& bytes.len() < SNAPSHOT_HEADER_LEN
                &&& self.header_bytes@ == bytes
                &&& self.body@.len() == 0
            },
            Some(header) => {
                &&& bytes.len() >= SNAPSHOT_HEADER_LEN
                &&& header_accepted(read_header(bytes), parameters)
                &&& header.dims.wf()
                &&& header.dims.m_bits() == parameters.m_bits()
                &&& header.dims.k() == parameters.probe_count()
                &&& header.built_at == read_header(bytes).built_at
                &&& header.source_max_row_id == read_header(bytes).source_max_row_id
                &&& header.body_checksum@ == read_header(bytes).body_checksum
                &&& self.body@ == snapshot_body(bytes)
                &&& self.body@.len() <= header.dims.body_len()
            },
        }
    }

    /// The decoder is in a state that [`Self::new`] and [`Self::take_chunk`] give.
    pub open spec fn wf(&self) -> bool {
        &&& self.spec_manifest().parameters.wf()
        &&& definition_refusal(self.spec_manifest().version) is None
        &&& chunks_fit(self.spec_manifest(), self@)
        &&& self.inv()
    }

    /// Starts to decode the snapshot of a manifest, if the manifest's version is the current one.
    pub fn new(manifest: &'a SnapshotManifest) -> (r: Result<Self, BloomError>)
        requires
            manifest.parameters.wf(),
        ensures
            match definition_refusal(manifest.version) {
                Some(error) => r == Err::<Self, BloomError>(error),
                None => {
                    &&& r matches Ok(decoder)
                    &&& decoder.wf()
                    &&& decoder.spec_manifest() == *manifest
                    &&& decoder@ == Seq::<Seq<u8>>::empty()
                },
            },
    {
        match manifest.validate_definition() {
            Ok(_) => {},
            Err(error) => {
                return Err(error);
            },
        }
        let decoder = SnapshotDecoder {
            manifest,
            header_bytes: Vec::new(),
            header: None,
            body: Vec::new(),
            chunks: Ghost(Seq::empty()),
        };
        assert(joined(decoder.chunks@) =~= Seq::<u8>::empty());
        Ok(decoder)
    }

    /// The number of body bytes to reserve memory for before the next chunk is taken, if the chunk
    /// completes a header that fits.
    fn needed_body_len(&self, chunk: &[u8]) -> (r: Option<usize>)
        requires
            self.wf(),
        ensures
            r == (if completes_header(self.spec_manifest(), self@, chunk@) {
                Some(body_len(self.spec_manifest()))
            } else {
                None
            }),
    {
        proof {
            assert(self@.push(chunk@).drop_last() =~= self@);
        }
        if self.header.is_some() {
            return None;
        }
        let missing: usize = SNAPSHOT_HEADER_LEN - self.header_bytes.len();
        if chunk.len() < missing {
            return None;
        }
        let mut start = to_vec(self.header_bytes.as_slice());
        push_bytes(&mut start, &chunk[0..missing]);
        proof {
            let whole = joined(self@.push(chunk@));
            assert(start@ =~= whole.take(SNAPSHOT_HEADER_LEN as int));
            lemma_header_prefix(start@, whole);
        }
        fitting_body_len(self.manifest, start.as_slice())
    }

    /// Takes the next chunk. An error is final: it holds whatever chunks would follow.
    pub fn take_chunk(&mut self, chunk: &[u8]) -> (r: Result<(), BloomError>)
        requires
            old(self).wf(),
        ensures
            final(self).spec_manifest() == old(self).spec_manifest(),
            r is Ok ==> final(self).wf() && final(self)@ == old(self)@.push(chunk@),
            if completes_header(old(self).spec_manifest(), old(self)@, chunk@) {
                exists|memory: Option<Vec<u8>>|
                    {
                        &&& #[trigger] call_ensures(
                            reserve_body,
                            (body_len(old(self).spec_manifest()),),
                            memory,
                        )
                        &&& chunk_outcome(
                            old(self).spec_manifest(),
                            old(self)@,
                            chunk@,
                            memory is Some,
                            r,
                        )
                    }
            } else {
                chunk_outcome(old(self).spec_manifest(), old(self)@, chunk@, true, r)
            },
            joined(old(self)@).len() >= SNAPSHOT_HEADER_LEN ==> (r is Ok <==> joined(
                old(self)@.push(chunk@),
            ).len() <= SNAPSHOT_HEADER_LEN + old(self).spec_manifest().parameters.m_bits() / 8),
    {
        let reserved: bool = match self.needed_body_len(chunk) {
            Some(len) => match reserve_body(len) {
                Some(body) => {
                    self.body = body;
                    true
                },
                None => false,
            },
            None => true,
        };
        self.take_chunk_reserved(chunk, reserved)
    }

    /// Takes the next chunk. Where it completes a header that fits, `reserved` says whether memory
    /// for the body could be reserved.
    pub fn take_chunk_reserved(&mut self, chunk: &[u8], reserved: bool) -> (r: Result<
        (),
        BloomError,
    >)
        requires
            old(self).wf(),
        ensures
            final(self).spec_manifest() == old(self).spec_manifest(),
            r is Ok ==> final(self).wf() && final(self)@ == old(self)@.push(chunk@),
            chunk_outcome(old(self).spec_manifest(), old(self)@, chunk@, reserved, r),
            joined(old(self)@).len() >= SNAPSHOT_HEADER_LEN ==> (r is Ok <==> joined(
                old(self)@.push(chunk@),
            ).len() <= SNAPSHOT_HEADER_LEN + old(self).spec_manifest().parameters.m_bits() / 8),
    {
        let ghost manifest = *self.manifest;
        let ghost bytes = joined(self.chunks@);
        let ghost chunks = self.chunks@.push(chunk@);
        let ghost whole = joined(chunks);
        proof {
            assert(chunks.drop_last() =~= self.chunks@);
            assert(whole == bytes + chunk@);
        }
        self.chunks = Ghost(chunks);
        let mut start: usize = 0;
        let header = match self.header {
            Some(header) => {
                proof {
                    assert(whole.take(bytes.len() as int) =~= bytes);
                    lemma_header_prefix(bytes, whole);
                }
                header
            },
            None => {
                let missing: usize = SNAPSHOT_HEADER_LEN - self.header_bytes.len();
                if chunk.len() < missing {
                    push_bytes(&mut self.header_bytes, chunk);
                    return Ok(());
                }
                start = missing;
                push_bytes(&mut self.header_bytes, &chunk[0..missing]);
                proof {
                    assert(self.header_bytes@ =~= whole.take(SNAPSHOT_HEADER_LEN as int));
                    lemma_header_prefix(self.header_bytes@, whole);
                }
                let header = match SnapshotHeader::read_from_prefix(self.header_bytes.as_slice()) {
                    Some(header) => header,
                    None => {
                        return Ok(());
                    },
                };
                let header = match DecodedSnapshotHeader::decode(
                    &header,
                    self.manifest.parameters,
                ) {
                    Ok(header) => header,
                    Err(error) => {
                        proof {
                            lemma_header_refused_early(manifest, chunks, error);
                        }
                        return Err(error);
                    },
                };
                match header.check_reserved(reserved) {
                    Ok(_) => {},
                    Err(error) => {
                        return Err(error);
                    },
                }
                self.header = Some(header);
                header
            },
        };
        let rest = &chunk[start..chunk.len()];
        assert(self.body@ + rest@ =~= snapshot_body(whole));
        let actual: usize = self.body.len().saturating_add(rest.len());
        proof {
            lemma_body_len_is_not_the_maximum(header.dims);
        }
        if actual > header.dims.body_len() {
            let error = BloomError::InvalidBodyLength {
                expected: header.dims.body_len(),
                actual,
            };
            proof {
                lemma_length_refused_early(manifest, chunks, error);
            }
            return Err(error);
        }
        push_bytes(&mut self.body, rest);
        Ok(())
    }

    /// Validates the snapshot that the chunks hold. `estimate` gives the false-positive rate that
    /// is estimated from the occupancy of the body.
    pub fn finish<F: Fn(BloomSnapshotStats) -> Rate>(self, estimate: F) -> (r: Result<
        (ConcurrentBloomFilter, BloomSnapshotStats),
        BloomError,
    >)
        requires
            self.wf(),
            forall|stats: BloomSnapshotStats| call_requires(estimate, (stats,)),
        ensures
            stream_outcome(self.spec_manifest(), self@, true, estimate, r),
    {
        let parameters = self.manifest.parameters;
        let ghost limit: nat = (SNAPSHOT_HEADER_LEN + parameters.m_bits() / 8) as nat;
        let header = match self.header {
            Some(header) => header,
            None => {
                return Err(
                    BloomError::Truncated {
                        expected_at_least: SNAPSHOT_HEADER_LEN,
                        actual: self.header_bytes.len(),
                    },
                );
            },
        };
        let manifest = self.manifest;
        let body = self.body;
        if body.len() != header.dims.body_len() {
            proof {
                lemma_overrun_of_short(self@, limit);
            }
            return Err(
                BloomError::InvalidBodyLength {
                    expected: header.dims.body_len(),
                    actual: body.len(),
                },
            );
        }
        let actual_checksum: [u8; 32] = sha256(body.as_slice());
        if !bytes_eq(actual_checksum.as_slice(), header.body_checksum.as_slice()) {
            return Err(
                BloomError::ChecksumMismatch {
                    expected: hex_encode(header.body_checksum.as_slice()),
                    actual: hex_encode(actual_checksum.as_slice()),
                },
            );
        }
        match manifest.validate_snapshot_parts(
            parameters,
            header.source_max_row_id,
            actual_checksum,
        ) {
            Ok(_) => {},
            Err(error) => {
                return Err(error);
            },
        }
        let snapshot = ConcurrentBloomFilter::from_parts(parameters, header, body, actual_checksum);
        let stats = snapshot.stats();
        let rate: Rate = estimate(stats);
        match rate.validate(parameters.max_accepted_false_positive_rate()) {
            Ok(_) => Ok((snapshot, stats)),
            Err(error) => Err(error),
        }
    }
}

/// Whether a filter and its statistics are what chunks hold, and the rate that is estimated for it
/// is accepted.
pub open spec fn decoded_stream<F: Fn(BloomSnapshotStats) -> Rate>(
    manifest: SnapshotManifest,
    chunks: Seq<Seq<u8>>,
    estimate: F,
    filter: ConcurrentBloomFilter,
    stats: BloomSnapshotStats,
) -> bool {
    &&& stream_accepted(manifest, joined(chunks))
    &&& filter.wf()
    &&& filter@ == snapshot_view(manifest.parameters, joined(chunks))
    &&& stats == filter@.stats()
    &&& exists|rate: Rate|
        {
            &&& #[trigger] call_ensures(estimate, (stats,), rate)
            &&& !rate.exceeds(manifest.parameters.max_accepted_false_positive_rate())
        }
}

/// Whether `error` is what is wrong with chunks, or with the rate that is estimated for the filter
/// they hold.
pub open spec fn refused_stream<F: Fn(BloomSnapshotStats) -> Rate>(
    manifest: SnapshotManifest,
    chunks: Seq<Seq<u8>>,
    estimate: F,
    error: BloomError,
) -> bool {
    if stream_accepted(manifest, joined(chunks)) {
        rate_refusal(estimate, snapshot_view(manifest.parameters, joined(chunks)), error)
    } else {
        stream_refusal(manifest, chunks, error)
    }
}

impl ConcurrentBloomFilter {
    /// Decodes segmented snapshot bytes and validates the final filter against both the snapshot
    /// header and its manifest.
    ///
    /// `estimate` gives the false-positive rate that is estimated from the occupancy of the body.
    pub fn decode_with_manifest<F: Fn(BloomSnapshotStats) -> Rate>(
        manifest: &SnapshotManifest,
        encoded_chunks: &[&[u8]],
        estimate: F,
    ) -> (r: Result<(Self, BloomSnapshotStats), BloomError>)
        requires
            manifest.parameters.wf(),
            forall|stats: BloomSnapshotStats| call_requires(estimate, (stats,)),
        ensures
            if header_fits(*manifest, joined(chunk_bytes(encoded_chunks@))) {
                exists|memory: Option<Vec<u8>>|
                    {
                        &&& #[trigger] call_ensures(reserve_body, (body_len(*manifest),), memory)
                        &&& stream_outcome(
                            *manifest,
                            chunk_bytes(encoded_chunks@),
                            memory is Some,
                            estimate,
                            r,
                        )
                    }
            } else {
                stream_outcome(*manifest, chunk_bytes(encoded_chunks@), true, estimate, r)
            },
    {
        let start = header_start(encoded_chunks);
        proof {
            let encoded = joined(chunk_bytes(encoded_chunks@));
            if encoded.len() >= SNAPSHOT_HEADER_LEN {
                lemma_header_prefix(start@, encoded);
            }
        }
        let memory = match fitting_body_len(manifest, start.as_slice()) {
            Some(len) => reserve_body(len),
            None => Some(Vec::new()),
        };
        Self::decode_reserved(manifest, encoded_chunks, memory, estimate)
    }

    /// Decodes segmented snapshot bytes into memory that was reserved for the body. Where the bytes
    /// start with a header that fits, `None` says that there was no memory to be had.
    pub fn decode_reserved<F: Fn(BloomSnapshotStats) -> Rate>(
        manifest: &SnapshotManifest,
        encoded_chunks: &[&[u8]],
        memory: Option<Vec<u8>>,
        estimate: F,
    ) -> (r: Result<(Self, BloomSnapshotStats), BloomError>)
        requires
            manifest.parameters.wf(),
            forall|stats: BloomSnapshotStats| call_requires(estimate, (stats,)),
        ensures
            stream_outcome(
                *manifest,
                chunk_bytes(encoded_chunks@),
                memory is Some,
                estimate,
                r,
            ),
    {
        let ghost chunks = chunk_bytes(encoded_chunks@);
        let mut decoder = match SnapshotDecoder::new(manifest) {
            Ok(decoder) => decoder,
            Err(error) => {
                return Err(error);
            },
        };
        let reserved: bool = memory.is_some();
        if let Some(body) = memory {
            let mut body = body;
            body.clear();
            decoder.body = body;
        }
        let mut i: usize = 0;
        assert(decoder@ =~= chunks.take(0));
        while i < encoded_chunks.len()
            invariant
                i <= encoded_chunks@.len(),
                chunks == chunk_bytes(encoded_chunks@),
                decoder.wf(),
                decoder.spec_manifest() == *manifest,
                decoder@ == chunks.take(i as int),
                reserved == (memory is Some),
                !reserved ==> joined(decoder@).len() < SNAPSHOT_HEADER_LEN,
            decreases encoded_chunks@.len() - i,
        {
            assert(chunks.take(i + 1) =~= chunks.take(i as int).push(chunks[i as int]));
            match decoder.take_chunk_reserved(encoded_chunks[i], reserved) {
                Ok(_) => {},
                Err(error) => {
                    proof {
                        let rest = chunks.skip(i + 1);
                        assert(chunks.take(i + 1) + rest =~= chunks);
                        lemma_header_stays(chunks.take(i + 1), rest);
                    }
                    return Err(error);
                },
            }
            i = i + 1;
        }
        assert(chunks.take(i as int) =~= chunks);
        decoder.finish(estimate)
    }
}

/// A sum that saturates is longer than any body.
proof fn lemma_body_len_is_not_the_maximum(dims: Dimensions)
    requires
        dims.wf(),
    ensures
        dims.body_len() < usize::MAX,
{
    vstd::arithmetic::power2::lemma2_to64();
    if dims.m_bits() >= 16 {
        assert(is_power_of_two(16)) by {
            assert(16 == vstd::arithmetic::power2::pow2(4));
        }
        lemma_smaller_power_divides(16, dims.m_bits() as int);
        assert(dims.body_len() % 2 == 0);
    }
    assert(usize::MAX % 2 == 1);
}

/// Chunks that stay within the limit are all counted.
pub proof fn lemma_overrun_of_short(chunks: Seq<Seq<u8>>, limit: nat)
    requires
        joined(chunks).len() <= limit,
    ensures
        overrun(chunks, limit) == joined(chunks).len(),
{
}

} // verus!
