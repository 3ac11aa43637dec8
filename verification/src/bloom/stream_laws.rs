//! Laws of decoding in chunks, over the bytes of the chunks.

use crate::bloom::error::BloomError;
use crate::bloom::filter::{
    snapshot_accepted, snapshot_view, BloomSnapshotStats, ConcurrentBloomFilter,
};
use crate::bloom::format_laws::{headers_are_read_by_their_layout, snapshots_are_refused_in_order};
use crate::bloom::header::{header_accepted, header_refusal, read_header};
use crate::bloom::laws::is_function;
use crate::bloom::manifest::SnapshotManifest;
use crate::bloom::parameters::Rate;
use crate::bloom::stream::{
    body_len, chunk_bytes, chunk_outcome, completes_header, header_fits, joined,
    lemma_overrun_of_short, overrun, stream_accepted, stream_outcome, stream_refusal,
};
use crate::outside::sha256_digest;
use crate::text::hex_text;
use vstd::prelude::*;

verus! {

/// Chunks are joined in their order, whole and without anything between them.
pub proof fn chunks_are_joined_in_order(a: Seq<Seq<u8>>, b: Seq<Seq<u8>>, chunk: Seq<u8>)
    ensures
        joined(Seq::empty()) == Seq::<u8>::empty(),
        joined(seq![chunk]) == chunk,
        joined(a.push(chunk)) == joined(a) + chunk,
        joined(a + b) == joined(a) + joined(b),
    decreases b.len(),
{
    assert(joined(Seq::empty()) =~= Seq::<u8>::empty());
    assert(seq![chunk].drop_last() =~= Seq::<Seq<u8>>::empty());
    assert(joined(seq![chunk]) =~= chunk);
    assert(a.push(chunk).drop_last() =~= a);
    if b.len() == 0 {
        assert(a + b =~= a);
        assert(joined(a + b) =~= joined(a) + joined(b));
    } else {
        chunks_are_joined_in_order(a, b.drop_last(), chunk);
        assert((a + b).drop_last() =~= a + b.drop_last());
        assert(joined(a + b) =~= joined(a) + joined(b));
    }
}

/// The bytes of a list of chunks are those of each chunk.
pub proof fn chunks_keep_their_bytes(chunks: Seq<&[u8]>, i: int)
    requires
        0 <= i < chunks.len(),
    ensures
        chunk_bytes(chunks).len() == chunks.len(),
        chunk_bytes(chunks)[i] == chunks[i]@,
{
}

/// The overrun is the number of bytes at the end of the first chunk that goes above the limit, or
/// of all bytes where none does.
pub proof fn overruns_end_with_a_chunk(chunks: Seq<Seq<u8>>, limit: nat)
    ensures
        joined(chunks).len() <= limit ==> overrun(chunks, limit) == joined(chunks).len(),
        joined(chunks).len() > limit ==> exists|n: int|
            {
                &&& 0 <= n < chunks.len()
                &&& joined(#[trigger] chunks.take(n)).len() <= limit
                &&& limit < joined(chunks.take(n + 1)).len()
                &&& overrun(chunks, limit) == joined(chunks.take(n + 1)).len()
            },
    decreases chunks.len(),
{
    if joined(chunks).len() <= limit {
        lemma_overrun_of_short(chunks, limit);
    } else {
        assert(chunks.len() > 0);
        let shorter = chunks.drop_last();
        if joined(shorter).len() > limit {
            overruns_end_with_a_chunk(shorter, limit);
            let n = choose|n: int|
                {
                    &&& 0 <= n < shorter.len()
                    &&& joined(#[trigger] shorter.take(n)).len() <= limit
                    &&& limit < joined(shorter.take(n + 1)).len()
                    &&& overrun(shorter, limit) == joined(shorter.take(n + 1)).len()
                };
            assert(shorter.take(n) =~= chunks.take(n));
            assert(shorter.take(n + 1) =~= chunks.take(n + 1));
            assert(joined(chunks.take(n)).len() <= limit);
        } else {
            let n = chunks.len() - 1;
            assert(chunks.take(n) =~= shorter);
            assert(chunks.take(n + 1) =~= chunks);
            assert(joined(chunks.take(n)).len() <= limit);
        }
    }
}

/// Memory is asked for where the version is 1 and the first 62 bytes are a header that fits, for
/// as many bytes as hold the bits of the parameters.
pub proof fn memory_is_asked_for_after_a_header_that_fits(
    manifest: SnapshotManifest,
    before: Seq<Seq<u8>>,
    chunk: Seq<u8>,
    encoded: Seq<u8>,
)
    requires
        manifest.parameters.wf(),
    ensures
        8 * body_len(manifest) == manifest.parameters.m_bits(),
        header_fits(manifest, encoded) <==> {
            &&& manifest.version == 1
            &&& encoded.len() >= 62
            &&& header_accepted(read_header(encoded), manifest.parameters)
        },
        completes_header(manifest, before, chunk) <==> {
            &&& joined(before).len() < 62
            &&& header_fits(manifest, joined(before) + chunk)
        },
{
    chunks_are_joined_in_order(before, Seq::empty(), chunk);
    snapshots_are_refused_in_order(
        manifest.parameters,
        encoded,
        BloomError::ManifestSnapshotMismatch,
    );
    crate::bloom::format_laws::valid_parameters_pass_the_checks(manifest.parameters);
    crate::number::powers_of_two_have_one_bit(manifest.parameters.m_bits());
    vstd::arithmetic::power2::lemma2_to64();
    assert(crate::bloom::power::is_power_of_two(8)) by {
        assert(8 == vstd::arithmetic::power2::pow2(3));
    }
    crate::bloom::power::lemma_smaller_power_divides(8, manifest.parameters.m_bits() as int);
}

/// A chunk is taken exactly where no header is complete yet, or the header fits and no more bytes
/// have come than a snapshot has; but a chunk that completes a header that fits is refused as too
/// large where no memory could be reserved. Any other refusal holds whatever chunks follow.
pub proof fn chunks_are_taken_up_to_the_body(
    manifest: SnapshotManifest,
    before: Seq<Seq<u8>>,
    chunk: Seq<u8>,
    reserved: bool,
    r: Result<(), BloomError>,
    rest: Seq<Seq<u8>>,
)
    requires
        manifest.version == 1,
        chunk_outcome(manifest, before, chunk, reserved, r),
    ensures
        ({
            let bytes = joined(before) + chunk;
            let fits = header_accepted(read_header(bytes), manifest.parameters);
            let asked = joined(before).len() < 62 <= bytes.len() && fits;
            &&& asked && !reserved ==> r == Err::<(), BloomError>(
                BloomError::TooLarge { m_bits: manifest.parameters.m_bits() },
            )
            &&& !asked || reserved ==> (r is Ok <==> bytes.len() < 62 || (fits && bytes.len() <= 62
                + manifest.parameters.m_bits() / 8))
            &&& (!asked || reserved) && r is Err ==> {
                &&& !stream_accepted(manifest, joined(before.push(chunk) + rest))
                &&& stream_refusal(manifest, before.push(chunk) + rest, r->Err_0)
            }
        }),
{
    chunks_are_joined_in_order(before, Seq::empty(), chunk);
}

/// Chunks hold a snapshot that a manifest describes exactly where the version is 1, their bytes are
/// an intact snapshot, and the checksum and source cursor are those of the manifest. What is wrong
/// is named in the order of the version, the length of the header, the header, the length of the
/// body, its checksum, and the manifest.
pub proof fn streams_are_refused_in_order(
    manifest: SnapshotManifest,
    chunks: Seq<Seq<u8>>,
    error: BloomError,
)
    requires
        manifest.parameters.wf(),
    ensures
        ({
            let e = joined(chunks);
            let p = manifest.parameters;
            let body = e.subrange(62, e.len() as int);
            let whole = 62 + p.m_bits() / 8;
            let fits = header_accepted(read_header(e), p);
            &&& stream_accepted(manifest, e) <==> {
                &&& manifest.version == 1
                &&& snapshot_accepted(p, e)
                &&& manifest.body_checksum@ == hex_text(sha256_digest(body)@)
                &&& manifest.source_max_row_id == read_header(e).source_max_row_id
            }
            &&& !stream_accepted(manifest, e) && stream_refusal(manifest, chunks, error) ==> {
                &&& manifest.version != 1 ==> error == (BloomError::IncompatibleDefinition {
                    expected: 1,
                    actual: manifest.version,
                })
                &&& manifest.version == 1 && e.len() < 62 ==> error == (BloomError::Truncated {
                    expected_at_least: 62,
                    actual: e.len() as usize,
                })
                &&& manifest.version == 1 && e.len() >= 62 && !fits ==> header_refusal(
                    read_header(e),
                    p,
                    error,
                )
                &&& manifest.version == 1 && e.len() >= 62 && fits ==> {
                    &&& e.len() < whole ==> error == (BloomError::InvalidBodyLength {
                        expected: (p.m_bits() / 8) as usize,
                        actual: (e.len() - 62) as usize,
                    })
                    &&& e.len() > whole ==> (error matches BloomError::InvalidBodyLength {
                        expected,
                        actual,
                    } && expected == p.m_bits() / 8 && actual == (if overrun(
                        chunks,
                        whole as nat,
                    ) - 62 <= usize::MAX {
                        overrun(chunks, whole as nat) - 62
                    } else {
                        usize::MAX as int
                    }))
                    &&& e.len() == whole && read_header(e).body_checksum != sha256_digest(body)@
                        ==> (error matches BloomError::ChecksumMismatch { expected, actual }
                        && expected@ == hex_text(read_header(e).body_checksum) && actual@
                        == hex_text(sha256_digest(body)@))
                    &&& e.len() == whole && read_header(e).body_checksum == sha256_digest(body)@
                        ==> error == BloomError::ManifestSnapshotMismatch
                }
            }
        }),
{
    let e = joined(chunks);
    let limit = (62 + manifest.parameters.m_bits() / 8) as nat;
    if e.len() >= 62 {
        headers_are_read_by_their_layout(e);
    }
    if e.len() <= limit {
        lemma_overrun_of_short(chunks, limit);
    } else {
        overruns_end_with_a_chunk(chunks, limit);
    }
    memory_is_asked_for_after_a_header_that_fits(manifest, Seq::empty(), Seq::empty(), e);
}

/// Where the header fits and no memory could be reserved, decoding gives that error and no other.
/// Otherwise a snapshot that the manifest describes is decoded exactly where the rate that is
/// estimated for it is not above the limit, and any other is refused.
pub proof fn streams_decode_below_their_limit<F: Fn(BloomSnapshotStats) -> Rate>(
    manifest: SnapshotManifest,
    chunks: Seq<Seq<u8>>,
    reserved: bool,
    estimate: F,
    r: Result<(ConcurrentBloomFilter, BloomSnapshotStats), BloomError>,
    rate: Rate,
)
    requires
        manifest.parameters.wf(),
        is_function(estimate),
        stream_outcome(manifest, chunks, reserved, estimate, r),
        call_ensures(
            estimate,
            (snapshot_view(manifest.parameters, joined(chunks)).stats(),),
            rate,
        ),
    ensures
        ({
            let e = joined(chunks);
            let limit = manifest.parameters.max_accepted_false_positive_rate();
            let refused = !reserved && manifest.version == 1 && e.len() >= 62 && header_accepted(
                read_header(e),
                manifest.parameters,
            );
            &&& refused ==> r == Err::<(ConcurrentBloomFilter, BloomSnapshotStats), BloomError>(
                BloomError::TooLarge { m_bits: manifest.parameters.m_bits() },
            )
            &&& !refused && !stream_accepted(manifest, e) ==> (r matches Err(error)
                && stream_refusal(manifest, chunks, error))
            &&& !refused && stream_accepted(manifest, e) && limit.bits < rate.bits
                <= 0x7ff0_0000_0000_0000 ==> r == Err::<
                (ConcurrentBloomFilter, BloomSnapshotStats),
                BloomError,
            >(BloomError::ExcessiveFalsePositiveRate { estimated_fpr: rate, limit })
            &&& !refused && stream_accepted(manifest, e) && !(limit.bits < rate.bits
                <= 0x7ff0_0000_0000_0000) ==> {
                &&& r matches Ok((filter, stats))
                &&& filter@.parameters == manifest.parameters
                &&& filter@.built_at == read_header(e).built_at
                &&& filter@.source_max_row_id == manifest.source_max_row_id
                &&& filter@.body == e.subrange(62, e.len() as int)
                &&& stats == filter@.stats()
            }
        }),
{
    let e = joined(chunks);
    if e.len() >= 62 {
        headers_are_read_by_their_layout(e);
    }
    memory_is_asked_for_after_a_header_that_fits(manifest, Seq::empty(), Seq::empty(), e);
    streams_are_refused_in_order(manifest, chunks, BloomError::ManifestSnapshotMismatch);
}

} // verus!
