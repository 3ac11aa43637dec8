//! The Bloom filter and its snapshot format.

use crate::bloom::bits::{bit_set, count_ones, lemma_ones_below_bound, ones, set_bit, test_bit};
use crate::bloom::error::BloomError;
use crate::bloom::header::{
    header_accepted, header_bytes, header_refusal, read_header, DecodedSnapshotHeader, HeaderView,
    SnapshotHeader, SNAPSHOT_HEADER_LEN, SNAPSHOT_MAGIC,
};
use crate::bloom::parameters::{
    BloomParameters, Dimensions, Rate, CURRENT_DEFINITION_VERSION,
};
use crate::bloom::power::{is_power_of_two, lemma_mask_is_remainder, lemma_smaller_power_divides};
use crate::bloom::probe::{probe, probe_is_in_range, probes};
use crate::bloom::wire::ProbePositions;
use crate::nix_store::StorePathHash;
use crate::outside::{hex_encode, sha256, sha256_digest};
use crate::text::{bytes_eq, hex_text, push_bytes, to_vec};
use vstd::prelude::*;

verus! {

/// What a filter holds.
#[verifier::ext_equal]
pub struct FilterView {
    pub parameters: BloomParameters,
    pub built_at: u64,
    pub source_max_row_id: u64,
    pub body: Seq<u8>,
}

impl FilterView {
    /// The parameters are valid and the body holds their bits eight to a byte.
    pub open spec fn wf(self) -> bool {
        &&& self.parameters.wf()
        &&& self.body.len() == self.parameters.m_bits() / 8
    }

    /// All the bits that a store path hash probes are set.
    pub open spec fn contains(self, text: Seq<char>) -> bool {
        forall|i: int|
            0 <= i < self.parameters.probe_count() ==> bit_set(
                self.body,
                #[trigger] probe(text, self.parameters.m_bits() as int, i),
            )
    }

    /// Occupancy statistics of the body.
    pub open spec fn stats(self) -> BloomSnapshotStats {
        BloomSnapshotStats {
            set_bits: ones(self.body) as u64,
            m_bits: self.parameters.m_bits(),
            k: self.parameters.probe_count(),
        }
    }
}

/// A body of a filter holds as many bits as the parameters say.
pub proof fn lemma_body_bits(view: FilterView)
    requires
        view.wf(),
    ensures
        8 * view.body.len() == view.parameters.m_bits(),
        is_power_of_two(view.parameters.m_bits() as int),
        view.parameters.m_bits() >= 8,
        1 <= view.parameters.probe_count() <= 64,
{
    vstd::arithmetic::power2::lemma2_to64();
    assert(is_power_of_two(8)) by {
        assert(8 == vstd::arithmetic::power2::pow2(3));
    }
    lemma_smaller_power_divides(8, view.parameters.m_bits() as int);
}

/// Occupancy of a Bloom snapshot: the counts that the fill ratio, the estimated false-positive
/// rate and the estimated number of distinct items are calculated from.
#[derive(Clone, Copy, Debug, PartialEq, Eq, Structural)]
pub struct BloomSnapshotStats {
    pub set_bits: u64,
    pub m_bits: u64,
    pub k: u8,
}

impl BloomSnapshotStats {
    /// The statistics of a filter with that many bits set.
    pub fn from_set_bits(dims: Dimensions, set_bits: u64) -> (stats: Self)
        ensures
            stats.set_bits == set_bits,
            stats.m_bits == dims.m_bits(),
            stats.k == dims.k(),
    {
        BloomSnapshotStats { set_bits, m_bits: dims.m_bits(), k: dims.k() }
    }
}

/// The header of a snapshot of a filter.
pub open spec fn header_of(view: FilterView) -> HeaderView {
    HeaderView {
        magic: SNAPSHOT_MAGIC@,
        version: CURRENT_DEFINITION_VERSION,
        m_bits: view.parameters.m_bits(),
        k: view.parameters.probe_count(),
        built_at: view.built_at,
        source_max_row_id: view.source_max_row_id,
        body_checksum: sha256_digest(view.body)@,
    }
}

/// The snapshot of a filter: its header and then its body.
pub open spec fn snapshot_bytes(view: FilterView) -> Seq<u8> {
    header_bytes(header_of(view)) + view.body
}

/// The body of an encoded snapshot.
pub open spec fn snapshot_body(encoded: Seq<u8>) -> Seq<u8> {
    encoded.skip(SNAPSHOT_HEADER_LEN as int)
}

/// Whether bytes are an intact snapshot of a filter with these parameters.
pub open spec fn snapshot_accepted(parameters: BloomParameters, encoded: Seq<u8>) -> bool {
    &&& encoded.len() >= SNAPSHOT_HEADER_LEN
    &&& header_accepted(read_header(encoded), parameters)
    &&& snapshot_body(encoded).len() == parameters.m_bits() / 8
    &&& read_header(encoded).body_checksum == sha256_digest(snapshot_body(encoded))@
}

/// Whether `error` reports a body whose checksum is not the one of the header.
pub open spec fn checksum_refusal(encoded: Seq<u8>, error: BloomError) -> bool {
    error matches BloomError::ChecksumMismatch { expected, actual } && {
        &&& expected@ == hex_text(read_header(encoded).body_checksum)
        &&& actual@ == hex_text(sha256_digest(snapshot_body(encoded))@)
    }
}

/// Whether `error` is what is wrong with bytes that are not an intact snapshot: the first of
/// their length, the header, the length of the body, and its checksum.
pub open spec fn snapshot_refusal(
    parameters: BloomParameters,
    encoded: Seq<u8>,
    error: BloomError,
) -> bool {
    if encoded.len() < SNAPSHOT_HEADER_LEN {
        error == (BloomError::Truncated {
            expected_at_least: SNAPSHOT_HEADER_LEN,
            actual: encoded.len() as usize,
        })
    } else if !header_accepted(read_header(encoded), parameters) {
        header_refusal(read_header(encoded), parameters, error)
    } else if snapshot_body(encoded).len() != parameters.m_bits() / 8 {
        error == (BloomError::InvalidBodyLength {
            expected: (parameters.m_bits() / 8) as usize,
            actual: snapshot_body(encoded).len() as usize,
        })
    } else {
        checksum_refusal(encoded, error)
    }
}

/// The filter that an intact snapshot holds.
pub open spec fn snapshot_view(parameters: BloomParameters, encoded: Seq<u8>) -> FilterView {
    FilterView {
        parameters,
        built_at: read_header(encoded).built_at,
        source_max_row_id: read_header(encoded).source_max_row_id,
        body: snapshot_body(encoded),
    }
}

/// Why a filter does not take positions, if it does not.
pub open spec fn insertion_refusal(
    m_bits: u64,
    k: u8,
    positions_m_bits: u64,
    positions: Seq<u64>,
) -> Option<BloomError> {
    if positions_m_bits < m_bits {
        Some(
            BloomError::IncompatiblePositions {
                event_m_bits: positions_m_bits,
                filter_m_bits: m_bits,
            },
        )
    } else if positions.len() < k {
        Some(BloomError::InsufficientPositions { count: positions.len() as usize, k })
    } else {
        None
    }
}

/// Whether one of the first `k` positions, reduced to the filter's size, is `p`.
pub open spec fn hits(positions: Seq<u64>, k: int, m_bits: int, p: int) -> bool {
    exists|i: int| 0 <= i < k && #[trigger] positions[i] as int % m_bits == p
}

/// Whether `after` is `before` with the bits at the first positions set, and no other bit
/// changed.
pub open spec fn inserted(before: FilterView, positions: Seq<u64>, after: FilterView) -> bool {
    &&& after.parameters == before.parameters
    &&& after.built_at == before.built_at
    &&& after.source_max_row_id == before.source_max_row_id
    &&& after.body.len() == before.body.len()
    &&& forall|p: int|
        0 <= p < before.parameters.m_bits() ==> #[trigger] bit_set(after.body, p) == (bit_set(
            before.body,
            p,
        ) || hits(
            positions,
            before.parameters.probe_count() as int,
            before.parameters.m_bits() as int,
            p,
        ))
}

impl Dimensions {
    /// The bits to set for positions from a path-created event.
    ///
    /// Both sizes are powers of two. Masking a position by a smaller filter's `m_bits - 1` keeps
    /// only the low bits, which gives exactly the position the smaller filter calculates itself.
    /// Positions calculated for a smaller size have already discarded high bits that this filter
    /// needs, so they are rejected. Position `i` depends only on `i`, so a filter with a smaller
    /// probe count probes a prefix of the positions; fewer positions than probes would leave
    /// required bits unset.
    pub fn local_positions(self, positions: &ProbePositions) -> (r: Result<Vec<u64>, BloomError>)
        requires
            self.wf(),
        ensures
            match insertion_refusal(self.m_bits(), self.k(), positions.m_bits(), positions@) {
                Some(error) => r == Err::<Vec<u64>, BloomError>(error),
                None => r matches Ok(local) && local@ == Seq::new(
                    self.k() as nat,
                    |i: int| positions@[i] % self.m_bits(),
                ),
            },
    {
        if positions.m_bits() < self.m_bits() {
            return Err(
                BloomError::IncompatiblePositions {
                    event_m_bits: positions.m_bits(),
                    filter_m_bits: self.m_bits(),
                },
            );
        }
        let all = positions.positions();
        let k: usize = self.k() as usize;
        if all.len() < k {
            return Err(BloomError::InsufficientPositions { count: all.len(), k: self.k() });
        }
        let mask: u64 = self.m_bits() - 1;
        let mut local: Vec<u64> = Vec::new();
        let mut i: usize = 0;
        while i < k
            invariant
                i <= k,
                k <= all@.len(),
                mask == self.m_bits() - 1,
                is_power_of_two(self.m_bits() as int),
                all@ == positions@,
                local@.len() == i,
                forall|j: int| 0 <= j < i ==> local@[j] == positions@[j] % self.m_bits(),
            decreases k - i,
        {
            proof {
                lemma_mask_is_remainder(all@[i as int], self.m_bits());
            }
            local.push(all[i] & mask);
            i = i + 1;
        }
        assert(local@ =~= Seq::new(self.k() as nat, |i: int| positions@[i] % self.m_bits()));
        Ok(local)
    }
}

/// Encoded snapshot bytes and the metadata captured in their header.
#[derive(Debug)]
pub struct EncodedBloomSnapshot {
    bytes: Vec<u8>,
    body_checksum: [u8; 32],
    parameters: BloomParameters,
    built_at: u64,
    source_max_row_id: u64,
}

/// What an encoded snapshot holds.
#[verifier::ext_equal]
pub struct EncodedView {
    pub bytes: Seq<u8>,
    pub body_checksum: Seq<u8>,
    pub parameters: BloomParameters,
    pub built_at: u64,
    pub source_max_row_id: u64,
}

/// The encoded snapshot of a filter.
pub open spec fn encoded_view(view: FilterView) -> EncodedView {
    EncodedView {
        bytes: snapshot_bytes(view),
        body_checksum: sha256_digest(view.body)@,
        parameters: view.parameters,
        built_at: view.built_at,
        source_max_row_id: view.source_max_row_id,
    }
}

impl View for EncodedBloomSnapshot {
    type V = EncodedView;

    closed spec fn view(&self) -> EncodedView {
        EncodedView {
            bytes: self.bytes@,
            body_checksum: self.body_checksum@,
            parameters: self.parameters,
            built_at: self.built_at,
            source_max_row_id: self.source_max_row_id,
        }
    }
}

impl EncodedBloomSnapshot {
    /// The bytes of the snapshot.
    pub fn as_bytes(&self) -> (bytes: &[u8])
        ensures
            bytes@ == self@.bytes,
    {
        self.bytes.as_slice()
    }

    /// The bytes of the snapshot.
    pub fn into_bytes(self) -> (bytes: Vec<u8>)
        ensures
            bytes@ == self@.bytes,
    {
        self.bytes
    }

    /// The build time in the header.
    pub fn built_at(&self) -> (r: u64)
        ensures
            r == self@.built_at,
    {
        self.built_at
    }

    /// The source cursor in the header.
    pub fn source_max_row_id(&self) -> (r: u64)
        ensures
            r == self@.source_max_row_id,
    {
        self.source_max_row_id
    }

    /// The parameters of the filter.
    pub fn parameters(&self) -> (r: BloomParameters)
        ensures
            r == self@.parameters,
    {
        self.parameters
    }

    /// The checksum of the body in hexadecimal.
    pub fn body_checksum_hex(&self) -> (text: String)
        ensures
            text@ == hex_text(self@.body_checksum),
    {
        hex_encode(self.body_checksum.as_slice())
    }
}

/// A checksum verified while decoding, reusable until the first insertion.
#[derive(Clone, Copy, Debug)]
pub struct DecodedBodyChecksum {
    value: [u8; 32],
    invalidated: bool,
}

impl DecodedBodyChecksum {
    /// The checksum, while it is valid.
    pub closed spec fn view(&self) -> Option<[u8; 32]> {
        if self.invalidated {
            None
        } else {
            Some(self.value)
        }
    }

    /// Holds a checksum that is valid.
    pub fn new(value: [u8; 32]) -> (r: Self)
        ensures
            r@ == Some(value),
    {
        DecodedBodyChecksum { value, invalidated: false }
    }

    /// The checksum, unless an insertion invalidated it.
    pub fn current(&self) -> (r: Option<[u8; 32]>)
        ensures
            r == self@,
    {
        if self.invalidated {
            None
        } else {
            Some(self.value)
        }
    }

    /// Marks the checksum stale.
    pub fn invalidate(&mut self)
        ensures
            final(self)@ is None,
    {
        self.invalidated = true;
    }
}

/// A Bloom filter over store path hashes.
///
/// A set bit never becomes unset, and insertions give the same bits in every order. A filter that
/// threads share keeps the same bits in atomic bytes: it takes the bits of an insertion from
/// [`Dimensions::local_positions`] and those of a lookup from [`Dimensions::probe_positions`], and
/// a copy of its bytes is a filter again by [`Self::from_bits`].
#[derive(Debug)]
pub struct ConcurrentBloomFilter {
    parameters: BloomParameters,
    dims: Dimensions,
    built_at: u64,
    source_max_row_id: u64,
    bits: Vec<u8>,
    decoded_body_checksum: Option<DecodedBodyChecksum>,
}

impl View for ConcurrentBloomFilter {
    type V = FilterView;

    closed spec fn view(&self) -> FilterView {
        FilterView {
            parameters: self.parameters,
            built_at: self.built_at,
            source_max_row_id: self.source_max_row_id,
            body: self.bits@,
        }
    }
}

impl ConcurrentBloomFilter {
    /// The dimensions are those of the parameters, and a valid cached checksum is the checksum
    /// of the bits.
    pub closed spec fn inv(&self) -> bool {
        &&& self.dims.wf()
        &&& self.dims.m_bits() == self.parameters.m_bits()
        &&& self.dims.k() == self.parameters.probe_count()
        &&& self.decoded_body_checksum matches Some(checksum) ==> (checksum@ matches Some(value)
            ==> value == sha256_digest(self.bits@))
    }

    /// The filter is well formed.
    pub open spec fn wf(&self) -> bool {
        self@.wf() && self.inv()
    }

    /// An empty filter.
    pub fn new(parameters: BloomParameters, built_at: u64) -> (r: Result<Self, BloomError>)
        requires
            parameters.wf(),
        ensures
            r matches Ok(filter) && {
                &&& filter.wf()
                &&& filter@.parameters == parameters
                &&& filter@.built_at == built_at
                &&& filter@.source_max_row_id == 0
                &&& forall|i: int| 0 <= i < filter@.body.len() ==> #[trigger] filter@.body[i] == 0
            },
    {
        let dims = parameters.dimensions();
        let bits = vec![0u8; dims.body_len()];
        Ok(
            ConcurrentBloomFilter {
                parameters,
                dims,
                built_at,
                source_max_row_id: 0,
                bits,
                decoded_body_checksum: None,
            },
        )
    }

    /// A filter with these bits, which were copied from a filter of the same parameters.
    pub fn from_bits(
        parameters: BloomParameters,
        built_at: u64,
        source_max_row_id: u64,
        bits: Vec<u8>,
    ) -> (r: Result<Self, BloomError>)
        requires
            parameters.wf(),
        ensures
            if bits@.len() == parameters.m_bits() / 8 {
                &&& r matches Ok(filter)
                &&& filter.wf()
                &&& filter@ == (FilterView {
                    parameters,
                    built_at,
                    source_max_row_id,
                    body: bits@,
                })
            } else {
                r == Err::<Self, BloomError>(
                    BloomError::InvalidBodyLength {
                        expected: (parameters.m_bits() / 8) as usize,
                        actual: bits@.len() as usize,
                    },
                )
            },
    {
        let dims = parameters.dimensions();
        if bits.len() != dims.body_len() {
            return Err(
                BloomError::InvalidBodyLength { expected: dims.body_len(), actual: bits.len() },
            );
        }
        Ok(
            ConcurrentBloomFilter {
                parameters,
                dims,
                built_at,
                source_max_row_id,
                bits,
                decoded_body_checksum: None,
            },
        )
    }

    /// Sets probe positions from a path-created event. Positions that do not fit leave the
    /// filter unchanged.
    pub fn insert_positions(&mut self, positions: &ProbePositions) -> (r: Result<(), BloomError>)
        requires
            old(self).wf(),
        ensures
            final(self).wf(),
            match insertion_refusal(
                old(self)@.parameters.m_bits(),
                old(self)@.parameters.probe_count(),
                positions.m_bits(),
                positions@,
            ) {
                Some(error) => r == Err::<(), BloomError>(error) && *final(self) == *old(self),
                None => r is Ok && inserted(old(self)@, positions@, final(self)@),
            },
    {
        let local = match self.dims.local_positions(positions) {
            Ok(local) => local,
            Err(error) => {
                return Err(error);
            },
        };
        // A decoded filter starts with a checksum that matches its bits. Mark that checksum stale
        // before setting the first bit so it is never used for modified data.
        if let Some(checksum) = &mut self.decoded_body_checksum {
            checksum.invalidate();
        }
        let ghost before = self@;
        let ghost m_bits = self.parameters.m_bits() as int;
        proof {
            lemma_body_bits(before);
        }
        let mut i: usize = 0;
        while i < local.len()
            invariant
                i <= local@.len(),
                old(self).wf(),
                old(self)@ == before,
                m_bits == before.parameters.m_bits(),
                m_bits == 8 * before.body.len(),
                local@ == Seq::new(
                    before.parameters.probe_count() as nat,
                    |j: int| positions@[j] % before.parameters.m_bits(),
                ),
                self.parameters == before.parameters,
                self.built_at == before.built_at,
                self.source_max_row_id == before.source_max_row_id,
                self.dims == old(self).dims,
                self.decoded_body_checksum matches Some(checksum) ==> checksum@ is None,
                self.bits@.len() == before.body.len(),
                forall|p: int|
                    0 <= p < m_bits ==> #[trigger] bit_set(self.bits@, p) == (bit_set(
                        before.body,
                        p,
                    ) || hits(positions@, i as int, m_bits, p)),
            decreases local@.len() - i,
        {
            let ghost earlier = self.bits@;
            let position: u64 = local[i];
            assert(position == positions@[i as int] as int % m_bits);
            set_bit(&mut self.bits, position);
            proof {
                assert forall|p: int| 0 <= p < m_bits implies #[trigger] bit_set(self.bits@, p) == (
                bit_set(before.body, p) || hits(positions@, i + 1, m_bits, p)) by {
                    assert(bit_set(self.bits@, p) == (bit_set(earlier, p) || p == position));
                    if hits(positions@, i as int, m_bits, p) {
                        let w = choose|w: int|
                            0 <= w < i && #[trigger] positions@[w] as int % m_bits == p;
                        assert(0 <= w < i + 1 && positions@[w] as int % m_bits == p);
                    }
                    if p == position {
                        assert(positions@[i as int] as int % m_bits == p);
                    }
                    if hits(positions@, i + 1, m_bits, p) {
                        let w = choose|w: int|
                            0 <= w < i + 1 && #[trigger] positions@[w] as int % m_bits == p;
                        assert(w == i || 0 <= w < i);
                    }
                }
            }
            i = i + 1;
        }
        Ok(())
    }

    /// Tests one hash against this filter. A negative means the required bits are not all set;
    /// whether that proves absence from the represented set depends on external coverage and
    /// freshness guarantees.
    pub fn contains(&self, store_path_hash: &StorePathHash) -> (r: Result<bool, BloomError>)
        requires
            self.wf(),
            store_path_hash.wf(),
        ensures
            r == Ok::<bool, BloomError>(self@.contains(store_path_hash@)),
    {
        let positions = match self.dims.probe_positions(store_path_hash) {
            Ok(positions) => positions,
            Err(error) => {
                return Err(error);
            },
        };
        proof {
            lemma_body_bits(self@);
        }
        let mut i: usize = 0;
        while i < positions.len()
            invariant
                i <= positions@.len(),
                self.wf(),
                8 * self.bits@.len() == self@.parameters.m_bits(),
                positions@ == probes(
                    store_path_hash@,
                    self@.parameters.m_bits(),
                    self@.parameters.probe_count(),
                ),
                forall|j: int|
                    0 <= j < i ==> bit_set(
                        self@.body,
                        #[trigger] probe(store_path_hash@, self@.parameters.m_bits() as int, j),
                    ),
            decreases positions@.len() - i,
        {
            proof {
                probe_is_in_range(
                    store_path_hash@,
                    self@.parameters.m_bits() as int,
                    i as int,
                );
            }
            if !test_bit(self.bits.as_slice(), positions[i]) {
                assert(!bit_set(
                    self@.body,
                    probe(store_path_hash@, self@.parameters.m_bits() as int, i as int),
                ));
                return Ok(false);
            }
            i = i + 1;
        }
        Ok(true)
    }

    /// The number of filter bits.
    pub fn m_bits(&self) -> (r: u64)
        requires
            self.wf(),
        ensures
            r == self@.parameters.m_bits(),
    {
        self.dims.m_bits()
    }

    /// The number of probes.
    pub fn k(&self) -> (r: u8)
        requires
            self.wf(),
        ensures
            r == self@.parameters.probe_count(),
    {
        self.dims.k()
    }

    /// The parameters of the filter.
    pub fn parameters(&self) -> (r: BloomParameters)
        ensures
            r == self@.parameters,
    {
        self.parameters
    }

    /// The build time recorded in this snapshot.
    pub fn built_at(&self) -> (r: u64)
        ensures
            r == self@.built_at,
    {
        self.built_at
    }

    /// Returns the source cursor recorded in this snapshot.
    pub fn source_max_row_id(&self) -> (r: u64)
        ensures
            r == self@.source_max_row_id,
    {
        self.source_max_row_id
    }

    /// Sets the source cursor recorded in this snapshot.
    pub fn set_source_max_row_id(&mut self, source_max_row_id: u64)
        ensures
            old(self).wf() ==> final(self).wf(),
            final(self)@ == (FilterView { source_max_row_id, ..old(self)@ }),
    {
        self.source_max_row_id = source_max_row_id;
    }

    /// The SHA-256 checksum of the body.
    pub fn body_checksum(&self) -> (checksum: [u8; 32])
        requires
            self.wf(),
        ensures
            checksum == sha256_digest(self@.body),
    {
        if let Some(cached) = &self.decoded_body_checksum {
            if let Some(checksum) = cached.current() {
                return checksum;
            }
        }
        sha256(self.bits.as_slice())
    }

    /// The checksum of the body in hexadecimal.
    pub fn body_checksum_hex(&self) -> (text: String)
        requires
            self.wf(),
        ensures
            text@ == hex_text(sha256_digest(self@.body)@),
    {
        let checksum: [u8; 32] = self.body_checksum();
        hex_encode(checksum.as_slice())
    }

    /// The number of body bytes.
    pub fn body_len(&self) -> (r: usize)
        ensures
            r == self@.body.len(),
    {
        self.bits.len()
    }

    /// A copy of the body.
    pub fn copied_bits(&self) -> (body: Vec<u8>)
        ensures
            body@ == self@.body,
    {
        to_vec(self.bits.as_slice())
    }

    /// Calculates all occupancy statistics with one scan of the snapshot body.
    pub fn stats(&self) -> (stats: BloomSnapshotStats)
        requires
            self.wf(),
        ensures
            stats == self@.stats(),
            stats.set_bits == ones(self@.body),
            stats.set_bits <= stats.m_bits,
    {
        proof {
            lemma_body_bits(self@);
            lemma_ones_below_bound(self@.body, 8 * self@.body.len());
        }
        BloomSnapshotStats::from_set_bits(self.dims, count_ones(self.bits.as_slice()))
    }

    fn header(&self, body_checksum: [u8; 32]) -> (header: SnapshotHeader)
        requires
            self.wf(),
            body_checksum == sha256_digest(self@.body),
        ensures
            header@ == header_of(self@),
    {
        SnapshotHeader {
            magic: SNAPSHOT_MAGIC,
            version: CURRENT_DEFINITION_VERSION,
            m_bits: self.m_bits(),
            k: self.k(),
            built_at: self.built_at(),
            source_max_row_id: self.source_max_row_id(),
            body_checksum,
        }
    }

    /// Serializes the fixed little-endian header followed by the bit array.
    pub fn encode(&self) -> (encoded: Vec<u8>)
        requires
            self.wf(),
        ensures
            encoded@ == snapshot_bytes(self@),
    {
        self.encode_with_checksum().into_bytes()
    }

    /// Serializes the snapshot and returns the body checksum calculated for its header.
    pub fn encode_with_checksum(&self) -> (encoded: EncodedBloomSnapshot)
        requires
            self.wf(),
        ensures
            encoded@ == encoded_view(self@),
    {
        let body_checksum: [u8; 32] = sha256(self.bits.as_slice());
        let mut bytes = self.header(body_checksum).as_bytes();
        push_bytes(&mut bytes, self.bits.as_slice());
        EncodedBloomSnapshot {
            bytes,
            body_checksum,
            parameters: self.parameters,
            built_at: self.built_at,
            source_max_row_id: self.source_max_row_id,
        }
    }

    /// A filter from the parts of a snapshot that passed its checks.
    pub(crate) fn from_parts(
        parameters: BloomParameters,
        header: DecodedSnapshotHeader,
        bits: Vec<u8>,
        checksum: [u8; 32],
    ) -> (filter: Self)
        requires
            parameters.wf(),
            header.dims.wf(),
            header.dims.m_bits() == parameters.m_bits(),
            header.dims.k() == parameters.probe_count(),
            bits@.len() == header.dims.body_len(),
            checksum == sha256_digest(bits@),
        ensures
            filter.wf(),
            filter@ == (FilterView {
                parameters,
                built_at: header.built_at,
                source_max_row_id: header.source_max_row_id,
                body: bits@,
            }),
    {
        ConcurrentBloomFilter {
            parameters,
            dims: header.dims,
            built_at: header.built_at,
            source_max_row_id: header.source_max_row_id,
            bits,
            decoded_body_checksum: Some(DecodedBodyChecksum::new(checksum)),
        }
    }

    /// Decodes and fully validates a snapshot.
    ///
    /// `estimate` gives the false-positive rate that is estimated from the occupancy of the body.
    pub fn decode<F: Fn(BloomSnapshotStats) -> Rate>(
        parameters: BloomParameters,
        encoded: &[u8],
        estimate: F,
    ) -> (r: Result<Self, BloomError>)
        requires
            parameters.wf(),
            forall|stats: BloomSnapshotStats| call_requires(estimate, (stats,)),
        ensures
            snapshot_outcome(parameters, encoded@, estimate, r),
    {
        let header = match SnapshotHeader::read_from_prefix(encoded) {
            Some(header) => header,
            None => {
                return Err(
                    BloomError::Truncated {
                        expected_at_least: SNAPSHOT_HEADER_LEN,
                        actual: encoded.len(),
                    },
                );
            },
        };
        let body = &encoded[SNAPSHOT_HEADER_LEN..encoded.len()];
        assert(body@ =~= snapshot_body(encoded@));
        let header = match DecodedSnapshotHeader::decode(&header, parameters) {
            Ok(header) => header,
            Err(error) => {
                return Err(error);
            },
        };
        if body.len() != header.dims.body_len() {
            return Err(
                BloomError::InvalidBodyLength {
                    expected: header.dims.body_len(),
                    actual: body.len(),
                },
            );
        }
        let actual_checksum: [u8; 32] = sha256(body);
        if !bytes_eq(actual_checksum.as_slice(), header.body_checksum.as_slice()) {
            return Err(
                BloomError::ChecksumMismatch {
                    expected: hex_encode(header.body_checksum.as_slice()),
                    actual: hex_encode(actual_checksum.as_slice()),
                },
            );
        }
        let snapshot = ConcurrentBloomFilter::from_parts(
            parameters,
            header,
            to_vec(body),
            actual_checksum,
        );
        let rate: Rate = estimate(snapshot.stats());
        match rate.validate(parameters.max_accepted_false_positive_rate()) {
            Ok(_) => Ok(snapshot),
            Err(error) => Err(error),
        }
    }

    /// Copies the current bits into a serializable snapshot. The caller supplies `built_at` as
    /// the copy's freshness metadata.
    pub fn to_snapshot(&self, built_at: u64) -> (snapshot: Self)
        requires
            self.wf(),
        ensures
            snapshot.wf(),
            snapshot@ == (FilterView { built_at, ..self@ }),
    {
        ConcurrentBloomFilter {
            parameters: self.parameters,
            dims: self.dims,
            built_at,
            source_max_row_id: self.source_max_row_id,
            bits: to_vec(self.bits.as_slice()),
            decoded_body_checksum: None,
        }
    }
}

/// What decoding a whole snapshot gives: the filter that the bytes hold where they are an intact
/// snapshot and the rate that is estimated for it is accepted, and the error otherwise.
pub open spec fn snapshot_outcome<F: Fn(BloomSnapshotStats) -> Rate>(
    parameters: BloomParameters,
    encoded: Seq<u8>,
    estimate: F,
    r: Result<ConcurrentBloomFilter, BloomError>,
) -> bool {
    match r {
        Ok(filter) => {
            &&& snapshot_accepted(parameters, encoded)
            &&& filter.wf()
            &&& filter@ == snapshot_view(parameters, encoded)
            &&& exists|rate: Rate|
                {
                    &&& #[trigger] call_ensures(estimate, (filter@.stats(),), rate)
                    &&& !rate.exceeds(parameters.max_accepted_false_positive_rate())
                }
        },
        Err(error) => if snapshot_accepted(parameters, encoded) {
            rate_refusal(estimate, snapshot_view(parameters, encoded), error)
        } else {
            snapshot_refusal(parameters, encoded, error)
        },
    }
}

/// Whether `error` reports that the rate estimated for a filter exceeds the limit of its
/// parameters.
pub open spec fn rate_refusal<F: Fn(BloomSnapshotStats) -> Rate>(
    estimate: F,
    view: FilterView,
    error: BloomError,
) -> bool {
    exists|rate: Rate|
        {
            &&& #[trigger] call_ensures(estimate, (view.stats(),), rate)
            &&& rate.exceeds(view.parameters.max_accepted_false_positive_rate())
            &&& error == (BloomError::ExcessiveFalsePositiveRate {
                estimated_fpr: rate,
                limit: view.parameters.max_accepted_false_positive_rate(),
            })
        }
}

} // verus!
