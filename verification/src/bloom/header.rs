//! The fixed little-endian header of a snapshot.

use crate::bloom::error::BloomError;
use crate::bloom::parameters::{
    dimension_refusal, BloomParameters, Dimensions, CURRENT_DEFINITION_VERSION,
};
use crate::text::{bytes_eq, push_bytes};
use vstd::bytes::{
    spec_u64_from_le_bytes, spec_u64_to_le_bytes, u64_from_le_bytes, u64_to_le_bytes,
};
use vstd::prelude::*;

verus! {

/// Magic bytes at the start of a Bloom snapshot, `FBF1`, stored verbatim on the wire.
pub const SNAPSHOT_MAGIC: [u8; 4] = [0x46, 0x42, 0x46, 0x31];

/// The fixed header size for the current snapshot format.
pub const SNAPSHOT_HEADER_LEN: usize = 62;

/// The values of a snapshot header.
#[verifier::ext_equal]
pub struct HeaderView {
    pub magic: Seq<u8>,
    pub version: u8,
    pub m_bits: u64,
    pub k: u8,
    pub built_at: u64,
    pub source_max_row_id: u64,
    pub body_checksum: Seq<u8>,
}

impl HeaderView {
    /// The magic is 4 bytes long and the checksum 32.
    pub open spec fn wf(self) -> bool {
        self.magic.len() == 4 && self.body_checksum.len() == 32
    }
}

/// The layout of a header: its fields in order, without padding, numbers in little-endian order.
pub open spec fn header_bytes(header: HeaderView) -> Seq<u8> {
    header.magic + seq![header.version] + spec_u64_to_le_bytes(header.m_bits) + seq![header.k]
        + spec_u64_to_le_bytes(header.built_at) + spec_u64_to_le_bytes(header.source_max_row_id)
        + header.body_checksum
}

/// The header at the start of an encoded snapshot.
pub open spec fn read_header(encoded: Seq<u8>) -> HeaderView {
    HeaderView {
        magic: encoded.subrange(0, 4),
        version: encoded[4],
        m_bits: spec_u64_from_le_bytes(encoded.subrange(5, 13)),
        k: encoded[13],
        built_at: spec_u64_from_le_bytes(encoded.subrange(14, 22)),
        source_max_row_id: spec_u64_from_le_bytes(encoded.subrange(22, 30)),
        body_checksum: encoded.subrange(30, 62),
    }
}

/// Reading a header that was written gives its values back, whatever follows it.
pub proof fn header_round_trips(header: HeaderView, body: Seq<u8>)
    requires
        header.wf(),
    ensures
        header_bytes(header).len() == SNAPSHOT_HEADER_LEN,
        read_header(header_bytes(header) + body) == header,
{
    vstd::bytes::lemma_auto_spec_u64_to_from_le_bytes();
    let m_bits = spec_u64_to_le_bytes(header.m_bits);
    let built_at = spec_u64_to_le_bytes(header.built_at);
    let row = spec_u64_to_le_bytes(header.source_max_row_id);
    assert(m_bits.len() == 8 && built_at.len() == 8 && row.len() == 8);
    let all = header_bytes(header) + body;
    assert(all.subrange(0, 4) =~= header.magic);
    assert(all.subrange(5, 13) =~= m_bits);
    assert(all.subrange(14, 22) =~= built_at);
    assert(all.subrange(22, 30) =~= row);
    assert(all.subrange(30, 62) =~= header.body_checksum);
    assert(read_header(all) =~= header);
}

/// Writing the header that was read from a snapshot gives the first bytes of the snapshot back.
pub proof fn header_is_the_only_one(encoded: Seq<u8>)
    requires
        encoded.len() >= SNAPSHOT_HEADER_LEN,
    ensures
        read_header(encoded).wf(),
        header_bytes(read_header(encoded)) == encoded.take(SNAPSHOT_HEADER_LEN as int),
{
    vstd::bytes::lemma_auto_spec_u64_to_from_le_bytes();
    let header = read_header(encoded);
    assert(spec_u64_to_le_bytes(header.m_bits) == encoded.subrange(5, 13));
    assert(spec_u64_to_le_bytes(header.built_at) == encoded.subrange(14, 22));
    assert(spec_u64_to_le_bytes(header.source_max_row_id) == encoded.subrange(22, 30));
    assert(header_bytes(header) =~= encoded.take(SNAPSHOT_HEADER_LEN as int));
}

/// A header is read from the first bytes alone.
pub proof fn lemma_header_prefix(encoded: Seq<u8>, whole: Seq<u8>)
    requires
        SNAPSHOT_HEADER_LEN <= encoded.len() <= whole.len(),
        whole.take(encoded.len() as int) == encoded,
    ensures
        read_header(whole) == read_header(encoded),
{
    assert forall|i: int| 0 <= i < encoded.len() implies whole[i] == encoded[i] by {
        assert(whole.take(encoded.len() as int)[i] == encoded[i]);
    }
    assert(whole.subrange(0, 4) =~= encoded.subrange(0, 4));
    assert(whole.subrange(5, 13) =~= encoded.subrange(5, 13));
    assert(whole.subrange(14, 22) =~= encoded.subrange(14, 22));
    assert(whole.subrange(22, 30) =~= encoded.subrange(22, 30));
    assert(whole.subrange(30, 62) =~= encoded.subrange(30, 62));
}

/// A header as it stands on the wire.
#[derive(Clone, Copy, Debug)]
pub struct SnapshotHeader {
    pub magic: [u8; 4],
    pub version: u8,
    pub m_bits: u64,
    pub k: u8,
    pub built_at: u64,
    pub source_max_row_id: u64,
    pub body_checksum: [u8; 32],
}

impl View for SnapshotHeader {
    type V = HeaderView;

    open spec fn view(&self) -> HeaderView {
        HeaderView {
            magic: self.magic@,
            version: self.version,
            m_bits: self.m_bits,
            k: self.k,
            built_at: self.built_at,
            source_max_row_id: self.source_max_row_id,
            body_checksum: self.body_checksum@,
        }
    }
}

fn array_of_4(bytes: &[u8]) -> (array: [u8; 4])
    requires
        bytes@.len() == 4,
    ensures
        array@ == bytes@,
{
    let mut array: [u8; 4] = [0u8; 4];
    let mut i: usize = 0;
    while i < 4
        invariant
            i <= 4,
            bytes@.len() == 4,
            forall|j: int| 0 <= j < i ==> array@[j] == bytes@[j],
        decreases 4 - i,
    {
        array[i] = bytes[i];
        i = i + 1;
    }
    assert(array@ =~= bytes@);
    array
}

fn array_of_32(bytes: &[u8]) -> (array: [u8; 32])
    requires
        bytes@.len() == 32,
    ensures
        array@ == bytes@,
{
    let mut array: [u8; 32] = [0u8; 32];
    let mut i: usize = 0;
    while i < 32
        invariant
            i <= 32,
            bytes@.len() == 32,
            forall|j: int| 0 <= j < i ==> array@[j] == bytes@[j],
        decreases 32 - i,
    {
        array[i] = bytes[i];
        i = i + 1;
    }
    assert(array@ =~= bytes@);
    array
}

impl SnapshotHeader {
    /// Reads the header at the start of an encoded snapshot, or `None` where the snapshot is
    /// shorter than a header.
    pub fn read_from_prefix(encoded: &[u8]) -> (r: Option<SnapshotHeader>)
        ensures
            r is Some <==> encoded@.len() >= SNAPSHOT_HEADER_LEN,
            r matches Some(header) ==> header@ == read_header(encoded@),
    {
        if encoded.len() < SNAPSHOT_HEADER_LEN {
            return None;
        }
        Some(
            SnapshotHeader {
                magic: array_of_4(&encoded[0..4]),
                version: encoded[4],
                m_bits: u64_from_le_bytes(&encoded[5..13]),
                k: encoded[13],
                built_at: u64_from_le_bytes(&encoded[14..22]),
                source_max_row_id: u64_from_le_bytes(&encoded[22..30]),
                body_checksum: array_of_32(&encoded[30..62]),
            },
        )
    }

    /// The bytes of the header.
    pub fn as_bytes(&self) -> (bytes: Vec<u8>)
        ensures
            bytes@ == header_bytes(self@),
            bytes@.len() == SNAPSHOT_HEADER_LEN,
    {
        let mut bytes: Vec<u8> = Vec::new();
        push_bytes(&mut bytes, self.magic.as_slice());
        bytes.push(self.version);
        push_bytes(&mut bytes, u64_to_le_bytes(self.m_bits).as_slice());
        bytes.push(self.k);
        push_bytes(&mut bytes, u64_to_le_bytes(self.built_at).as_slice());
        push_bytes(&mut bytes, u64_to_le_bytes(self.source_max_row_id).as_slice());
        push_bytes(&mut bytes, self.body_checksum.as_slice());
        proof {
            header_round_trips(self@, Seq::empty());
            assert(bytes@ =~= header_bytes(self@));
        }
        bytes
    }
}

/// Whether a header fits the parameters that a snapshot is decoded with.
pub open spec fn header_accepted(header: HeaderView, parameters: BloomParameters) -> bool {
    &&& header.magic == SNAPSHOT_MAGIC@
    &&& header.version == CURRENT_DEFINITION_VERSION
    &&& header.m_bits == parameters.m_bits()
    &&& header.k == parameters.probe_count()
}

/// Whether `error` is what is wrong with a header that does not fit: the first of magic, version,
/// validity of the dimensions, and agreement of the dimensions.
pub open spec fn header_refusal(
    header: HeaderView,
    parameters: BloomParameters,
    error: BloomError,
) -> bool {
    if header.magic != SNAPSHOT_MAGIC@ {
        error matches BloomError::InvalidMagic { actual } && actual@ == header.magic
    } else if header.version != CURRENT_DEFINITION_VERSION {
        error == (BloomError::IncompatibleDefinition {
            expected: CURRENT_DEFINITION_VERSION,
            actual: header.version,
        })
    } else {
        match dimension_refusal(header.m_bits, header.k) {
            Some(invalid) => error == invalid,
            None => error == (BloomError::SnapshotParameterMismatch {
                expected_m_bits: parameters.m_bits(),
                expected_k: parameters.probe_count(),
                actual_m_bits: header.m_bits,
                actual_k: header.k,
            }),
        }
    }
}

/// A header that fits the parameters.
#[derive(Clone, Copy, Debug)]
pub struct DecodedSnapshotHeader {
    pub dims: Dimensions,
    pub built_at: u64,
    pub source_max_row_id: u64,
    pub body_checksum: [u8; 32],
}

impl DecodedSnapshotHeader {
    /// Checks a header against the parameters.
    pub fn decode(header: &SnapshotHeader, parameters: BloomParameters) -> (r: Result<
        Self,
        BloomError,
    >)
        requires
            parameters.wf(),
        ensures
            match r {
                Ok(decoded) => {
                    &&& header_accepted(header@, parameters)
                    &&& decoded.dims.wf()
                    &&& decoded.dims.m_bits() == header.m_bits
                    &&& decoded.dims.k() == header.k
                    &&& decoded.built_at == header.built_at
                    &&& decoded.source_max_row_id == header.source_max_row_id
                    &&& decoded.body_checksum@ == header.body_checksum@
                },
                Err(error) => {
                    &&& !header_accepted(header@, parameters)
                    &&& header_refusal(header@, parameters, error)
                },
            },
    {
        let magic: [u8; 4] = SNAPSHOT_MAGIC;
        if !bytes_eq(header.magic.as_slice(), magic.as_slice()) {
            return Err(BloomError::InvalidMagic { actual: header.magic });
        }
        if header.version != CURRENT_DEFINITION_VERSION {
            return Err(
                BloomError::IncompatibleDefinition {
                    expected: CURRENT_DEFINITION_VERSION,
                    actual: header.version,
                },
            );
        }
        let dims = match Dimensions::new(header.m_bits, header.k) {
            Ok(dims) => dims,
            Err(error) => {
                return Err(error);
            },
        };
        let expected = parameters.dimensions();
        if dims.m_bits() != expected.m_bits() || dims.k() != expected.k() {
            return Err(
                BloomError::SnapshotParameterMismatch {
                    expected_m_bits: expected.m_bits(),
                    expected_k: expected.k(),
                    actual_m_bits: dims.m_bits(),
                    actual_k: dims.k(),
                },
            );
        }
        Ok(
            DecodedSnapshotHeader {
                dims,
                built_at: header.built_at,
                source_max_row_id: header.source_max_row_id,
                body_checksum: header.body_checksum,
            },
        )
    }

    /// Reports that no memory for the body could be reserved.
    pub fn check_reserved(&self, reserved: bool) -> (r: Result<(), BloomError>)
        ensures
            r == (if reserved {
                Ok::<(), BloomError>(())
            } else {
                Err(BloomError::TooLarge { m_bits: self.dims.m_bits() })
            }),
    {
        if !reserved {
            return Err(BloomError::TooLarge { m_bits: self.dims.m_bits() });
        }
        Ok(())
    }
}

} // verus!
