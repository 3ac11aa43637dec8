//! Wire types for Bloom filter live updates.
//!
//! A record carries a version beside its event: probe-position updates and payload-free
//! heartbeat markers.

use crate::bloom::error::BloomError;
use crate::bloom::parameters::{BloomParameters, MAX_PROBE_COUNT};
use crate::bloom::power::{check_power_of_two, is_power_of_two};
use crate::bloom::probe::{probe_is_in_range, probes};
use crate::nix_store::StorePathHash;
use crate::number::powers_of_two_have_one_bit;
use vstd::prelude::*;

verus! {

/// Validated probe positions of one store path, as carried by a path-created record.
///
/// - the bit count is a power of two and at least 8,
/// - there is at least one and at most [`MAX_PROBE_COUNT`] positions,
/// - every position is below the bit count.
#[derive(Clone, Debug, PartialEq, Eq)]
pub struct ProbePositions {
    m_bits: u64,
    positions: Vec<u64>,
}

/// The shape of [`ProbePositions`] before validation.
#[derive(Clone, Debug, PartialEq, Eq)]
pub struct UncheckedPositions {
    pub m_bits: u64,
    pub positions: Vec<u64>,
}

/// Whether positions uphold the invariants of [`ProbePositions`].
pub open spec fn positions_are_valid(m_bits: u64, positions: Seq<u64>) -> bool {
    &&& m_bits >= 8
    &&& is_power_of_two(m_bits as int)
    &&& 1 <= positions.len() <= MAX_PROBE_COUNT
    &&& forall|i: int| 0 <= i < positions.len() ==> #[trigger] positions[i] < m_bits
}

/// Whether `error` is what is wrong with positions that are not valid.
pub open spec fn positions_refusal(m_bits: u64, positions: Seq<u64>, error: BloomError) -> bool {
    if m_bits < 8 || !is_power_of_two(m_bits as int) {
        error == (BloomError::InvalidBitCount { m_bits })
    } else if positions.len() == 0 || positions.len() > MAX_PROBE_COUNT {
        error matches BloomError::InvalidPositionCount { count } && count == positions.len()
    } else {
        exists|i: int|
            #![trigger positions[i]]
            {
                &&& 0 <= i < positions.len()
                &&& positions[i] >= m_bits
                &&& forall|j: int| 0 <= j < i ==> #[trigger] positions[j] < m_bits
                &&& error == (BloomError::PositionOutOfRange { position: positions[i], m_bits })
            }
    }
}

impl ProbePositions {
    pub closed spec fn spec_m_bits(&self) -> u64 {
        self.m_bits
    }

    /// The positions as a sequence.
    pub closed spec fn view(&self) -> Seq<u64> {
        self.positions@
    }

    /// The invariants of the type.
    pub open spec fn wf(&self) -> bool {
        positions_are_valid(self.m_bits(), self@)
    }

    /// Validates positions that came from a record.
    pub fn try_from(unchecked: UncheckedPositions) -> (r: Result<Self, BloomError>)
        ensures
            match r {
                Ok(positions) => {
                    &&& positions_are_valid(unchecked.m_bits, unchecked.positions@)
                    &&& positions.wf()
                    &&& positions.m_bits() == unchecked.m_bits
                    &&& positions@ == unchecked.positions@
                },
                Err(error) => {
                    &&& !positions_are_valid(unchecked.m_bits, unchecked.positions@)
                    &&& positions_refusal(unchecked.m_bits, unchecked.positions@, error)
                },
            },
    {
        let m_bits: u64 = unchecked.m_bits;
        let positions = unchecked.positions;
        if m_bits < 8 || !check_power_of_two(m_bits) {
            return Err(BloomError::InvalidBitCount { m_bits });
        }
        if positions.len() == 0 || positions.len() > MAX_PROBE_COUNT as usize {
            return Err(BloomError::InvalidPositionCount { count: positions.len() });
        }
        let mut i: usize = 0;
        while i < positions.len()
            invariant
                i <= positions@.len(),
                forall|j: int| 0 <= j < i ==> #[trigger] positions@[j] < m_bits,
                positions@ == unchecked.positions@,
                m_bits == unchecked.m_bits,
                m_bits >= 8,
                is_power_of_two(m_bits as int),
                1 <= positions@.len() <= MAX_PROBE_COUNT,
            decreases positions@.len() - i,
        {
            let position: u64 = positions[i];
            if position >= m_bits {
                assert(unchecked.positions@[i as int] >= m_bits);
                return Err(BloomError::PositionOutOfRange { position, m_bits });
            }
            i = i + 1;
        }
        Ok(ProbePositions { m_bits, positions })
    }

    /// Calculates the probe positions of a store path hash under the supplied parameters.
    pub fn of(store_path_hash: &StorePathHash, parameters: BloomParameters) -> (r: Result<
        Self,
        BloomError,
    >)
        requires
            store_path_hash.wf(),
            parameters.wf(),
        ensures
            r matches Ok(positions) && {
                &&& positions.wf()
                &&& positions.m_bits() == parameters.m_bits()
                &&& positions@ == probes(
                    store_path_hash@,
                    parameters.m_bits(),
                    parameters.probe_count(),
                )
            },
    {
        match parameters.dimensions().probe_positions(store_path_hash) {
            Ok(positions) => {
                proof {
                    assert forall|i: int| 0 <= i < positions@.len() implies #[trigger] positions@[i]
                        < parameters.m_bits() by {
                        probe_is_in_range(store_path_hash@, parameters.m_bits() as int, i);
                    }
                }
                Ok(ProbePositions { m_bits: parameters.m_bits(), positions })
            },
            Err(error) => Err(error),
        }
    }

    /// The filter size the positions were calculated against.
    #[verifier::when_used_as_spec(spec_m_bits)]
    pub fn m_bits(&self) -> (r: u64)
        ensures
            r == self.m_bits(),
    {
        self.m_bits
    }

    /// The bit positions to set, each below the bit count.
    pub fn positions(&self) -> (positions: &[u64])
        ensures
            positions@ == self@,
    {
        self.positions.as_slice()
    }
}

/// One record on the Bloom update stream.
#[derive(Clone, Debug, PartialEq, Eq)]
pub enum BloomStreamEvent {
    /// An update for a store path whose probe positions are these. The record carries the bit
    /// positions to set rather than the raw store path hash.
    PathCreated(ProbePositions),
    /// A payload-free heartbeat marker.
    Heartbeat,
}

/// The result of decoding one well-formed record.
#[derive(Clone, Debug, PartialEq, Eq)]
pub enum DecodedEvent {
    Event(BloomStreamEvent),
    /// The record carries an unsupported version. Its other fields stay uninterpreted, so a
    /// future version can change them freely.
    UnsupportedVersion(u8),
}

/// A record: an event beside the version of its encoding.
#[derive(Clone, Debug, PartialEq, Eq)]
pub struct VersionedEvent<'a> {
    pub version: u8,
    pub event: &'a BloomStreamEvent,
}

/// What a record is decoded to, from what its version and its event were read as.
pub open spec fn decoded_event(
    version: Result<u8, serde_json::Error>,
    event: Result<BloomStreamEvent, serde_json::Error>,
) -> Result<DecodedEvent, serde_json::Error> {
    match version {
        Err(error) => Err(error),
        Ok(number) => if number != BloomStreamEvent::CURRENT_VERSION {
            Ok(DecodedEvent::UnsupportedVersion(number))
        } else {
            match event {
                Ok(decoded) => Ok(DecodedEvent::Event(decoded)),
                Err(error) => Err(error),
            }
        },
    }
}

/// The version counts before the event: a record of any version but the current one is decoded to
/// that version, whatever its event was read as. A record of the current version is decoded to
/// its event, and what could not be read is the error.
pub proof fn versions_count_before_events(
    version: u8,
    event: Result<BloomStreamEvent, serde_json::Error>,
    error: serde_json::Error,
)
    ensures
        version != 1 ==> decoded_event(Ok(version), event) == Ok::<DecodedEvent, serde_json::Error>(
            DecodedEvent::UnsupportedVersion(version),
        ),
        version == 1 ==> match event {
            Ok(read) => decoded_event(Ok(version), event) == Ok::<DecodedEvent, serde_json::Error>(
                DecodedEvent::Event(read),
            ),
            Err(unread) => decoded_event(Ok(version), event) == Err::<
                DecodedEvent,
                serde_json::Error,
            >(unread),
        },
        decoded_event(Err(error), event) == Err::<DecodedEvent, serde_json::Error>(error),
        BloomStreamEvent::CURRENT_VERSION == 1,
{
}

/// Positions are valid exactly where the bit count is a power of two that fills whole bytes, there
/// are 1 to 64 positions, and each is below the bit count.
pub proof fn valid_positions_are_bits_of_a_filter(m_bits: u64, positions: Seq<u64>)
    ensures
        positions_are_valid(m_bits, positions) <==> {
            &&& m_bits >= 8
            &&& m_bits & ((m_bits - 1) as u64) == 0
            &&& 1 <= positions.len() <= 64
            &&& forall|i: int| 0 <= i < positions.len() ==> #[trigger] positions[i] < m_bits
        },
{
    if m_bits > 0 {
        powers_of_two_have_one_bit(m_bits);
    }
}

/// Positions are refused for the bit count first, for their number next, and for the first position
/// out of range last.
pub proof fn positions_are_refused_in_order(
    m_bits: u64,
    positions: Seq<u64>,
    error: BloomError,
    i: int,
)
    requires
        positions_refusal(m_bits, positions, error),
    ensures
        m_bits < 8 || m_bits & ((m_bits - 1) as u64) != 0 ==> error
            == (BloomError::InvalidBitCount { m_bits }),
        m_bits >= 8 && m_bits & ((m_bits - 1) as u64) == 0 && (positions.len() == 0
            || positions.len() > 64) ==> (error matches BloomError::InvalidPositionCount { count }
            && count == positions.len()),
        ({
            &&& m_bits >= 8 && m_bits & ((m_bits - 1) as u64) == 0
            &&& 1 <= positions.len() <= 64
            &&& 0 <= i < positions.len() && positions[i] >= m_bits
            &&& forall|j: int| 0 <= j < i ==> #[trigger] positions[j] < m_bits
        }) ==> error == (BloomError::PositionOutOfRange { position: positions[i], m_bits }),
{
    if m_bits > 0 {
        powers_of_two_have_one_bit(m_bits);
    }
}

/// An event whose record is read back as it was written is decoded to that event.
pub proof fn events_round_trip(record: VersionedEvent<'_>, event: BloomStreamEvent)
    requires
        record.version == BloomStreamEvent::CURRENT_VERSION,
        *record.event == event,
    ensures
        decoded_event(Ok(record.version), Ok(*record.event)) == Ok::<
            DecodedEvent,
            serde_json::Error,
        >(DecodedEvent::Event(event)),
{
}

impl BloomStreamEvent {
    /// The version this code encodes, and the only version it decodes.
    pub const CURRENT_VERSION: u8 = 1;

    /// The positions that the event carries are valid.
    pub open spec fn wf(&self) -> bool {
        self matches BloomStreamEvent::PathCreated(positions) ==> positions.wf()
    }

    /// Builds a path-created event from a store path hash. The hash itself stays out of the
    /// event.
    pub fn path_created(store_path_hash: &StorePathHash, parameters: BloomParameters) -> (r: Result<
        Self,
        BloomError,
    >)
        requires
            store_path_hash.wf(),
            parameters.wf(),
        ensures
            r matches Ok(BloomStreamEvent::PathCreated(positions)) && {
                &&& positions.wf()
                &&& positions.m_bits() == parameters.m_bits()
                &&& positions@ == probes(
                    store_path_hash@,
                    parameters.m_bits(),
                    parameters.probe_count(),
                )
            },
    {
        match ProbePositions::of(store_path_hash, parameters) {
            Ok(positions) => Ok(BloomStreamEvent::PathCreated(positions)),
            Err(error) => Err(error),
        }
    }

    /// The record of this event: the current version beside the event.
    pub fn encode(&self) -> (record: VersionedEvent<'_>)
        ensures
            record.version == BloomStreamEvent::CURRENT_VERSION,
            *record.event == *self,
    {
        VersionedEvent { version: BloomStreamEvent::CURRENT_VERSION, event: self }
    }

    /// Decodes one record from what its version and its event were read as. The version counts
    /// before the event: a record of another version is recognized whatever its other fields
    /// hold.
    pub fn decode(
        version: Result<u8, serde_json::Error>,
        event: Result<BloomStreamEvent, serde_json::Error>,
    ) -> (r: Result<DecodedEvent, serde_json::Error>)
        ensures
            r == decoded_event(version, event),
    {
        let version: u8 = match version {
            Ok(version) => version,
            Err(error) => {
                return Err(error);
            },
        };
        if version != BloomStreamEvent::CURRENT_VERSION {
            return Ok(DecodedEvent::UnsupportedVersion(version));
        }
        match event {
            Ok(event) => Ok(DecodedEvent::Event(event)),
            Err(error) => Err(error),
        }
    }
}

} // verus!
