//! Filter dimensions, construction policy and definition version.

use crate::bloom::error::BloomError;
use crate::bloom::power::{check_power_of_two, is_power_of_two};
use crate::path::{join, push_part};
use crate::text::{ascii, decimal, push_ascii, push_decimal};
use vstd::prelude::*;

verus! {

/// Arbitrary upper bound to protect against excessive CPU utilization.
pub const MAX_PROBE_COUNT: u8 = 64;

/// A false-positive rate, held as the bits of an IEEE 754 double-precision number. Numbers that
/// are not negative are ordered as their bits are.
#[derive(Clone, Copy, Debug, PartialEq, Eq, Structural)]
pub struct Rate {
    pub bits: u64,
}

/// The bits of the number 1.
pub const RATE_ONE_BITS: u64 = 0x3ff0_0000_0000_0000;

/// The bits of positive infinity: every larger pattern is negative or not a number.
pub const RATE_INFINITY_BITS: u64 = 0x7ff0_0000_0000_0000;

impl Rate {
    /// Finite, above 0 and below 1.
    pub open spec fn is_proper(self) -> bool {
        0 < self.bits < RATE_ONE_BITS
    }

    /// Greater than a proper limit.
    pub open spec fn exceeds(self, limit: Rate) -> bool {
        limit.bits < self.bits <= RATE_INFINITY_BITS
    }

    fn check_proper(self) -> (r: bool)
        ensures
            r == self.is_proper(),
    {
        0 < self.bits && self.bits < RATE_ONE_BITS
    }

    fn check_exceeds(self, limit: Rate) -> (r: bool)
        ensures
            r == self.exceeds(limit),
    {
        limit.bits < self.bits && self.bits <= RATE_INFINITY_BITS
    }

    /// Accepts an estimated rate unless it exceeds the limit.
    pub fn validate(self, limit: Rate) -> (r: Result<(), BloomError>)
        requires
            limit.is_proper(),
        ensures
            r == (if self.exceeds(limit) {
                Err::<(), BloomError>(
                    BloomError::ExcessiveFalsePositiveRate { estimated_fpr: self, limit },
                )
            } else {
                Ok::<(), BloomError>(())
            }),
    {
        if self.check_exceeds(limit) {
            return Err(BloomError::ExcessiveFalsePositiveRate { estimated_fpr: self, limit });
        }
        Ok(())
    }
}

/// Why filter dimensions are invalid, if they are.
pub open spec fn dimension_refusal(m_bits: u64, k: u8) -> Option<BloomError> {
    if m_bits < 8 || !is_power_of_two(m_bits as int) {
        Some(BloomError::InvalidBitCount { m_bits })
    } else if k == 0 || k > MAX_PROBE_COUNT {
        Some(BloomError::InvalidProbeCount { k })
    } else if m_bits / 8 > usize::MAX {
        Some(BloomError::TooLarge { m_bits })
    } else {
        None
    }
}

/// Validated filter dimensions.
#[derive(Clone, Copy, Debug)]
pub struct Dimensions {
    m_bits: u64,
    k: u8,
    body_len: usize,
}

impl Dimensions {
    pub closed spec fn spec_m_bits(self) -> u64 {
        self.m_bits
    }

    pub closed spec fn spec_k(self) -> u8 {
        self.k
    }

    pub closed spec fn spec_body_len(self) -> usize {
        self.body_len
    }

    /// The bit count is a power of two that fills whole bytes, the probe count is within its
    /// bounds, and the body holds the bits eight to a byte.
    pub open spec fn wf(self) -> bool {
        &&& dimension_refusal(self.m_bits(), self.k()) is None
        &&& self.body_len() == self.m_bits() / 8
    }

    /// Each body byte stores eight filter bits. The probe calculation requires the bit count to
    /// be a power of two. Each power of two that is at least eight is divisible by eight.
    pub fn new(m_bits: u64, k: u8) -> (r: Result<Self, BloomError>)
        ensures
            match dimension_refusal(m_bits, k) {
                Some(error) => r == Err::<Self, BloomError>(error),
                None => r matches Ok(dims) && dims.wf() && dims.m_bits() == m_bits && dims.k() == k,
            },
    {
        if m_bits < 8 || !check_power_of_two(m_bits) {
            return Err(BloomError::InvalidBitCount { m_bits });
        }
        if k == 0 || k > MAX_PROBE_COUNT {
            return Err(BloomError::InvalidProbeCount { k });
        }
        match usize::try_from(m_bits / 8) {
            Ok(body_len) => Ok(Dimensions { m_bits, k, body_len }),
            Err(_) => Err(BloomError::TooLarge { m_bits }),
        }
    }

    /// The number of filter bits.
    #[verifier::when_used_as_spec(spec_m_bits)]
    pub fn m_bits(self) -> (r: u64)
        ensures
            r == self.m_bits(),
    {
        self.m_bits
    }

    /// The number of probes.
    #[verifier::when_used_as_spec(spec_k)]
    pub fn k(self) -> (r: u8)
        ensures
            r == self.k(),
    {
        self.k
    }

    /// The number of body bytes.
    #[verifier::when_used_as_spec(spec_body_len)]
    pub fn body_len(self) -> (r: usize)
        ensures
            r == self.body_len(),
    {
        self.body_len
    }
}

/// Construction and safety policy for one Bloom snapshot.
///
/// The manifest carries this complete value, and a decoded filter retains it together with its
/// bits.
#[derive(Clone, Copy, Debug, PartialEq, Eq, Structural)]
pub struct BloomParameters {
    m_bits: u64,
    probe_count: u8,
    max_heartbeat_interval_seconds: u64,
    clock_skew_slack_seconds: u64,
    max_accepted_false_positive_rate: Rate,
}

/// Why parameters are invalid, if they are.
pub open spec fn parameter_refusal(
    m_bits: u64,
    probe_count: u8,
    max_heartbeat_interval_seconds: u64,
    max_accepted_false_positive_rate: Rate,
) -> Option<BloomError> {
    if max_heartbeat_interval_seconds == 0 {
        Some(BloomError::InvalidHeartbeatInterval)
    } else if !max_accepted_false_positive_rate.is_proper() {
        Some(BloomError::InvalidFalsePositiveRate { rate: max_accepted_false_positive_rate })
    } else {
        dimension_refusal(m_bits, probe_count)
    }
}

impl BloomParameters {
    pub closed spec fn spec_m_bits(self) -> u64 {
        self.m_bits
    }

    pub closed spec fn spec_probe_count(self) -> u8 {
        self.probe_count
    }

    pub closed spec fn spec_max_heartbeat_interval(self) -> u64 {
        self.max_heartbeat_interval_seconds
    }

    pub closed spec fn spec_clock_skew_slack(self) -> u64 {
        self.clock_skew_slack_seconds
    }

    pub closed spec fn spec_max_accepted_false_positive_rate(self) -> Rate {
        self.max_accepted_false_positive_rate
    }

    /// The values pass the checks of the constructor.
    pub open spec fn wf(self) -> bool {
        parameter_refusal(
            self.m_bits(),
            self.probe_count(),
            self.max_heartbeat_interval(),
            self.max_accepted_false_positive_rate(),
        ) is None
    }

    /// Validates and holds the parameters. The two durations are in seconds.
    pub fn new(
        m_bits: u64,
        probe_count: u8,
        max_heartbeat_interval_seconds: u64,
        clock_skew_slack_seconds: u64,
        max_accepted_false_positive_rate: Rate,
    ) -> (r: Result<Self, BloomError>)
        ensures
            match parameter_refusal(
                m_bits,
                probe_count,
                max_heartbeat_interval_seconds,
                max_accepted_false_positive_rate,
            ) {
                Some(error) => r == Err::<Self, BloomError>(error),
                None => {
                    &&& r matches Ok(parameters)
                    &&& parameters.wf()
                    &&& parameters.m_bits() == m_bits
                    &&& parameters.probe_count() == probe_count
                    &&& parameters.max_heartbeat_interval() == max_heartbeat_interval_seconds
                    &&& parameters.clock_skew_slack() == clock_skew_slack_seconds
                    &&& parameters.max_accepted_false_positive_rate()
                        == max_accepted_false_positive_rate
                },
            },
    {
        if max_heartbeat_interval_seconds == 0 {
            return Err(BloomError::InvalidHeartbeatInterval);
        }
        if !max_accepted_false_positive_rate.check_proper() {
            return Err(
                BloomError::InvalidFalsePositiveRate { rate: max_accepted_false_positive_rate },
            );
        }
        match Dimensions::new(m_bits, probe_count) {
            Ok(_) => Ok(
                BloomParameters {
                    m_bits,
                    probe_count,
                    max_heartbeat_interval_seconds,
                    clock_skew_slack_seconds,
                    max_accepted_false_positive_rate,
                },
            ),
            Err(error) => Err(error),
        }
    }

    /// The number of filter bits.
    #[verifier::when_used_as_spec(spec_m_bits)]
    pub fn m_bits(self) -> (r: u64)
        ensures
            r == self.m_bits(),
    {
        self.m_bits
    }

    /// The number of probes.
    #[verifier::when_used_as_spec(spec_probe_count)]
    pub fn probe_count(self) -> (r: u8)
        ensures
            r == self.probe_count(),
    {
        self.probe_count
    }

    /// The longest accepted time between heartbeats, in seconds.
    #[verifier::when_used_as_spec(spec_max_heartbeat_interval)]
    pub fn max_heartbeat_interval(self) -> (r: u64)
        ensures
            r == self.max_heartbeat_interval(),
    {
        self.max_heartbeat_interval_seconds
    }

    /// The slack for clock skew, in seconds.
    #[verifier::when_used_as_spec(spec_clock_skew_slack)]
    pub fn clock_skew_slack(self) -> (r: u64)
        ensures
            r == self.clock_skew_slack(),
    {
        self.clock_skew_slack_seconds
    }

    /// The highest accepted false-positive rate.
    #[verifier::when_used_as_spec(spec_max_accepted_false_positive_rate)]
    pub fn max_accepted_false_positive_rate(self) -> (r: Rate)
        ensures
            r == self.max_accepted_false_positive_rate(),
    {
        self.max_accepted_false_positive_rate
    }

    /// The dimensions of a filter with these parameters.
    pub fn dimensions(self) -> (dims: Dimensions)
        requires
            self.wf(),
        ensures
            dims.wf(),
            dims.m_bits() == self.m_bits(),
            dims.k() == self.probe_count(),
    {
        Dimensions {
            m_bits: self.m_bits,
            k: self.probe_count,
            body_len: (self.m_bits / 8) as usize,
        }
    }
}

/// A version of the snapshot format.
#[derive(Clone, Copy, Debug, PartialEq, Eq, Structural)]
pub struct FilterDefinition {
    pub version: u8,
}

/// The version that this code reads and writes.
pub const CURRENT_DEFINITION_VERSION: u8 = 1;

/// `bloom/v` followed by the version number.
pub open spec fn object_prefix_text(version: u8) -> Seq<u8> {
    join(ascii("bloom"@), ascii("v"@) + decimal(version as nat))
}

impl FilterDefinition {
    /// The definition that this code reads and writes.
    pub fn current() -> (definition: FilterDefinition)
        ensures
            definition.version == CURRENT_DEFINITION_VERSION,
    {
        FilterDefinition { version: CURRENT_DEFINITION_VERSION }
    }

    /// Relative directory containing snapshots compatible with this definition.
    pub fn object_prefix(self) -> (key: Vec<u8>)
        ensures
            key@ == object_prefix_text(self.version),
    {
        proof {
            reveal_strlit("bloom");
            reveal_strlit("v");
        }
        let mut directory: Vec<u8> = Vec::new();
        push_ascii(&mut directory, "v");
        push_decimal(&mut directory, self.version as u64);
        let mut key: Vec<u8> = Vec::new();
        push_ascii(&mut key, "bloom");
        assert(key@ =~= ascii("bloom"@));
        assert(directory@ =~= ascii("v"@) + decimal(self.version as nat));
        push_part(&mut key, directory.as_slice());
        key
    }

    /// Relative key of the mutable manifest for this definition.
    pub fn manifest_key(self) -> (key: Vec<u8>)
        ensures
            key@ == join(object_prefix_text(self.version), ascii("latest"@)),
    {
        proof {
            reveal_strlit("latest");
        }
        let mut part: Vec<u8> = Vec::new();
        push_ascii(&mut part, "latest");
        assert(part@ =~= ascii("latest"@));
        let mut key = self.object_prefix();
        push_part(&mut key, part.as_slice());
        key
    }
}

} // verus!
