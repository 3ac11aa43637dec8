//! Laws of the parameters, the snapshot layout and the manifest, over numbers and bytes.

use crate::bloom::error::BloomError;
use crate::bloom::filter::{
    encoded_view, header_of, snapshot_accepted, snapshot_body, snapshot_bytes, snapshot_outcome,
    snapshot_refusal, snapshot_view, BloomSnapshotStats, ConcurrentBloomFilter, FilterView,
};
use crate::bloom::header::{
    header_accepted, header_bytes, header_refusal, header_round_trips, read_header, HeaderView,
};
use crate::bloom::laws::is_function;
use crate::bloom::manifest::{definition_refusal, SnapshotManifest};
use crate::bloom::parameters::{
    dimension_refusal, object_prefix_text, parameter_refusal, BloomParameters, Dimensions, Rate,
};
use crate::number::{
    little_endian_bytes_are_digits, little_endian_numbers_are_sums, powers_of_two_have_one_bit,
};
use crate::outside::sha256_digest;
use crate::path::{split, split_of_join, split_of_part};
use crate::text::{ascii, decimal, decimal_round_trips, hex_text};
use vstd::arithmetic::power::pow;
use vstd::arithmetic::power2::{lemma_pow2_adds, lemma_pow2_pos, pow2};
use vstd::prelude::*;

verus! {

/// The number whose double-precision bits these are, times `2^1074`: the fraction alone where the
/// exponent is 0, and otherwise the fraction with its leading 1, shifted by the exponent.
pub open spec fn scaled_number(bits: u64) -> int {
    let exponent = bits / 0x10_0000_0000_0000;
    let fraction = bits % 0x10_0000_0000_0000;
    if exponent == 0 {
        fraction as int
    } else {
        (0x10_0000_0000_0000 + fraction) * pow2((exponent - 1) as nat)
    }
}

proof fn lemma_numbers_follow_bits(a: u64, b: u64)
    requires
        a < b,
    ensures
        0 <= scaled_number(a) < scaled_number(b),
{
    let unit = 0x10_0000_0000_0000int;
    let ea = (a / 0x10_0000_0000_0000) as int;
    let eb = (b / 0x10_0000_0000_0000) as int;
    let fa = (a % 0x10_0000_0000_0000) as int;
    let fb = (b % 0x10_0000_0000_0000) as int;
    assert(a == unit * ea + fa && b == unit * eb + fb);
    if ea == eb {
        if ea > 0 {
            let p = pow2((ea - 1) as nat) as int;
            lemma_pow2_pos((ea - 1) as nat);
            assert(0 <= (unit + fa) * p < (unit + fb) * p) by (nonlinear_arith)
                requires
                    0 <= fa < fb,
                    unit > 0,
                    p > 0,
            ;
        }
    } else {
        assert(ea < eb);
        let q = pow2((eb - 1) as nat) as int;
        lemma_pow2_pos((eb - 1) as nat);
        assert((unit + fb) * q >= unit * q) by (nonlinear_arith)
            requires
                fb >= 0,
                q > 0,
        ;
        if ea == 0 {
            assert(unit * q >= unit) by (nonlinear_arith)
                requires
                    unit > 0,
                    q >= 1,
            ;
        } else {
            let p = pow2((ea - 1) as nat) as int;
            lemma_pow2_pos((ea - 1) as nat);
            let d = (eb - ea) as nat;
            lemma_pow2_adds((ea - 1) as nat, d);
            vstd::arithmetic::power2::lemma_pow2_unfold(d);
            lemma_pow2_pos((d - 1) as nat);
            let r = pow2(d) as int;
            assert(r >= 2);
            assert(q == p * r);
            assert(0 <= (unit + fa) * p < unit * q) by (nonlinear_arith)
                requires
                    0 <= fa < unit,
                    p > 0,
                    r >= 2,
                    q == p * r,
            ;
        }
    }
}

proof fn lemma_number_of_one()
    ensures
        scaled_number(0x3ff0_0000_0000_0000) == pow2(1074),
{
    assert(0x3ff0_0000_0000_0000u64 / 0x10_0000_0000_0000 == 1023);
    assert(0x3ff0_0000_0000_0000u64 % 0x10_0000_0000_0000 == 0);
    vstd::arithmetic::power2::lemma2_to64();
    vstd::arithmetic::power2::lemma2_to64_rest();
    assert(pow2(52) == 0x10_0000_0000_0000);
    lemma_pow2_adds(52, 1022);
}

/// Rates are compared as the numbers whose bits they hold: among numbers that are not negative,
/// those exceed a limit that are greater, and those are proper that are above 0 and below 1.
pub proof fn rates_are_compared_as_numbers(rate: Rate, limit: Rate)
    ensures
        rate.bits <= 0x7ff0_0000_0000_0000 && limit.bits < 0x7ff0_0000_0000_0000 ==> (rate.exceeds(
            limit,
        ) <==> scaled_number(rate.bits) > scaled_number(limit.bits)),
        rate.bits > 0x7ff0_0000_0000_0000 ==> !rate.exceeds(limit) && !rate.is_proper(),
        rate.bits <= 0x7ff0_0000_0000_0000 ==> (rate.is_proper() <==> 0 < scaled_number(rate.bits)
            < pow2(1074)),
{
    lemma_number_of_one();
    assert(scaled_number(0) == 0);
    if rate.bits < limit.bits {
        lemma_numbers_follow_bits(rate.bits, limit.bits);
    }
    if limit.bits < rate.bits {
        lemma_numbers_follow_bits(limit.bits, rate.bits);
    }
    if 0 < rate.bits {
        lemma_numbers_follow_bits(0, rate.bits);
    }
    if rate.bits < 0x3ff0_0000_0000_0000 {
        lemma_numbers_follow_bits(rate.bits, 0x3ff0_0000_0000_0000);
    }
    if rate.bits > 0x3ff0_0000_0000_0000 {
        lemma_numbers_follow_bits(0x3ff0_0000_0000_0000, rate.bits);
    }
}

/// Dimensions are valid exactly where the bit count is a power of two and at least 8, there are 1
/// to 64 probes, and the body fits in memory. What is wrong is named in that order.
pub proof fn dimensions_are_refused_in_order(m_bits: u64, k: u8)
    ensures
        m_bits < 8 || m_bits & ((m_bits - 1) as u64) != 0 ==> dimension_refusal(m_bits, k) == Some(
            BloomError::InvalidBitCount { m_bits },
        ),
        m_bits >= 8 && m_bits & ((m_bits - 1) as u64) == 0 ==> {
            &&& !(1 <= k <= 64) ==> dimension_refusal(m_bits, k) == Some(
                BloomError::InvalidProbeCount { k },
            )
            &&& 1 <= k <= 64 && m_bits / 8 > usize::MAX ==> dimension_refusal(m_bits, k) == Some(
                BloomError::TooLarge { m_bits },
            )
            &&& 1 <= k <= 64 && m_bits / 8 <= usize::MAX ==> dimension_refusal(m_bits, k) is None
        },
{
    if m_bits > 0 {
        powers_of_two_have_one_bit(m_bits);
    }
}

/// Valid dimensions hold eight bits in each byte of the body.
pub proof fn bodies_hold_eight_bits_to_a_byte(dims: Dimensions, view: FilterView)
    requires
        dims.wf(),
        view.wf(),
    ensures
        8 * dims.body_len() == dims.m_bits(),
        dims.m_bits() & ((dims.m_bits() - 1) as u64) == 0,
        1 <= dims.k() <= 64,
        8 * view.body.len() == view.parameters.m_bits(),
{
    dimensions_are_refused_in_order(dims.m_bits(), dims.k());
    crate::bloom::filter::lemma_body_bits(view);
    vstd::arithmetic::power2::lemma2_to64();
    powers_of_two_have_one_bit(dims.m_bits());
    assert(crate::bloom::power::is_power_of_two(8)) by {
        assert(8 == pow2(3));
    }
    crate::bloom::power::lemma_smaller_power_divides(8, dims.m_bits() as int);
}

/// Parameters are valid exactly where there is a heartbeat interval, the rate is above 0 and below
/// 1, and the dimensions are valid. What is wrong is named in that order.
pub proof fn parameters_are_refused_in_order(
    m_bits: u64,
    probe_count: u8,
    heartbeat: u64,
    rate: Rate,
)
    ensures
        heartbeat == 0 ==> parameter_refusal(m_bits, probe_count, heartbeat, rate) == Some(
            BloomError::InvalidHeartbeatInterval,
        ),
        heartbeat > 0 && !(0 < rate.bits < 0x3ff0_0000_0000_0000) ==> parameter_refusal(
            m_bits,
            probe_count,
            heartbeat,
            rate,
        ) == Some(BloomError::InvalidFalsePositiveRate { rate }),
        heartbeat > 0 && 0 < rate.bits < 0x3ff0_0000_0000_0000 ==> parameter_refusal(
            m_bits,
            probe_count,
            heartbeat,
            rate,
        ) == dimension_refusal(m_bits, probe_count),
{
}

/// The parameters that are held as valid pass the checks.
pub proof fn valid_parameters_pass_the_checks(parameters: BloomParameters)
    ensures
        parameters.wf() <==> {
            &&& parameters.max_heartbeat_interval() > 0
            &&& 0 < parameters.max_accepted_false_positive_rate().bits < 0x3ff0_0000_0000_0000
            &&& parameters.m_bits() >= 8
            &&& parameters.m_bits() & ((parameters.m_bits() - 1) as u64) == 0
            &&& 1 <= parameters.probe_count() <= 64
            &&& parameters.m_bits() / 8 <= usize::MAX
        },
{
    parameters_are_refused_in_order(
        parameters.m_bits(),
        parameters.probe_count(),
        parameters.max_heartbeat_interval(),
        parameters.max_accepted_false_positive_rate(),
    );
    dimensions_are_refused_in_order(parameters.m_bits(), parameters.probe_count());
}

/// The prefix of a version is the directory `bloom` and in it the directory `v` with the number of
/// the version.
pub proof fn prefixes_name_the_version(version: u8)
    ensures
        split(object_prefix_text(version)) == seq![
            ascii("bloom"@),
            ascii("v"@) + decimal(version as nat),
        ],
{
    reveal_strlit("bloom");
    reveal_strlit("v");
    decimal_round_trips(version as nat);
    let directory = ascii("v"@) + decimal(version as nat);
    assert forall|i: int| 0 <= i < directory.len() implies directory[i] != 0x2f by {
        if i > 0 {
            assert(directory[i] == decimal(version as nat)[i - 1]);
        }
    }
    split_of_part(ascii("bloom"@));
    split_of_join(ascii("bloom"@), directory);
    assert(split(object_prefix_text(version)) =~= seq![ascii("bloom"@), directory]);
}

/// A header is 62 bytes: 4 of magic, the version, 8 for the bit count, the probe count, 8 for the
/// build time, 8 for the source cursor and 32 of checksum. Byte `j` of a number has the weight
/// `256^j`.
pub proof fn headers_are_laid_out_without_padding(header: HeaderView, j: int)
    requires
        header.wf(),
    ensures
        header_bytes(header).len() == 62,
        0 <= j < 4 ==> header_bytes(header)[j] == header.magic[j],
        header_bytes(header)[4] == header.version,
        0 <= j < 8 ==> header_bytes(header)[5 + j] as int == header.m_bits as int / pow(
            256,
            j as nat,
        ) % 256,
        header_bytes(header)[13] == header.k,
        0 <= j < 8 ==> header_bytes(header)[14 + j] as int == header.built_at as int / pow(
            256,
            j as nat,
        ) % 256,
        0 <= j < 8 ==> header_bytes(header)[22 + j] as int == header.source_max_row_id as int / pow(
            256,
            j as nat,
        ) % 256,
        0 <= j < 32 ==> header_bytes(header)[30 + j] == header.body_checksum[j],
{
    header_round_trips(header, Seq::empty());
    if 0 <= j < 8 {
        little_endian_bytes_are_digits(header.m_bits, j);
        little_endian_bytes_are_digits(header.built_at, j);
        little_endian_bytes_are_digits(header.source_max_row_id, j);
    }
    little_endian_bytes_are_digits(header.m_bits, 0);
    little_endian_bytes_are_digits(header.built_at, 0);
    little_endian_bytes_are_digits(header.source_max_row_id, 0);
}

/// A header is read from the places at which it is written.
pub proof fn headers_are_read_by_their_layout(e: Seq<u8>)
    requires
        e.len() >= 62,
    ensures
        read_header(e).magic == seq![e[0], e[1], e[2], e[3]],
        read_header(e).version == e[4],
        read_header(e).m_bits == e[5] + 0x100 * e[6] + 0x1_0000 * e[7] + 0x100_0000 * e[8]
            + 0x1_0000_0000 * e[9] + 0x100_0000_0000 * e[10] + 0x1_0000_0000_0000 * e[11]
            + 0x100_0000_0000_0000 * e[12],
        read_header(e).k == e[13],
        read_header(e).built_at == e[14] + 0x100 * e[15] + 0x1_0000 * e[16] + 0x100_0000 * e[17]
            + 0x1_0000_0000 * e[18] + 0x100_0000_0000 * e[19] + 0x1_0000_0000_0000 * e[20]
            + 0x100_0000_0000_0000 * e[21],
        read_header(e).source_max_row_id == e[22] + 0x100 * e[23] + 0x1_0000 * e[24] + 0x100_0000
            * e[25] + 0x1_0000_0000 * e[26] + 0x100_0000_0000 * e[27] + 0x1_0000_0000_0000
            * e[28] + 0x100_0000_0000_0000 * e[29],
        read_header(e).body_checksum == e.subrange(30, 62),
        snapshot_body(e) == e.subrange(62, e.len() as int),
{
    assert(read_header(e).magic =~= seq![e[0], e[1], e[2], e[3]]);
    little_endian_numbers_are_sums(e.subrange(5, 13));
    little_endian_numbers_are_sums(e.subrange(14, 22));
    little_endian_numbers_are_sums(e.subrange(22, 30));
    assert(snapshot_body(e) =~= e.subrange(62, e.len() as int));
}

/// A snapshot is the header `FBF1`, version 1, with the size, the probe count, the build time, the
/// source cursor and the checksum of the filter, and then its body.
pub proof fn snapshots_carry_the_filter(view: FilterView)
    ensures
        header_of(view) == (HeaderView {
            magic: seq![0x46u8, 0x42u8, 0x46u8, 0x31u8],
            version: 1,
            m_bits: view.parameters.m_bits(),
            k: view.parameters.probe_count(),
            built_at: view.built_at,
            source_max_row_id: view.source_max_row_id,
            body_checksum: sha256_digest(view.body)@,
        }),
        snapshot_bytes(view) == header_bytes(header_of(view)) + view.body,
{
    assert(header_of(view).magic =~= seq![0x46u8, 0x42u8, 0x46u8, 0x31u8]);
}

/// A header fits exactly where it starts with `FBF1`, has version 1 and repeats the size and probe
/// count of the parameters. What is wrong is named in that order.
pub proof fn headers_are_refused_in_order(
    header: HeaderView,
    parameters: BloomParameters,
    error: BloomError,
)
    requires
        header.magic.len() == 4,
        parameters.wf(),
    ensures
        ({
            let magic = seq![0x46u8, 0x42u8, 0x46u8, 0x31u8];
            &&& header_accepted(header, parameters) <==> {
                &&& header.magic == magic
                &&& header.version == 1
                &&& header.m_bits == parameters.m_bits()
                &&& header.k == parameters.probe_count()
            }
            &&& header_refusal(header, parameters, error) ==> {
                &&& header.magic != magic ==> (error matches BloomError::InvalidMagic { actual }
                    && actual@ == header.magic)
                &&& header.magic == magic && header.version != 1 ==> error
                    == (BloomError::IncompatibleDefinition { expected: 1, actual: header.version })
                &&& header.magic == magic && header.version == 1 ==> match dimension_refusal(
                    header.m_bits,
                    header.k,
                ) {
                    Some(invalid) => error == invalid,
                    None => error == (BloomError::SnapshotParameterMismatch {
                        expected_m_bits: parameters.m_bits(),
                        expected_k: parameters.probe_count(),
                        actual_m_bits: header.m_bits,
                        actual_k: header.k,
                    }),
                }
            }
        }),
{
    assert(crate::bloom::header::SNAPSHOT_MAGIC@ =~= seq![0x46u8, 0x42u8, 0x46u8, 0x31u8]);
}

/// Bytes are an intact snapshot exactly where they hold a header that fits, as many body bytes as
/// it says, and the checksum of the body. What is wrong is named in that order.
pub proof fn snapshots_are_refused_in_order(
    parameters: BloomParameters,
    e: Seq<u8>,
    error: BloomError,
)
    requires
        parameters.wf(),
    ensures
        ({
            let body = e.subrange(62, e.len() as int);
            let header = read_header(e);
            &&& snapshot_accepted(parameters, e) <==> {
                &&& e.len() >= 62
                &&& header_accepted(header, parameters)
                &&& 8 * body.len() == parameters.m_bits()
                &&& header.body_checksum == sha256_digest(body)@
            }
            &&& !snapshot_accepted(parameters, e) && snapshot_refusal(parameters, e, error) ==> {
                &&& e.len() < 62 ==> error == (BloomError::Truncated {
                    expected_at_least: 62,
                    actual: e.len() as usize,
                })
                &&& e.len() >= 62 && !header_accepted(header, parameters) ==> header_refusal(
                    header,
                    parameters,
                    error,
                )
                &&& e.len() >= 62 && header_accepted(header, parameters) ==> {
                    &&& 8 * body.len() != parameters.m_bits() ==> error
                        == (BloomError::InvalidBodyLength {
                        expected: (parameters.m_bits() / 8) as usize,
                        actual: body.len() as usize,
                    })
                    &&& 8 * body.len() == parameters.m_bits() ==> (
                    error matches BloomError::ChecksumMismatch { expected, actual } && expected@
                        == hex_text(header.body_checksum) && actual@ == hex_text(
                        sha256_digest(body)@,
                    ))
                }
            }
        }),
{
    if e.len() >= 62 {
        headers_are_read_by_their_layout(e);
    }
    let p = parameters;
    valid_parameters_pass_the_checks(p);
    powers_of_two_have_one_bit(p.m_bits());
    vstd::arithmetic::power2::lemma2_to64();
    assert(crate::bloom::power::is_power_of_two(8)) by {
        assert(8 == pow2(3));
    }
    crate::bloom::power::lemma_smaller_power_divides(8, p.m_bits() as int);
}

/// An encoded snapshot carries the bytes, the checksum of the body, the parameters, the build time
/// and the source cursor of the filter.
pub proof fn encoded_snapshots_carry_the_filter(view: FilterView)
    ensures
        encoded_view(view).bytes == header_bytes(header_of(view)) + view.body,
        encoded_view(view).body_checksum == sha256_digest(view.body)@,
        encoded_view(view).parameters == view.parameters,
        encoded_view(view).built_at == view.built_at,
        encoded_view(view).source_max_row_id == view.source_max_row_id,
{
}

/// Bytes that are no intact snapshot are never decoded, whatever the estimate is.
pub proof fn broken_snapshots_are_never_decoded<F: Fn(BloomSnapshotStats) -> Rate>(
    parameters: BloomParameters,
    e: Seq<u8>,
    estimate: F,
    r: Result<ConcurrentBloomFilter, BloomError>,
)
    requires
        !snapshot_accepted(parameters, e),
        snapshot_outcome(parameters, e, estimate, r),
    ensures
        r matches Err(error) && snapshot_refusal(parameters, e, error),
{
}

/// The filter of a decoded snapshot has the build time and source cursor of the header and the body
/// that follows it. A snapshot is never decoded where the rate that is estimated for it is above
/// the limit of the parameters, and an intact one always is where it is not.
pub proof fn decoded_snapshots_stay_below_their_limit<F: Fn(BloomSnapshotStats) -> Rate>(
    parameters: BloomParameters,
    e: Seq<u8>,
    estimate: F,
    r: Result<ConcurrentBloomFilter, BloomError>,
    rate: Rate,
)
    requires
        parameters.wf(),
        is_function(estimate),
        snapshot_outcome(parameters, e, estimate, r),
        snapshot_accepted(parameters, e),
        call_ensures(estimate, (snapshot_view(parameters, e).stats(),), rate),
    ensures
        parameters.max_accepted_false_positive_rate().bits < rate.bits <= 0x7ff0_0000_0000_0000
            ==> r == Err::<ConcurrentBloomFilter, BloomError>(
            BloomError::ExcessiveFalsePositiveRate {
                estimated_fpr: rate,
                limit: parameters.max_accepted_false_positive_rate(),
            },
        ),
        !(parameters.max_accepted_false_positive_rate().bits < rate.bits <= 0x7ff0_0000_0000_0000)
            ==> {
            &&& r matches Ok(filter)
            &&& filter@.parameters == parameters
            &&& filter@.built_at == read_header(e).built_at
            &&& filter@.source_max_row_id == read_header(e).source_max_row_id
            &&& filter@.body == e.subrange(62, e.len() as int)
        },
{
    headers_are_read_by_their_layout(e);
}

/// A manifest fits a snapshot exactly where its version is 1, its checksum is the hexadecimal text
/// of the snapshot's, and its parameters and source cursor are the snapshot's. The version counts
/// first.
pub proof fn manifests_are_refused_in_order(
    manifest: SnapshotManifest,
    parameters: BloomParameters,
    source_max_row_id: u64,
    checksum: Seq<u8>,
)
    ensures
        manifest.version != 1 ==> manifest.snapshot_refusal(
            parameters,
            source_max_row_id,
            checksum,
        ) == Some(
            BloomError::IncompatibleDefinition { expected: 1, actual: manifest.version },
        ),
        manifest.version == 1 ==> ({
            &&& manifest.body_checksum@ == hex_text(checksum)
            &&& manifest.parameters == parameters
            &&& manifest.source_max_row_id == source_max_row_id
        } <==> manifest.snapshot_refusal(parameters, source_max_row_id, checksum) is None),
        manifest.version == 1 && manifest.snapshot_refusal(
            parameters,
            source_max_row_id,
            checksum,
        ) is Some ==> manifest.snapshot_refusal(parameters, source_max_row_id, checksum) == Some(
            BloomError::ManifestSnapshotMismatch,
        ),
        definition_refusal(manifest.version) is None <==> manifest.version == 1,
        manifest.describes(parameters, source_max_row_id, checksum) <==> {
            &&& manifest.body_checksum@ == hex_text(checksum)
            &&& manifest.parameters == parameters
            &&& manifest.source_max_row_id == source_max_row_id
        },
{
}

} // verus!
