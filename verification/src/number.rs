//! Little-endian numbers, and powers of two by their bits.

use crate::bloom::power::{is_power_of_two, lemma_mask_is_remainder};
use vstd::arithmetic::power::pow;
use vstd::arithmetic::power2::pow2;
use vstd::bytes::{spec_u64_from_le_bytes, spec_u64_to_le_bytes};
use vstd::prelude::*;

verus! {

proof fn lemma_pow256()
    ensures
        pow(256, 0) == 1,
        pow(256, 1) == 0x100,
        pow(256, 2) == 0x1_0000,
        pow(256, 3) == 0x100_0000,
        pow(256, 4) == 0x1_0000_0000,
        pow(256, 5) == 0x100_0000_0000,
        pow(256, 6) == 0x1_0000_0000_0000,
        pow(256, 7) == 0x100_0000_0000_0000,
{
    reveal(pow);
    vstd::arithmetic::power::lemma_pow0(256);
    vstd::arithmetic::power::lemma_pow1(256);
    vstd::arithmetic::power::lemma_pow_adds(256, 1, 1);
    vstd::arithmetic::power::lemma_pow_adds(256, 2, 1);
    vstd::arithmetic::power::lemma_pow_adds(256, 2, 2);
    vstd::arithmetic::power::lemma_pow_adds(256, 4, 1);
    vstd::arithmetic::power::lemma_pow_adds(256, 4, 2);
    vstd::arithmetic::power::lemma_pow_adds(256, 4, 3);
}

proof fn lemma_bytes_by_division(x: u64)
    ensures
        x & 0xff == x % 0x100,
        (x >> 8) & 0xff == x / 0x100 % 0x100,
        (x >> 16) & 0xff == x / 0x1_0000 % 0x100,
        (x >> 24) & 0xff == x / 0x100_0000 % 0x100,
        (x >> 32) & 0xff == x / 0x1_0000_0000 % 0x100,
        (x >> 40) & 0xff == x / 0x100_0000_0000 % 0x100,
        (x >> 48) & 0xff == x / 0x1_0000_0000_0000 % 0x100,
        (x >> 56) & 0xff == x / 0x100_0000_0000_0000 % 0x100,
{
    assert(x & 0xff == x % 0x100) by (bit_vector);
    assert((x >> 8) & 0xff == x / 0x100 % 0x100) by (bit_vector);
    assert((x >> 16) & 0xff == x / 0x1_0000 % 0x100) by (bit_vector);
    assert((x >> 24) & 0xff == x / 0x100_0000 % 0x100) by (bit_vector);
    assert((x >> 32) & 0xff == x / 0x1_0000_0000 % 0x100) by (bit_vector);
    assert((x >> 40) & 0xff == x / 0x100_0000_0000 % 0x100) by (bit_vector);
    assert((x >> 48) & 0xff == x / 0x1_0000_0000_0000 % 0x100) by (bit_vector);
    assert((x >> 56) & 0xff == x / 0x100_0000_0000_0000 % 0x100) by (bit_vector);
}

/// Byte `j` of a little-endian number is its digit of weight `256^j`.
pub proof fn little_endian_bytes_are_digits(x: u64, j: int)
    requires
        0 <= j < 8,
    ensures
        spec_u64_to_le_bytes(x).len() == 8,
        spec_u64_to_le_bytes(x)[j] as int == x as int / pow(256, j as nat) % 256,
{
    vstd::bytes::lemma_auto_spec_u64_to_from_le_bytes();
    vstd::bytes::spec_u64_to_le_bytes_to_open(x);
    lemma_bytes_by_division(x);
    lemma_pow256();
    if j < 4 {
        assert(j == 0 || j == 1 || j == 2 || j == 3);
    } else {
        assert(j == 4 || j == 5 || j == 6 || j == 7);
    }
}

/// A number is the sum of its digits to base 256 by weight.
proof fn lemma_sum_of_digits(x: u64)
    ensures
        x == x % 0x100 + 0x100 * (x / 0x100 % 0x100) + 0x1_0000 * (x / 0x1_0000 % 0x100)
            + 0x100_0000 * (x / 0x100_0000 % 0x100) + 0x1_0000_0000 * (x / 0x1_0000_0000 % 0x100)
            + 0x100_0000_0000 * (x / 0x100_0000_0000 % 0x100) + 0x1_0000_0000_0000 * (x
            / 0x1_0000_0000_0000 % 0x100) + 0x100_0000_0000_0000 * (x / 0x100_0000_0000_0000
            % 0x100),
{
    let q1 = x / 0x100;
    let q2 = q1 / 0x100;
    let q3 = q2 / 0x100;
    let q4 = q3 / 0x100;
    let q5 = q4 / 0x100;
    let q6 = q5 / 0x100;
    let q7 = q6 / 0x100;
    assert(x / 0x1_0000 == q2 && x / 0x100_0000 == q3);
    assert(x / 0x1_0000_0000 == q4 && x / 0x100_0000_0000 == q5);
    assert(x / 0x1_0000_0000_0000 == q6 && x / 0x100_0000_0000_0000 == q7);
    assert(q7 < 0x100);
    assert(x == 0x100 * q1 + x % 0x100);
    assert(q1 == 0x100 * q2 + q1 % 0x100);
    assert(q2 == 0x100 * q3 + q2 % 0x100);
    assert(q3 == 0x100 * q4 + q3 % 0x100);
    assert(q4 == 0x100 * q5 + q4 % 0x100);
    assert(q5 == 0x100 * q6 + q5 % 0x100);
    assert(q6 == 0x100 * q7 + q6 % 0x100);
    assert(q7 % 0x100 == q7);
}

/// Eight bytes, least significant first, stand for the sum of their values by weight.
pub proof fn little_endian_numbers_are_sums(bytes: Seq<u8>)
    requires
        bytes.len() == 8,
    ensures
        spec_u64_from_le_bytes(bytes) == bytes[0] + 0x100 * bytes[1] + 0x1_0000 * bytes[2]
            + 0x100_0000 * bytes[3] + 0x1_0000_0000 * bytes[4] + 0x100_0000_0000 * bytes[5]
            + 0x1_0000_0000_0000 * bytes[6] + 0x100_0000_0000_0000 * bytes[7],
{
    let x = spec_u64_from_le_bytes(bytes);
    vstd::bytes::lemma_auto_spec_u64_to_from_le_bytes();
    assert(spec_u64_to_le_bytes(x) == bytes);
    vstd::bytes::spec_u64_to_le_bytes_to_open(x);
    lemma_bytes_by_division(x);
    assert(bytes[0] == x % 0x100 && bytes[1] == x / 0x100 % 0x100 && bytes[2] == x / 0x1_0000
        % 0x100 && bytes[3] == x / 0x100_0000 % 0x100);
    assert(bytes[4] == x / 0x1_0000_0000 % 0x100 && bytes[5] == x / 0x100_0000_0000 % 0x100
        && bytes[6] == x / 0x1_0000_0000_0000 % 0x100 && bytes[7] == x / 0x100_0000_0000_0000
        % 0x100);
    lemma_sum_of_digits(x);
}

/// A number other than 0 is a power of two if and only if it has no bit in common with the number
/// before it.
pub proof fn powers_of_two_have_one_bit(n: u64)
    requires
        n > 0,
    ensures
        is_power_of_two(n as int) <==> n & ((n - 1) as u64) == 0,
    decreases n,
{
    if is_power_of_two(n as int) {
        lemma_mask_is_remainder(n, n);
    }
    let m = (n - 1) as u64;
    if n & m == 0 {
        vstd::arithmetic::power2::lemma2_to64();
        if n % 2 == 1 {
            assert(n & m == m) by (bit_vector)
                requires
                    n % 2 == 1,
                    m == n - 1,
            ;
            assert(n as int == pow2(0));
        } else {
            let h = n / 2;
            let g = (h - 1) as u64;
            assert(h & g == 0) by (bit_vector)
                requires
                    n % 2 == 0,
                    n > 0,
                    n & m == 0,
                    m == n - 1,
                    h == n / 2,
                    g == h - 1,
            ;
            powers_of_two_have_one_bit(h);
            let e = choose|e: nat| h as int == #[trigger] pow2(e);
            vstd::arithmetic::power2::lemma_pow2_unfold(e + 1);
            assert(n as int == pow2(e + 1));
        }
    }
}

} // verus!
