//! Probe positions of a store path hash, by double hashing.

use crate::base32::hash_digest;
use crate::bloom::error::BloomError;
use crate::bloom::parameters::Dimensions;
use crate::bloom::power::{
    is_power_of_two, lemma_mask_is_remainder, lemma_remainder_of_remainder,
};
use crate::number::little_endian_numbers_are_sums;
use crate::nix_store::{lemma_hash_text_is_ascii, StorePathHash};
use crate::outside::from_nix_base32;
use vstd::arithmetic::power2::pow2;
use vstd::bytes::{spec_u64_from_le_bytes, u64_from_le_bytes};
use vstd::prelude::*;

verus! {

/// The first hash value of a store path hash: bytes 0 to 7 of its digest, read as a little-endian
/// number.
pub open spec fn first_hash(text: Seq<char>) -> int {
    spec_u64_from_le_bytes(hash_digest(text).subrange(0, 8)) as int
}

/// The stride of a store path hash: bytes 8 to 15 of its digest, read as a little-endian number
/// whose lowest bit is then set.
pub open spec fn stride(text: Seq<char>) -> int {
    let second = spec_u64_from_le_bytes(hash_digest(text).subrange(8, 16)) as int;
    if second % 2 == 0 {
        second + 1
    } else {
        second
    }
}

/// Probe `i` of a store path hash in a filter of `m_bits` bits.
pub open spec fn probe(text: Seq<char>, m_bits: int, i: int) -> int {
    (first_hash(text) + i * stride(text)) % m_bits
}

/// The first `k` probes.
pub open spec fn probes(text: Seq<char>, m_bits: u64, k: u8) -> Seq<u64> {
    Seq::new(k as nat, |i: int| probe(text, m_bits as int, i) as u64)
}

/// Decodes a store path hash to its digest.
pub fn decode_store_path_hash(store_path_hash: &StorePathHash) -> (r: Result<[u8; 20], BloomError>)
    requires
        store_path_hash.wf(),
    ensures
        r matches Ok(digest) && digest@ == hash_digest(store_path_hash@),
{
    proof {
        lemma_hash_text_is_ascii(store_path_hash@);
    }
    match from_nix_base32(store_path_hash.as_str()) {
        Some(decoded) => {
            let mut digest: [u8; 20] = [0u8; 20];
            let mut i: usize = 0;
            while i < 20
                invariant
                    i <= 20,
                    decoded@ == hash_digest(store_path_hash@),
                    forall|j: int| 0 <= j < i ==> digest@[j] == decoded@[j],
                decreases 20 - i,
            {
                digest[i] = decoded[i];
                i = i + 1;
            }
            assert(digest@ =~= decoded@);
            Ok(digest)
        },
        None => Err(BloomError::InvalidStorePathHash { hash: store_path_hash.to_string() }),
    }
}

/// Double hashing with wrapping arithmetic and a mask gives the probe.
proof fn lemma_masked_probe(h1: u64, h2: u64, i: u64, m_bits: u64)
    requires
        is_power_of_two(m_bits as int),
    ensures
        h1.wrapping_add(i.wrapping_mul(h2)) & ((m_bits - 1) as u64) == (h1 + i * h2) % (
        m_bits as int),
{
    let range = 0x1_0000_0000_0000_0000int;
    let product = i * h2;
    let wrapped = i.wrapping_mul(h2);
    assert(0 <= product) by (nonlinear_arith)
        requires
            product == i * h2,
    ;
    assert(wrapped == product % range);
    let sum = h1.wrapping_add(wrapped);
    let exact = h1 + product;
    assert(sum == exact % range) by {
        vstd::arithmetic::div_mod::lemma_fundamental_div_mod(product, range);
        let q = product / range;
        vstd::arithmetic::div_mod::lemma_mod_multiples_vanish(q, h1 + wrapped, range);
        assert(exact == range * q + (h1 + wrapped));
        if h1 + wrapped >= range {
            vstd::arithmetic::div_mod::lemma_mod_multiples_vanish(1, h1 + wrapped - range, range);
            vstd::arithmetic::div_mod::lemma_small_mod((h1 + wrapped - range) as nat, range as nat);
        } else {
            vstd::arithmetic::div_mod::lemma_small_mod((h1 + wrapped) as nat, range as nat);
        }
    }
    lemma_mask_is_remainder(sum, m_bits);
    assert(is_power_of_two(range)) by {
        vstd::arithmetic::power2::lemma2_to64();
        assert(range == pow2(64));
    }
    lemma_remainder_of_remainder(exact, m_bits as int, range);
}

impl Dimensions {
    /// Calculates the probe positions for one store path hash using double hashing. Probe `i` is
    /// `(h1 + i * h2) mod m_bits`. This gives `k` positions from one digest.
    ///
    /// The digest of a store path is cryptographic, so its bytes have a uniform distribution. An
    /// odd stride has no common divisor with the bit count, a power of two, so the sequence
    /// visits each bit position before it repeats.
    pub fn probe_positions(self, store_path_hash: &StorePathHash) -> (r: Result<Vec<u64>, BloomError>)
        requires
            self.wf(),
            store_path_hash.wf(),
        ensures
            r matches Ok(positions) && positions@ == probes(store_path_hash@, self.m_bits(), self.k()),
    {
        let decoded = match decode_store_path_hash(store_path_hash) {
            Ok(decoded) => decoded,
            Err(error) => {
                return Err(error);
            },
        };
        let digest = decoded.as_slice();
        let h1: u64 = u64_from_le_bytes(&digest[0..8]);
        let second: u64 = u64_from_le_bytes(&digest[8..16]);
        let h2: u64 = second | 1;
        let m_bits: u64 = self.m_bits();
        let mask: u64 = m_bits - 1;
        let k: u64 = self.k() as u64;
        proof {
            assert(h2 == if second % 2 == 0 {
                second + 1
            } else {
                second as int
            }) by {
                assert(second % 2 == 0 ==> (second | 1u64) == second + 1) by (bit_vector);
                assert(second % 2 == 1 ==> (second | 1u64) == second) by (bit_vector);
            }
            assert(h1 == first_hash(store_path_hash@));
            assert(h2 == stride(store_path_hash@));
        }
        let mut positions: Vec<u64> = Vec::new();
        let mut i: u64 = 0;
        while i < k
            invariant
                i <= k,
                k == self.k(),
                m_bits == self.m_bits(),
                is_power_of_two(m_bits as int),
                mask == m_bits - 1,
                h1 == first_hash(store_path_hash@),
                h2 == stride(store_path_hash@),
                positions@.len() == i,
                forall|j: int|
                    0 <= j < i ==> positions@[j] == probe(store_path_hash@, m_bits as int, j),
            decreases k - i,
        {
            let position: u64 = h1.wrapping_add(i.wrapping_mul(h2)) & mask;
            proof {
                lemma_masked_probe(h1, h2, i, m_bits);
            }
            positions.push(position);
            i = i + 1;
        }
        assert(positions@ =~= probes(store_path_hash@, self.m_bits(), self.k()));
        Ok(positions)
    }
}

/// Probe `i` is `(h1 + i * h2) mod m_bits`. `h1` is the number whose little-endian bytes are bytes 0
/// to 7 of the digest, and `h2` that of bytes 8 to 15 with its lowest bit set: the same number
/// where byte 8 is odd, and the next one where it is even.
pub proof fn probes_follow_the_digest(text: Seq<char>, m_bits: u64, k: u8, i: int)
    requires
        m_bits > 0,
        0 <= i,
    ensures
        ({
            let d = hash_digest(text);
            let h1 = d[0] + 0x100 * d[1] + 0x1_0000 * d[2] + 0x100_0000 * d[3] + 0x1_0000_0000
                * d[4] + 0x100_0000_0000 * d[5] + 0x1_0000_0000_0000 * d[6]
                + 0x100_0000_0000_0000 * d[7];
            let second = d[8] + 0x100 * d[9] + 0x1_0000 * d[10] + 0x100_0000 * d[11]
                + 0x1_0000_0000 * d[12] + 0x100_0000_0000 * d[13] + 0x1_0000_0000_0000 * d[14]
                + 0x100_0000_0000_0000 * d[15];
            let h2 = if d[8] % 2 == 1 {
                second
            } else {
                second + 1
            };
            &&& h2 == (second as u64) | 1u64
            &&& probe(text, m_bits as int, i) == (h1 + i * h2) % (m_bits as int)
            &&& probes(text, m_bits, k).len() == k
            &&& i < k ==> probes(text, m_bits, k)[i] == (h1 + i * h2) % (m_bits as int)
        }),
{
    let d = hash_digest(text);
    let low = d.subrange(0, 8);
    let high = d.subrange(8, 16);
    little_endian_numbers_are_sums(low);
    little_endian_numbers_are_sums(high);
    let second = spec_u64_from_le_bytes(high);
    assert(high[0] == d[8]);
    assert(second % 2 == d[8] % 2);
    assert(second % 2 == 0 ==> (second | 1u64) == second + 1) by (bit_vector);
    assert(second % 2 == 1 ==> (second | 1u64) == second) by (bit_vector);
    probe_is_in_range(text, m_bits as int, i);
}

/// Every probe is a position of the filter.
pub proof fn probe_is_in_range(text: Seq<char>, m_bits: int, i: int)
    requires
        m_bits > 0,
    ensures
        0 <= probe(text, m_bits, i) < m_bits,
{
    vstd::arithmetic::div_mod::lemma_mod_bound(first_hash(text) + i * stride(text), m_bits);
}

/// A probe of a larger filter, reduced to the size of a smaller filter, is the probe of the
/// smaller filter.
pub proof fn probes_mask_down(text: Seq<char>, small: int, large: int, i: int)
    requires
        is_power_of_two(small),
        is_power_of_two(large),
        small <= large,
    ensures
        probe(text, large, i) % small == probe(text, small, i),
{
    lemma_remainder_of_remainder(first_hash(text) + i * stride(text), small, large);
}

/// The probes of a smaller probe count are a prefix of those of a larger one.
pub proof fn probes_are_a_prefix(text: Seq<char>, m_bits: u64, small: u8, large: u8)
    requires
        small <= large,
    ensures
        probes(text, m_bits, small) == probes(text, m_bits, large).take(small as int),
{
    assert(probes(text, m_bits, small) =~= probes(text, m_bits, large).take(small as int));
}

/// A power of two that divides the product of an odd number and `d` divides `d`.
proof fn lemma_odd_factor_cancels(odd: int, d: int, e: nat)
    requires
        odd % 2 == 1,
        (odd * d) % (pow2(e) as int) == 0,
    ensures
        d % (pow2(e) as int) == 0,
    decreases e,
{
    vstd::arithmetic::power2::lemma2_to64();
    if e == 0 {
        assert(d % 1 == 0);
    } else {
        let p = pow2((e - 1) as nat) as int;
        vstd::arithmetic::power2::lemma_pow2_pos((e - 1) as nat);
        vstd::arithmetic::power2::lemma_pow2_unfold(e);
        assert(pow2(e) == 2 * p);
        let product = odd * d;
        let q = product / (2 * p);
        vstd::arithmetic::div_mod::lemma_fundamental_div_mod(product, 2 * p);
        assert(product == 2 * (p * q)) by (nonlinear_arith)
            requires
                product == (2 * p) * q + 0,
        ;
        let h = odd / 2;
        assert(product == 2 * (h * d) + d) by (nonlinear_arith)
            requires
                product == odd * d,
                odd == 2 * h + 1,
        ;
        assert(d % 2 == 0);
        let half = d / 2;
        assert(odd * half == p * q) by (nonlinear_arith)
            requires
                odd * d == 2 * (p * q),
                d == 2 * half,
        ;
        vstd::arithmetic::div_mod::lemma_mod_multiples_basic(q, p);
        assert(q * p == p * q) by (nonlinear_arith);
        lemma_odd_factor_cancels(odd, half, (e - 1) as nat);
        vstd::arithmetic::div_mod::lemma_fundamental_div_mod(half, p);
        let r = half / p;
        assert(d == r * (2 * p)) by (nonlinear_arith)
            requires
                d == 2 * half,
                half == p * r + 0,
        ;
        vstd::arithmetic::div_mod::lemma_mod_multiples_basic(r, 2 * p);
    }
}

/// The probe sequence visits each bit position before it repeats: any two of the first `m_bits`
/// probes differ.
pub proof fn probes_do_not_repeat(text: Seq<char>, m_bits: int, i: int, j: int)
    requires
        is_power_of_two(m_bits),
        0 <= i < j < m_bits,
    ensures
        probe(text, m_bits, i) != probe(text, m_bits, j),
{
    if probe(text, m_bits, i) == probe(text, m_bits, j) {
        let e = choose|e: nat| m_bits == #[trigger] pow2(e);
        let h = first_hash(text);
        let s = stride(text);
        let a = h + i * s;
        let b = h + j * s;
        vstd::arithmetic::div_mod::lemma_fundamental_div_mod(a, m_bits);
        vstd::arithmetic::div_mod::lemma_fundamental_div_mod(b, m_bits);
        let q = b / m_bits - a / m_bits;
        assert(s * (j - i) == q * m_bits) by (nonlinear_arith)
            requires
                a == h + i * s,
                b == h + j * s,
                a == m_bits * (a / m_bits) + a % m_bits,
                b == m_bits * (b / m_bits) + b % m_bits,
                a % m_bits == b % m_bits,
                q == b / m_bits - a / m_bits,
        ;
        vstd::arithmetic::div_mod::lemma_mod_multiples_basic(q, m_bits);
        lemma_odd_factor_cancels(s, j - i, e);
        vstd::arithmetic::div_mod::lemma_small_mod((j - i) as nat, m_bits as nat);
    }
}

} // verus!
