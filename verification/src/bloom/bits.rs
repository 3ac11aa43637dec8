//! The bits of a filter body, eight to a byte, least significant bit first.

use vstd::arithmetic::power2::pow2;
use vstd::prelude::*;

verus! {

/// Whether bit `p` of a body is set: bit `p % 8` of byte `p / 8`.
pub open spec fn bit_set(body: Seq<u8>, p: int) -> bool {
    body[p / 8] & (1u8 << ((p % 8) as u8)) != 0
}

/// The number of set bits among the first `n` bits of a body.
pub open spec fn ones_below(body: Seq<u8>, n: nat) -> nat
    decreases n,
{
    if n == 0 {
        0
    } else {
        ones_below(body, (n - 1) as nat) + (if bit_set(body, n - 1) {
            1nat
        } else {
            0nat
        })
    }
}

/// The number of set bits of a body.
pub open spec fn ones(body: Seq<u8>) -> nat {
    ones_below(body, 8 * body.len())
}

/// No more bits are set than there are.
pub proof fn lemma_ones_below_bound(body: Seq<u8>, n: nat)
    ensures
        ones_below(body, n) <= n,
    decreases n,
{
    if n > 0 {
        lemma_ones_below_bound(body, (n - 1) as nat);
    }
}

/// Setting one bit of a byte leaves the other bits as they were.
proof fn lemma_set_bit(byte: u8, set: u8, other: u8)
    requires
        set < 8,
        other < 8,
    ensures
        ((byte | (1u8 << set)) & (1u8 << other) != 0) == (byte & (1u8 << other) != 0 || set == other),
{
    assert(((byte | (1u8 << set)) & (1u8 << other) != 0) == (byte & (1u8 << other) != 0 || set
        == other)) by (bit_vector)
        requires
            set < 8,
            other < 8,
    ;
}

/// Bytes with the same bits are equal.
proof fn lemma_bits_determine_byte(a: u8, b: u8)
    requires
        forall|j: u8| j < 8 ==> (a & (1u8 << j) != 0) == (#[trigger] (b & (1u8 << j)) != 0),
    ensures
        a == b,
{
    assert((a & (1u8 << 0u8) != 0) == ((b & (1u8 << 0u8)) != 0));
    assert((a & (1u8 << 1u8) != 0) == ((b & (1u8 << 1u8)) != 0));
    assert((a & (1u8 << 2u8) != 0) == ((b & (1u8 << 2u8)) != 0));
    assert((a & (1u8 << 3u8) != 0) == ((b & (1u8 << 3u8)) != 0));
    assert((a & (1u8 << 4u8) != 0) == ((b & (1u8 << 4u8)) != 0));
    assert((a & (1u8 << 5u8) != 0) == ((b & (1u8 << 5u8)) != 0));
    assert((a & (1u8 << 6u8) != 0) == ((b & (1u8 << 6u8)) != 0));
    assert((a & (1u8 << 7u8) != 0) == ((b & (1u8 << 7u8)) != 0));
    assert(a == b) by (bit_vector)
        requires
            (a & (1u8 << 0u8) != 0) == ((b & (1u8 << 0u8)) != 0),
            (a & (1u8 << 1u8) != 0) == ((b & (1u8 << 1u8)) != 0),
            (a & (1u8 << 2u8) != 0) == ((b & (1u8 << 2u8)) != 0),
            (a & (1u8 << 3u8) != 0) == ((b & (1u8 << 3u8)) != 0),
            (a & (1u8 << 4u8) != 0) == ((b & (1u8 << 4u8)) != 0),
            (a & (1u8 << 5u8) != 0) == ((b & (1u8 << 5u8)) != 0),
            (a & (1u8 << 6u8) != 0) == ((b & (1u8 << 6u8)) != 0),
            (a & (1u8 << 7u8) != 0) == ((b & (1u8 << 7u8)) != 0),
    ;
}

/// Bodies of the same length with the same bits are equal.
pub proof fn lemma_bits_determine_body(a: Seq<u8>, b: Seq<u8>)
    requires
        a.len() == b.len(),
        forall|p: int| 0 <= p < 8 * a.len() ==> bit_set(a, p) == #[trigger] bit_set(b, p),
    ensures
        a == b,
{
    assert forall|i: int| 0 <= i < a.len() implies a[i] == b[i] by {
        assert forall|j: u8| j < 8 implies (a[i] & (1u8 << j) != 0) == (#[trigger] (b[i] & (1u8
            << j)) != 0) by {
            let p = 8 * i + j;
            assert(p / 8 == i && p % 8 == j);
            assert(bit_set(a, p) == bit_set(b, p));
        }
        lemma_bits_determine_byte(a[i], b[i]);
    }
    assert(a =~= b);
}

/// Bit `p` is the digit of weight `2^(p % 8)` of byte `p / 8`.
pub proof fn bits_are_digits_of_bytes(body: Seq<u8>, p: int)
    requires
        0 <= p < 8 * body.len(),
    ensures
        bit_set(body, p) <==> body[p / 8] as int / pow2((p % 8) as nat) as int % 2 == 1,
{
    let byte = body[p / 8];
    let j = (p % 8) as u8;
    assert((byte & (1u8 << j) != 0) == ((byte >> j) % 2 == 1)) by (bit_vector)
        requires
            j < 8,
    ;
    vstd::bits::lemma_u8_shr_is_div(byte, j);
}

/// The set bits among the first `n`.
pub open spec fn set_bits_below(body: Seq<u8>, n: nat) -> Set<int> {
    Set::new(|p: int| 0 <= p < n && bit_set(body, p))
}

/// As many bits are counted as there are positions whose bit is set.
pub proof fn ones_counts_the_set_bits(body: Seq<u8>, n: nat)
    ensures
        set_bits_below(body, n).finite(),
        ones_below(body, n) == set_bits_below(body, n).len(),
        ones(body) == ones_below(body, 8 * body.len()),
    decreases n,
{
    if n == 0 {
        assert(set_bits_below(body, 0) =~= Set::<int>::empty());
    } else {
        let before = set_bits_below(body, (n - 1) as nat);
        ones_counts_the_set_bits(body, (n - 1) as nat);
        if bit_set(body, n - 1) {
            assert(set_bits_below(body, n) =~= before.insert(n - 1));
        } else {
            assert(set_bits_below(body, n) =~= before);
        }
    }
}

/// The address of a bit: its byte, and the mask of the bit in that byte.
pub fn bit_address(position: u64) -> (address: (u64, u8))
    ensures
        address.0 == position / 8,
        address.1 == 1u8 << ((position % 8) as u8),
{
    let bit: u8 = (position % 8) as u8;
    (position / 8, 1u8 << bit)
}

/// Whether a bit of a body is set.
pub fn test_bit(body: &[u8], position: u64) -> (r: bool)
    requires
        position < 8 * body@.len(),
    ensures
        r == bit_set(body@, position as int),
{
    let (byte, mask) = bit_address(position);
    body[byte as usize] & mask != 0
}

/// Sets a bit of a body.
pub fn set_bit(body: &mut Vec<u8>, position: u64)
    requires
        position < 8 * old(body)@.len(),
    ensures
        final(body)@.len() == old(body)@.len(),
        forall|p: int|
            0 <= p < 8 * old(body)@.len() ==> #[trigger] bit_set(final(body)@, p) == (bit_set(
                old(body)@,
                p,
            ) || p == position),
{
    let (byte, mask) = bit_address(position);
    assert(byte < body.len());
    let at: usize = byte as usize;
    let value: u8 = body[at] | mask;
    body[at] = value;
    proof {
        assert forall|p: int| 0 <= p < 8 * old(body)@.len() implies #[trigger] bit_set(body@, p)
            == (bit_set(old(body)@, p) || p == position) by {
            assert(body@ == old(body)@.update(at as int, value));
            if p / 8 == at {
                assert((p % 8) as u8 == (position % 8) as u8 <==> p == position);
                lemma_set_bit(old(body)@[at as int], (position % 8) as u8, (p % 8) as u8);
            } else {
                assert(p != position);
            }
        }
    }
}

/// Counts the set bits of a body.
pub fn count_ones(body: &[u8]) -> (count: u64)
    requires
        8 * body@.len() <= u64::MAX,
    ensures
        count == ones(body@),
{
    let mut count: u64 = 0;
    let mut i: usize = 0;
    while i < body.len()
        invariant
            i <= body@.len(),
            8 * body@.len() <= u64::MAX,
            count == ones_below(body@, (8 * i) as nat),
        decreases body@.len() - i,
    {
        let byte: u8 = body[i];
        let mut j: u8 = 0;
        while j < 8
            invariant
                i < body@.len(),
                byte == body@[i as int],
                8 * body@.len() <= u64::MAX,
                j <= 8,
                count == ones_below(body@, (8 * i + j) as nat),
            decreases 8 - j,
        {
            proof {
                let p = 8 * i + j;
                assert(p / 8 == i && p % 8 == j);
                lemma_ones_below_bound(body@, p as nat);
                assert(bit_set(body@, p) == (byte & (1u8 << j) != 0));
            }
            if byte & (1u8 << j) != 0 {
                count = count + 1;
            }
            j = j + 1;
        }
        i = i + 1;
    }
    count
}

} // verus!
