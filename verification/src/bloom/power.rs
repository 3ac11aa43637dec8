//! Powers of two as bit counts.

use vstd::arithmetic::power2::{lemma_pow2_pos, lemma_pow2_strictly_increases, lemma_pow2_unfold, pow2};
use vstd::bits::low_bits_mask;
use vstd::prelude::*;

verus! {

/// Whether the number is a power of two.
pub open spec fn is_power_of_two(n: int) -> bool {
    exists|e: nat| n == #[trigger] pow2(e)
}

/// Whether the number is a power of two.
pub fn check_power_of_two(n: u64) -> (r: bool)
    ensures
        r == is_power_of_two(n as int),
{
    if n == 0 {
        proof {
            assert forall|e: nat| 0 != #[trigger] pow2(e) by {
                lemma_pow2_pos(e);
            }
        }
        return false;
    }
    let mut rest: u64 = n;
    let ghost mut twos: nat = 0;
    assert(pow2(0) == 1) by {
        vstd::arithmetic::power2::lemma2_to64();
    }
    while rest % 2 == 0
        invariant
            rest > 0,
            n == rest * pow2(twos),
        decreases rest,
    {
        proof {
            lemma_pow2_unfold(twos + 1);
            let half = (rest / 2) as int;
            let p = pow2(twos) as int;
            assert((half * 2) * p == half * (2 * p)) by (nonlinear_arith);
            twos = twos + 1;
        }
        rest = rest / 2;
    }
    proof {
        if rest == 1 {
            assert(n == pow2(twos));
        } else if is_power_of_two(n as int) {
            let e = choose|e: nat| n == #[trigger] pow2(e);
            lemma_pow2_pos(twos);
            let p = pow2(twos) as int;
            if e <= twos {
                if e < twos {
                    lemma_pow2_strictly_increases(e, twos);
                }
                assert(rest * p > p) by (nonlinear_arith)
                    requires
                        rest > 1,
                        p > 0,
                ;
                assert(false);
            } else {
                let d = (e - twos) as nat;
                vstd::arithmetic::power2::lemma_pow2_adds(twos, d);
                let q = pow2(d) as int;
                assert(rest == q) by (nonlinear_arith)
                    requires
                        rest * p == p * q,
                        p > 0,
                ;
                lemma_pow2_unfold(d);
                assert(false);
            }
        }
    }
    rest == 1
}

/// The exponent of a power of two that is a 64-bit number is below 64.
pub proof fn lemma_power_below_64(n: u64) -> (e: nat)
    requires
        is_power_of_two(n as int),
    ensures
        n == pow2(e),
        e < 64,
{
    let e = choose|e: nat| n as int == #[trigger] pow2(e);
    if e >= 64 {
        vstd::arithmetic::power2::lemma2_to64();
        if e > 64 {
            lemma_pow2_strictly_increases(64, e);
        }
    }
    e
}

/// Masking with a power of two less one is the remainder by that power.
pub proof fn lemma_mask_is_remainder(x: u64, n: u64)
    requires
        is_power_of_two(n as int),
    ensures
        n > 0,
        x & ((n - 1) as u64) == x % n,
{
    let e = lemma_power_below_64(n);
    lemma_pow2_pos(e);
    vstd::bits::lemma_u64_low_bits_mask_is_mod(x, e);
    assert(low_bits_mask(e) == n - 1);
}

/// Of two powers of two, the smaller divides the larger.
pub proof fn lemma_smaller_power_divides(small: int, large: int)
    requires
        is_power_of_two(small),
        is_power_of_two(large),
        small <= large,
    ensures
        small > 0,
        large % small == 0,
{
    let a = choose|e: nat| small == #[trigger] pow2(e);
    let b = choose|e: nat| large == #[trigger] pow2(e);
    lemma_pow2_pos(a);
    if b < a {
        lemma_pow2_strictly_increases(b, a);
    }
    let d = (b - a) as nat;
    vstd::arithmetic::power2::lemma_pow2_adds(a, d);
    vstd::arithmetic::div_mod::lemma_mod_multiples_basic(pow2(d) as int, small);
    assert(large == pow2(d) * small) by (nonlinear_arith)
        requires
            large == pow2(a) * pow2(d),
            small == pow2(a),
    ;
}

/// A remainder by a multiple of `small` has the same remainder by `small`.
pub proof fn lemma_remainder_of_remainder(x: int, small: int, large: int)
    requires
        is_power_of_two(small),
        is_power_of_two(large),
        small <= large,
    ensures
        (x % large) % small == x % small,
{
    lemma_smaller_power_divides(small, large);
    let c = large / small;
    vstd::arithmetic::div_mod::lemma_fundamental_div_mod(large, small);
    assert(c > 0) by (nonlinear_arith)
        requires
            large == small * c,
            large > 0,
            small > 0,
    ;
    vstd::arithmetic::div_mod::lemma_mod_mod(x, small, c);
}

} // verus!
