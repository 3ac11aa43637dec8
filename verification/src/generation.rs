//! Generations of Bloom sources, each identified by a UUID.

use crate::outside::uuid_to_string;
use crate::text::{ascii, hex_digit, lemma_hex_digit_is_injective};
use vstd::arithmetic::power::pow;
use vstd::prelude::*;
use vstd::utf8::is_ascii_chars;

verus! {

/// The identity of one source generation: the 128 bits of a UUID.
#[derive(Clone, Copy, Debug, PartialEq, Eq, Structural)]
pub struct Generation {
    pub id: u128,
}

/// Hexadecimal digit `place` of a 128-bit number, most significant first.
pub open spec fn uuid_nibble(id: u128, place: int) -> int {
    id as int / pow(16, (31 - place) as nat) % 16
}

/// The hexadecimal digit that stands at position `i` of a hyphenated UUID.
pub open spec fn uuid_place(i: int) -> int {
    if i < 8 {
        i
    } else if i < 13 {
        i - 1
    } else if i < 18 {
        i - 2
    } else if i < 23 {
        i - 3
    } else {
        i - 4
    }
}

/// The hyphenated lower-case text of a UUID: 32 hexadecimal digits in groups of 8, 4, 4, 4 and
/// 12.
pub open spec fn uuid_text(id: u128) -> Seq<char> {
    Seq::new(
        36,
        |i: int|
            if i == 8 || i == 13 || i == 18 || i == 23 {
                '-'
            } else {
                hex_digit(uuid_nibble(id, uuid_place(i)))
            },
    )
}

/// The text of a UUID is ASCII and holds no slash.
pub proof fn lemma_uuid_text_is_ascii(id: u128)
    ensures
        is_ascii_chars(uuid_text(id)),
        ascii(uuid_text(id)).len() == 36,
        forall|i: int| 0 <= i < 36 ==> #[trigger] ascii(uuid_text(id))[i] != 0x2f,
{
    assert forall|i: int| 0 <= i < 36 implies (#[trigger] uuid_text(id)[i]) as int <= 0x66
        && uuid_text(id)[i] as int != 0x2f by {
        let n = uuid_nibble(id, uuid_place(i));
        assert(0 <= n < 16);
    }
}

/// Hexadecimal digit `j` of a number, least significant first.
spec fn hex_place(n: int, j: int) -> int {
    n / pow(16, j as nat) % 16
}

/// Numbers below `16^n` that agree in every hexadecimal digit are equal.
proof fn lemma_digits_determine_number(a: int, b: int, n: nat)
    requires
        0 <= a < pow(16, n),
        0 <= b < pow(16, n),
        forall|j: int| 0 <= j < n ==> hex_place(a, j) == #[trigger] hex_place(b, j),
    ensures
        a == b,
    decreases n,
{
    vstd::arithmetic::power::lemma_pow0(16);
    if n > 0 {
        let m = (n - 1) as nat;
        vstd::arithmetic::power::lemma_pow1(16);
        vstd::arithmetic::power::lemma_pow_adds(16, 1, m);
        assert(hex_place(a, 0) == hex_place(b, 0));
        assert(a % 16 == b % 16);
        assert forall|j: int| 0 <= j < m implies hex_place(a / 16, j) == #[trigger] hex_place(
            b / 16,
            j,
        ) by {
            let p = pow(16, j as nat);
            vstd::arithmetic::power::lemma_pow_positive(16, j as nat);
            vstd::arithmetic::power::lemma_pow_adds(16, 1, j as nat);
            vstd::arithmetic::div_mod::lemma_div_denominator(a, 16, p);
            vstd::arithmetic::div_mod::lemma_div_denominator(b, 16, p);
            assert(hex_place(a, j + 1) == hex_place(b, j + 1));
        }
        lemma_digits_determine_number(a / 16, b / 16, m);
    }
}

/// Different UUIDs have different texts.
pub proof fn uuid_text_is_injective(a: u128, b: u128)
    requires
        uuid_text(a) == uuid_text(b),
    ensures
        a == b,
{
    assert forall|j: int| 0 <= j < 32 implies hex_place(a as int, j) == #[trigger] hex_place(
        b as int,
        j,
    ) by {
        let place = 31 - j;
        let i = if place < 8 {
            place
        } else if place < 12 {
            place + 1
        } else if place < 16 {
            place + 2
        } else if place < 20 {
            place + 3
        } else {
            place + 4
        };
        assert(uuid_place(i) == place);
        assert(uuid_text(a)[i] == hex_digit(uuid_nibble(a, place)));
        assert(uuid_text(b)[i] == hex_digit(uuid_nibble(b, place)));
        lemma_hex_digit_is_injective(uuid_nibble(a, place), uuid_nibble(b, place));
    }
    lemma_pow16_32();
    lemma_digits_determine_number(a as int, b as int, 32);
}

proof fn lemma_pow16_32()
    ensures
        pow(16, 32) == 0x1_0000_0000_0000_0000_0000_0000_0000_0000,
{
    vstd::arithmetic::power::lemma_pow1(16);
    vstd::arithmetic::power::lemma_pow_adds(16, 1, 1);
    assert(pow(16, 2) == 0x100);
    vstd::arithmetic::power::lemma_pow_adds(16, 2, 2);
    assert(pow(16, 4) == 0x1_0000);
    vstd::arithmetic::power::lemma_pow_adds(16, 4, 4);
    assert(pow(16, 8) == 0x1_0000_0000);
    vstd::arithmetic::power::lemma_pow_adds(16, 8, 8);
    assert(pow(16, 16) == 0x1_0000_0000_0000_0000);
    vstd::arithmetic::power::lemma_pow_adds(16, 16, 16);
}

impl Generation {
    /// The hyphenated lower-case form.
    pub fn to_string(&self) -> (text: String)
        ensures
            text@ == uuid_text(self.id),
    {
        uuid_to_string(self.id)
    }
}

} // verus!
