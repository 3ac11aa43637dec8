//! ASCII text as bytes: literals, decimal numerals and hexadecimal digits.

use vstd::arithmetic::power::pow;
use vstd::prelude::*;
use vstd::utf8::{decode_utf8, encode_utf8, is_ascii_chars, valid_utf8};

verus! {

/// The bytes of ASCII characters.
pub open spec fn ascii(chars: Seq<char>) -> Seq<u8> {
    chars.map_values(|c: char| c as u8)
}

/// The UTF-8 encoding of ASCII characters is one byte for each character.
pub proof fn lemma_ascii_is_utf8(chars: Seq<char>)
    requires
        is_ascii_chars(chars),
    ensures
        encode_utf8(chars) == ascii(chars),
{
    vstd::utf8::is_ascii_chars_encode_utf8(chars);
    assert(encode_utf8(chars) =~= ascii(chars));
}

/// A text whose UTF-8 bytes are all ASCII has one character for each byte.
pub proof fn lemma_ascii_bytes_are_chars(chars: Seq<char>)
    requires
        forall|i: int| 0 <= i < encode_utf8(chars).len() ==> encode_utf8(chars)[i] < 128,
    ensures
        is_ascii_chars(chars),
        encode_utf8(chars) == ascii(chars),
{
    let bytes = encode_utf8(chars);
    let plain = Seq::new(bytes.len(), |i: int| bytes[i] as char);
    assert(is_ascii_chars(plain));
    lemma_ascii_is_utf8(plain);
    assert(ascii(plain) =~= bytes);
    vstd::utf8::encode_utf8_decode_utf8(chars);
    vstd::utf8::encode_utf8_decode_utf8(plain);
    assert(chars == plain);
}

/// The characters of ASCII bytes.
pub open spec fn chars_of(bytes: Seq<u8>) -> Seq<char> {
    bytes.map_values(|b: u8| b as char)
}

/// ASCII bytes are the UTF-8 encoding of one character for each byte.
pub proof fn lemma_ascii_bytes_decode(bytes: Seq<u8>)
    requires
        forall|i: int| 0 <= i < bytes.len() ==> bytes[i] < 128,
    ensures
        valid_utf8(bytes),
        decode_utf8(bytes) == chars_of(bytes),
        is_ascii_chars(chars_of(bytes)),
        encode_utf8(chars_of(bytes)) == bytes,
        ascii(chars_of(bytes)) == bytes,
{
    let chars = chars_of(bytes);
    assert(is_ascii_chars(chars));
    lemma_ascii_is_utf8(chars);
    assert(ascii(chars) =~= bytes);
    vstd::utf8::encode_utf8_valid_utf8(chars);
    vstd::utf8::encode_utf8_decode_utf8(chars);
}

/// Different ASCII texts have different bytes.
pub proof fn ascii_is_injective(a: Seq<char>, b: Seq<char>)
    requires
        is_ascii_chars(a),
        is_ascii_chars(b),
        ascii(a) == ascii(b),
    ensures
        a == b,
{
    lemma_ascii_is_utf8(a);
    lemma_ascii_is_utf8(b);
    vstd::utf8::encode_utf8_decode_utf8(a);
    vstd::utf8::encode_utf8_decode_utf8(b);
}

/// Appends an ASCII text.
pub fn push_ascii(out: &mut Vec<u8>, part: &str)
    requires
        is_ascii_chars(part@),
    ensures
        final(out)@ == old(out)@ + ascii(part@),
{
    proof {
        lemma_ascii_is_utf8(part@);
    }
    push_bytes(out, part.as_bytes());
}

/// Appends bytes.
pub fn push_bytes(out: &mut Vec<u8>, part: &[u8])
    ensures
        final(out)@ == old(out)@ + part@,
{
    out.extend_from_slice(part);
    assert(out@ =~= old(out)@ + part@);
}

/// Whether two byte strings are equal.
pub fn bytes_eq(a: &[u8], b: &[u8]) -> (equal: bool)
    ensures
        equal == (a@ == b@),
{
    if a.len() != b.len() {
        return false;
    }
    let mut i: usize = 0;
    while i < a.len()
        invariant
            a@.len() == b@.len(),
            i <= a@.len(),
            forall|j: int| 0 <= j < i ==> a@[j] == b@[j],
        decreases a@.len() - i,
    {
        if a[i] != b[i] {
            return false;
        }
        i = i + 1;
    }
    assert(a@ =~= b@);
    true
}

/// A copy of the bytes.
pub fn to_vec(bytes: &[u8]) -> (copy: Vec<u8>)
    ensures
        copy@ == bytes@,
{
    let mut copy: Vec<u8> = Vec::new();
    push_bytes(&mut copy, bytes);
    assert(copy@ =~= bytes@);
    copy
}

/// Whether the byte is a decimal digit.
pub open spec fn is_digit(byte: u8) -> bool {
    0x30 <= byte <= 0x39
}

/// The decimal numeral of `n`, without leading zeros.
pub open spec fn decimal(n: nat) -> Seq<u8>
    decreases n,
{
    if n < 10 {
        seq![(0x30 + n) as u8]
    } else {
        decimal(n / 10).push((0x30 + n % 10) as u8)
    }
}

/// The number that a string of decimal digits stands for.
pub open spec fn decimal_value(digits: Seq<u8>) -> nat
    decreases digits.len(),
{
    if digits.len() == 0 {
        0
    } else {
        decimal_value(digits.drop_last()) * 10 + (digits.last() - 0x30) as nat
    }
}

/// Reading the numeral of `n` gives `n` back.
pub proof fn decimal_round_trips(n: nat)
    ensures
        decimal_value(decimal(n)) == n,
        decimal(n).len() > 0,
        forall|i: int| 0 <= i < decimal(n).len() ==> is_digit(#[trigger] decimal(n)[i]),
    decreases n,
{
    if n < 10 {
        let text = decimal(n);
        assert(text.drop_last() =~= Seq::<u8>::empty());
        assert(decimal_value(text.drop_last()) == 0);
    } else {
        decimal_round_trips(n / 10);
        let text = decimal(n);
        assert(text.drop_last() =~= decimal(n / 10));
    }
}

/// Different numbers have different numerals.
pub proof fn decimal_is_injective(a: nat, b: nat)
    requires
        decimal(a) == decimal(b),
    ensures
        a == b,
{
    decimal_round_trips(a);
    decimal_round_trips(b);
}

/// The value of a prefix of a digit string is no larger than the value of the string.
proof fn lemma_decimal_value_grows(digits: Seq<u8>, n: int)
    requires
        0 <= n <= digits.len(),
        forall|i: int| 0 <= i < digits.len() ==> is_digit(#[trigger] digits[i]),
    ensures
        decimal_value(digits.take(n)) <= decimal_value(digits),
    decreases digits.len() - n,
{
    if n < digits.len() {
        let next = digits.take(n + 1);
        assert(next.drop_last() =~= digits.take(n));
        lemma_decimal_value_grows(digits, n + 1);
    } else {
        assert(digits.take(n) =~= digits);
    }
}

/// Digit `j` of a numeral, from its end, is the digit of weight `10^j`, and a numeral has no leading
/// zero.
pub proof fn numerals_are_digits_by_weight(n: nat, j: int)
    requires
        0 <= j < decimal(n).len(),
    ensures
        decimal(n)[decimal(n).len() - 1 - j] == 0x30 + n as int / pow(10, j as nat) % 10,
        n < pow(10, decimal(n).len()),
        decimal(n).len() > 1 ==> n >= pow(10, (decimal(n).len() - 1) as nat),
    decreases n,
{
    vstd::arithmetic::power::lemma_pow0(10);
    vstd::arithmetic::power::lemma_pow1(10);
    if n >= 10 {
        let len = decimal(n / 10).len();
        decimal_round_trips(n / 10);
        assert(decimal(n).len() == len + 1);
        vstd::arithmetic::power::lemma_pow_adds(10, 1, len);
        if j > 0 {
            numerals_are_digits_by_weight(n / 10, j - 1);
            vstd::arithmetic::power::lemma_pow_positive(10, (j - 1) as nat);
            vstd::arithmetic::power::lemma_pow_adds(10, 1, (j - 1) as nat);
            vstd::arithmetic::div_mod::lemma_div_denominator(
                n as int,
                10,
                pow(10, (j - 1) as nat),
            );
        } else {
            numerals_are_digits_by_weight(n / 10, 0);
        }
        vstd::arithmetic::power::lemma_pow_adds(10, 1, (len - 1) as nat);
    }
}

/// Appends the decimal numeral of `n`.
pub fn push_decimal(out: &mut Vec<u8>, n: u64)
    ensures
        final(out)@ == old(out)@ + decimal(n as nat),
    decreases n,
{
    if n >= 10 {
        push_decimal(out, n / 10);
    }
    out.push(0x30 + (n % 10) as u8);
    assert(out@ =~= old(out)@ + decimal(n as nat));
}

/// Reads a string of decimal digits, or `None` where it is empty, holds another byte or stands
/// for a number above `u64::MAX`.
pub fn parse_decimal(digits: &[u8]) -> (value: Option<u64>)
    ensures
        value is Some <==> (digits@.len() > 0 && (forall|i: int|
            0 <= i < digits@.len() ==> is_digit(#[trigger] digits@[i])) && decimal_value(digits@)
            <= u64::MAX),
        value matches Some(v) ==> v == decimal_value(digits@),
{
    if digits.len() == 0 {
        return None;
    }
    let mut value: u64 = 0;
    let mut i: usize = 0;
    while i < digits.len()
        invariant
            i <= digits@.len(),
            value == decimal_value(digits@.take(i as int)),
            forall|j: int| 0 <= j < i ==> is_digit(#[trigger] digits@[j]),
        decreases digits@.len() - i,
    {
        let byte: u8 = digits[i];
        if byte < 0x30 || byte > 0x39 {
            assert(!is_digit(digits@[i as int]));
            return None;
        }
        let digit: u64 = (byte - 0x30) as u64;
        proof {
            assert(digits@.take(i + 1).drop_last() =~= digits@.take(i as int));
            assert(decimal_value(digits@.take(i + 1)) == value * 10 + digit);
            if (forall|j: int| 0 <= j < digits@.len() ==> is_digit(#[trigger] digits@[j])) {
                lemma_decimal_value_grows(digits@, i + 1);
            }
        }
        if value > u64::MAX / 10 || value * 10 > u64::MAX - digit {
            return None;
        }
        value = value * 10 + digit;
        i = i + 1;
    }
    assert(digits@.take(i as int) =~= digits@);
    Some(value)
}

/// The lower-case hexadecimal digit of a number below 16.
pub open spec fn hex_digit(n: int) -> char {
    if n < 10 {
        (0x30 + n) as char
    } else {
        (0x61 + n - 10) as char
    }
}

/// Two lower-case hexadecimal digits for each byte, high half first.
pub open spec fn hex_text(bytes: Seq<u8>) -> Seq<char> {
    Seq::new(
        2 * bytes.len(),
        |i: int|
            hex_digit(
                if i % 2 == 0 {
                    bytes[i / 2] as int / 16
                } else {
                    bytes[i / 2] as int % 16
                },
            ),
    )
}

/// Each byte is written as its two digits to base 16, the higher first.
pub proof fn hexadecimal_texts_are_digits(bytes: Seq<u8>, i: int)
    requires
        0 <= i < bytes.len(),
    ensures
        hex_text(bytes).len() == 2 * bytes.len(),
        hex_text(bytes)[2 * i] == "0123456789abcdef"@[bytes[i] as int / 16],
        hex_text(bytes)[2 * i + 1] == "0123456789abcdef"@[bytes[i] as int % 16],
{
    reveal_strlit("0123456789abcdef");
    assert((2 * i) / 2 == i && (2 * i) % 2 == 0);
    assert((2 * i + 1) / 2 == i && (2 * i + 1) % 2 == 1);
}

/// Different byte strings have different hexadecimal texts.
pub proof fn hex_text_is_injective(a: Seq<u8>, b: Seq<u8>)
    requires
        hex_text(a) == hex_text(b),
    ensures
        a == b,
{
    assert(hex_text(a).len() == 2 * a.len());
    assert(hex_text(b).len() == 2 * b.len());
    assert forall|i: int| 0 <= i < a.len() implies a[i] == b[i] by {
        let high = 2 * i;
        let low = 2 * i + 1;
        assert(high % 2 == 0 && high / 2 == i && low % 2 == 1 && low / 2 == i);
        assert(hex_text(a)[high] == hex_digit(a[i] as int / 16));
        assert(hex_text(b)[high] == hex_digit(b[i] as int / 16));
        assert(hex_text(a)[low] == hex_digit(a[i] as int % 16));
        assert(hex_text(b)[low] == hex_digit(b[i] as int % 16));
        lemma_hex_digit_is_injective(a[i] as int / 16, b[i] as int / 16);
        lemma_hex_digit_is_injective(a[i] as int % 16, b[i] as int % 16);
    }
    assert(a =~= b);
}

pub proof fn lemma_hex_digit_is_injective(a: int, b: int)
    requires
        0 <= a < 16,
        0 <= b < 16,
        hex_digit(a) == hex_digit(b),
    ensures
        a == b,
{
}

} // verus!
