//! Nix's base-32 numerals, the text form of a store path hash.

use vstd::prelude::*;
use vstd::arithmetic::power::pow;

verus! {

/// Length of the hash in a store path.
pub const STORE_PATH_HASH_LEN: usize = 32;

/// Length in bytes of the digest that a store path hash stands for.
pub const DIGEST_LEN: usize = 20;

/// Whether the character code is one of `0123456789abcdfghijklmnpqrsvwxyz`: a digit or a
/// lower-case letter other than `e`, `o`, `t` and `u`.
pub open spec fn is_base32(c: int) -> bool {
    ||| 0x30 <= c <= 0x39
    ||| 0x61 <= c <= 0x7a && c != 0x65 && c != 0x6f && c != 0x74 && c != 0x75
}

/// The place of a base-32 character in that alphabet.
pub open spec fn base32_value(c: int) -> int {
    if c <= 0x39 {
        c - 0x30
    } else if c < 0x65 {
        c - 0x61 + 10
    } else if c < 0x6f {
        c - 0x66 + 14
    } else if c < 0x74 {
        c - 0x70 + 23
    } else {
        c - 0x76 + 27
    }
}

/// The number that a base-32 text stands for, most significant digit first.
pub open spec fn base32_number(text: Seq<char>) -> int
    decreases text.len(),
{
    if text.len() == 0 {
        0
    } else {
        base32_number(text.drop_last()) * 32 + base32_value(text.last() as int)
    }
}

/// A store path hash: 32 base-32 characters.
pub open spec fn is_hash_text(text: Seq<char>) -> bool {
    &&& text.len() == STORE_PATH_HASH_LEN
    &&& forall|i: int| 0 <= i < text.len() ==> is_base32(#[trigger] text[i] as int)
}

/// The digest of a store path hash: the 20 bytes, least significant first, of the number that
/// its text stands for.
pub open spec fn hash_digest(text: Seq<char>) -> Seq<u8> {
    Seq::new(
        DIGEST_LEN as nat,
        |i: int| (base32_number(text) / pow(256, i as nat) % 256) as u8,
    )
}

/// The base-32 characters are those of the alphabet, and the value of each is its place in it.
pub proof fn base32_characters_are_the_alphabet(c: char)
    ensures
        is_base32(c as int) <==> "0123456789abcdfghijklmnpqrsvwxyz"@.contains(c),
        is_base32(c as int) ==> 0 <= base32_value(c as int) < 32
            && "0123456789abcdfghijklmnpqrsvwxyz"@[base32_value(c as int)] == c,
{
    reveal_strlit("0123456789abcdfghijklmnpqrsvwxyz");
    let alphabet = "0123456789abcdfghijklmnpqrsvwxyz"@;
    assert(alphabet.len() == 32);
    if is_base32(c as int) {
        assert(alphabet[base32_value(c as int)] == c);
    }
    if alphabet.contains(c) {
        let i = choose|i: int| 0 <= i < alphabet.len() && alphabet[i] == c;
        assert(alphabet[i] == c);
    }
}

/// A store path hash is 32 characters of the alphabet.
pub proof fn hashes_are_32_characters_of_the_alphabet(text: Seq<char>)
    ensures
        is_hash_text(text) <==> {
            &&& text.len() == 32
            &&& forall|i: int|
                0 <= i < text.len() ==> "0123456789abcdfghijklmnpqrsvwxyz"@.contains(
                    #[trigger] text[i],
                )
        },
{
    assert forall|i: int| 0 <= i < text.len() implies (is_base32(#[trigger] text[i] as int)
        <==> "0123456789abcdfghijklmnpqrsvwxyz"@.contains(text[i])) by {
        base32_characters_are_the_alphabet(text[i]);
    }
}

/// Whether the byte is a base-32 character.
pub fn is_base32_byte(byte: u8) -> (r: bool)
    ensures
        r == is_base32(byte as int),
{
    (0x30 <= byte && byte <= 0x39) || (0x61 <= byte && byte <= 0x7a && byte != 0x65 && byte != 0x6f
        && byte != 0x74 && byte != 0x75)
}

} // verus!
