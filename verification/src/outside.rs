//! The calls into other crates and into parts of the standard library that have no
//! specification. Every contract in this module is taken on trust.

use crate::base32::{hash_digest, is_hash_text, STORE_PATH_HASH_LEN};
use crate::generation::uuid_text;
use crate::text::{ascii, hex_text};
use sha2::Digest;
use vstd::prelude::*;
use vstd::utf8::{decode_utf8, encode_utf8, valid_utf8};

verus! {

/// The error of `serde_json`, carried and never looked into.
#[verifier::external_type_specification]
#[verifier::external_body]
pub struct ExJsonError(serde_json::Error);

/// The error of `std::io`, carried and never looked into.
#[verifier::external_type_specification]
#[verifier::external_body]
pub struct ExIoError(std::io::Error);

/// The SHA-256 digest of a message, as `sha2::Sha256::digest` computes it.
pub uninterp spec fn sha256_digest(message: Seq<u8>) -> [u8; 32];

/// Calls `sha2::Sha256::digest`. Nothing is claimed of the digest but that it depends on the
/// message alone.
#[verifier::external_body]
pub(crate) fn sha256(message: &[u8]) -> (digest: [u8; 32])
    ensures
        digest == sha256_digest(message@),
{
    sha2::Sha256::digest(message).into()
}

/// Calls `hex::encode`, which writes two lower-case hexadecimal digits for each byte.
#[verifier::external_body]
pub(crate) fn hex_encode(bytes: &[u8]) -> (text: String)
    ensures
        text@ == hex_text(bytes@),
{
    hex::encode(bytes)
}

/// Calls `nix_base32::from_nix_base32` on a text of 32 bytes. It fails exactly where a character
/// is outside the base-32 alphabet. Otherwise it gives the 20 bytes, least significant first, of
/// the number that the text stands for. For some other lengths the function panics.
#[verifier::external_body]
pub(crate) fn from_nix_base32(text: &str) -> (decoded: Option<Vec<u8>>)
    requires
        encode_utf8(text@).len() == STORE_PATH_HASH_LEN,
    ensures
        decoded is Some <==> is_hash_text(text@),
        decoded matches Some(digest) ==> digest@ == hash_digest(text@),
{
    nix_base32::from_nix_base32(text)
}

/// Calls `uuid::Uuid::to_string`, which writes the hyphenated lower-case form.
#[verifier::external_body]
pub(crate) fn uuid_to_string(id: u128) -> (text: String)
    ensures
        text@ == uuid_text(id),
{
    uuid::Uuid::from_u128(id).to_string()
}

/// The UUID that `uuid::Uuid::try_parse_ascii` reads from a text, in any of the forms that it
/// knows.
pub uninterp spec fn parsed_uuid(text: Seq<u8>) -> Option<u128>;

/// Calls `uuid::Uuid::try_parse_ascii`. The hyphenated lower-case form of a UUID is read as that
/// UUID.
#[verifier::external_body]
pub(crate) fn uuid_try_parse_ascii(text: &[u8]) -> (parsed: Option<u128>)
    ensures
        parsed == parsed_uuid(text@),
        forall|id: u128| text@ == #[trigger] ascii(uuid_text(id)) ==> parsed == Some(id),
{
    uuid::Uuid::try_parse_ascii(text).ok().map(|uuid| uuid.as_u128())
}

/// Calls `String::from_utf8`, which succeeds exactly on valid UTF-8 and keeps the bytes.
#[verifier::external_body]
pub(crate) fn string_from_utf8(bytes: Vec<u8>) -> (text: Option<String>)
    ensures
        text is Some <==> valid_utf8(bytes@),
        text matches Some(string) ==> string@ == decode_utf8(bytes@),
{
    String::from_utf8(bytes).ok()
}

} // verus!
