//! Store paths and their hashes.

use crate::base32::{
    base32_characters_are_the_alphabet, is_base32, is_base32_byte, is_hash_text,
};
use crate::error::{StoreError, StoreResult};
use crate::outside::string_from_utf8;
use crate::path::{
    components, components_of_path_below, join, path_components, split, split_of_join, starts_with,
};
use crate::text::{
    chars_of, lemma_ascii_bytes_are_chars, lemma_ascii_bytes_decode, lemma_ascii_is_utf8, to_vec,
};
use vstd::prelude::*;
use vstd::utf8::{encode_utf8, is_ascii_chars, valid_utf8};

pub use crate::base32::STORE_PATH_HASH_LEN;

verus! {

/// Regular expression that matches a store path hash, without anchors.
pub const STORE_PATH_HASH_REGEX_FRAGMENT: &'static str = "[0123456789abcdfghijklmnpqrsvwxyz]{32}";

/// Whether the byte may stand in the human-readable name of a store path: `A-Z`, `a-z`, `0-9`
/// and `+-._?=`.
pub open spec fn is_name_byte(byte: u8) -> bool {
    ||| 0x41 <= byte <= 0x5a
    ||| 0x61 <= byte <= 0x7a
    ||| 0x30 <= byte <= 0x39
    ||| byte == 0x2b || byte == 0x2d || byte == 0x2e || byte == 0x5f || byte == 0x3f || byte == 0x3d
}

/// A base name: a store path hash, `-`, and a name of at least one character.
pub open spec fn is_base_name(name: Seq<u8>) -> bool {
    &&& name.len() > STORE_PATH_HASH_LEN + 1
    &&& forall|i: int| 0 <= i < STORE_PATH_HASH_LEN ==> is_base32(#[trigger] name[i] as int)
    &&& name[STORE_PATH_HASH_LEN as int] == 0x2d
    &&& forall|i: int| STORE_PATH_HASH_LEN < i < name.len() ==> is_name_byte(#[trigger] name[i])
}

fn check_name_byte(byte: u8) -> (r: bool)
    ensures
        r == is_name_byte(byte),
{
    (0x41 <= byte && byte <= 0x5a) || (0x61 <= byte && byte <= 0x7a) || (0x30 <= byte && byte
        <= 0x39) || byte == 0x2b || byte == 0x2d || byte == 0x2e || byte == 0x5f || byte == 0x3f
        || byte == 0x3d
}

fn check_base_name(name: &[u8]) -> (r: bool)
    ensures
        r == is_base_name(name@),
{
    if name.len() <= STORE_PATH_HASH_LEN + 1 {
        return false;
    }
    let mut i: usize = 0;
    while i < name.len()
        invariant
            i <= name@.len(),
            name@.len() > STORE_PATH_HASH_LEN + 1,
            forall|j: int| 0 <= j < i && j < STORE_PATH_HASH_LEN ==> is_base32(#[trigger] name@[j] as int),
            i > STORE_PATH_HASH_LEN ==> name@[STORE_PATH_HASH_LEN as int] == 0x2d,
            forall|j: int| STORE_PATH_HASH_LEN < j < i ==> is_name_byte(#[trigger] name@[j]),
        decreases name@.len() - i,
    {
        let byte: u8 = name[i];
        let fits = if i < STORE_PATH_HASH_LEN {
            is_base32_byte(byte)
        } else if i == STORE_PATH_HASH_LEN {
            byte == 0x2d
        } else {
            check_name_byte(byte)
        };
        if !fits {
            return false;
        }
        i = i + 1;
    }
    true
}

/// A base name is ASCII, hence valid UTF-8.
proof fn lemma_base_name_is_ascii(name: Seq<u8>)
    requires
        is_base_name(name),
    ensures
        forall|i: int| 0 <= i < name.len() ==> name[i] < 128,
        valid_utf8(name),
{
    assert forall|i: int| 0 <= i < name.len() implies name[i] < 128 by {
        if i < STORE_PATH_HASH_LEN {
            assert(is_base32(name[i] as int));
        } else if i > STORE_PATH_HASH_LEN {
            assert(is_name_byte(name[i]));
        }
    }
    lemma_ascii_bytes_decode(name);
}

/// A path in a Nix store.
///
/// This must be a direct child of the store. The path may or may not exist. The base name is of
/// valid format.
#[derive(Clone, Debug, Hash, PartialEq, Eq)]
pub struct StorePath {
    base_name: Vec<u8>,
}

impl View for StorePath {
    type V = Seq<u8>;

    closed spec fn view(&self) -> Seq<u8> {
        self.base_name@
    }
}

impl StorePath {
    /// The base name is of valid format.
    pub open spec fn wf(&self) -> bool {
        is_base_name(self@)
    }

    /// Creates a store path with a base name.
    pub fn from_base_name(base_name: Vec<u8>) -> (r: StoreResult<Self>)
        ensures
            match r {
                Ok(path) => is_base_name(base_name@) && path@ == base_name@,
                Err(StoreError::InvalidStorePathName { base_name: name, reason }) => {
                    &&& !is_base_name(base_name@)
                    &&& name@ == base_name@
                    &&& reason@ == if valid_utf8(base_name@) {
                        "Name is of invalid format"@
                    } else {
                        "Name contains non-UTF-8 characters"@
                    }
                },
                Err(_) => false,
            },
    {
        if check_base_name(base_name.as_slice()) {
            return Ok(StorePath { base_name });
        }
        let reason = match string_from_utf8(to_vec(base_name.as_slice())) {
            Some(_) => "Name is of invalid format",
            None => "Name contains non-UTF-8 characters",
        };
        Err(StoreError::InvalidStorePathName { base_name, reason })
    }

    /// Creates a store path from the text of a base name.
    pub fn from_str(s: &str) -> (r: StoreResult<Self>)
        ensures
            match r {
                Ok(path) => is_base_name(encode_utf8(s@)) && path@ == encode_utf8(s@),
                Err(StoreError::InvalidStorePathName { base_name, reason }) => {
                    &&& !is_base_name(encode_utf8(s@))
                    &&& base_name@ == encode_utf8(s@)
                    &&& reason@ == "Name is of invalid format"@
                },
                Err(_) => false,
            },
    {
        proof {
            vstd::utf8::encode_utf8_valid_utf8(s@);
        }
        StorePath::from_base_name(to_vec(s.as_bytes()))
    }

    /// Creates a store path with a base name that is known to be valid.
    pub fn from_base_name_unchecked(base_name: Vec<u8>) -> (path: Self)
        requires
            is_base_name(base_name@),
        ensures
            path.wf(),
            path@ == base_name@,
    {
        StorePath { base_name }
    }

    /// Gets the hash portion of the store path.
    pub fn to_hash(&self) -> (hash: StorePathHash)
        requires
            self.wf(),
        ensures
            hash.wf(),
            hash@ == chars_of(self@.take(STORE_PATH_HASH_LEN as int)),
    {
        let bytes = to_vec(&self.base_name.as_slice()[0..STORE_PATH_HASH_LEN]);
        proof {
            lemma_base_name_is_ascii(self@);
            assert(bytes@ =~= self@.take(STORE_PATH_HASH_LEN as int));
            lemma_ascii_bytes_decode(bytes@);
        }
        match string_from_utf8(bytes) {
            Some(hash) => StorePathHash(hash),
            None => StorePathHash(String::new()),
        }
    }

    /// Returns the human-readable name.
    pub fn name(&self) -> (name: String)
        requires
            self.wf(),
        ensures
            name@ == chars_of(self@.skip(STORE_PATH_HASH_LEN + 1)),
    {
        let bytes = to_vec(&self.base_name.as_slice()[STORE_PATH_HASH_LEN + 1..self.base_name.len()]);
        proof {
            lemma_base_name_is_ascii(self@);
            assert(bytes@ =~= self@.skip(STORE_PATH_HASH_LEN + 1));
            lemma_ascii_bytes_decode(bytes@);
        }
        match string_from_utf8(bytes) {
            Some(name) => name,
            None => String::new(),
        }
    }

    /// The base name as text.
    pub fn to_string(&self) -> (text: String)
        requires
            self.wf(),
        ensures
            text@ == chars_of(self@),
    {
        proof {
            lemma_base_name_is_ascii(self@);
            lemma_ascii_bytes_decode(self@);
        }
        match string_from_utf8(to_vec(self.base_name.as_slice())) {
            Some(text) => text,
            None => String::new(),
        }
    }

    /// Returns the bytes of the base name.
    pub fn as_base_name_bytes(&self) -> (bytes: &[u8])
        ensures
            bytes@ == self@,
    {
        self.base_name.as_slice()
    }
}

/// A fixed-length store path hash.
///
/// For example, for `/nix/store/ia70ss13m22znbl8khrf2hq72qmh5drr-ruby-2.7.5`, this would be
/// `ia70ss13m22znbl8khrf2hq72qmh5drr`.
///
/// It contains exactly 32 base-32 characters.
#[derive(Debug, Clone, Hash, PartialEq, Eq, PartialOrd, Ord)]
pub struct StorePathHash(String);

impl View for StorePathHash {
    type V = Seq<char>;

    closed spec fn view(&self) -> Seq<char> {
        self.0@
    }
}

/// The UTF-8 encoding of a store path hash is as long as its text.
pub proof fn lemma_hash_text_is_ascii(text: Seq<char>)
    requires
        is_hash_text(text),
    ensures
        is_ascii_chars(text),
        encode_utf8(text).len() == STORE_PATH_HASH_LEN,
{
    assert forall|i: int| 0 <= i < text.len() implies (#[trigger] text[i]) as int <= 127 by {
        assert(is_base32(text[i] as int));
    }
    lemma_ascii_is_utf8(text);
}

impl StorePathHash {
    /// The text is 32 base-32 characters.
    pub open spec fn wf(&self) -> bool {
        is_hash_text(self@)
    }

    /// Creates a store path hash from a string.
    pub fn new(hash: &str) -> (r: StoreResult<Self>)
        ensures
            match r {
                Ok(valid) => is_hash_text(hash@) && valid@ == hash@,
                Err(StoreError::InvalidStorePathHash { hash: given, reason }) => {
                    &&& !is_hash_text(hash@)
                    &&& given@ == hash@
                    &&& reason@ == if encode_utf8(hash@).len() != STORE_PATH_HASH_LEN {
                        "Hash is of invalid length"@
                    } else {
                        "Hash is of invalid format"@
                    }
                },
                Err(_) => false,
            },
    {
        let bytes = hash.as_bytes();
        proof {
            if is_hash_text(hash@) {
                lemma_hash_text_is_ascii(hash@);
                lemma_ascii_is_utf8(hash@);
            }
        }
        if bytes.len() != STORE_PATH_HASH_LEN {
            return Err(
                StoreError::InvalidStorePathHash {
                    hash: hash.to_owned(),
                    reason: "Hash is of invalid length",
                },
            );
        }
        let mut i: usize = 0;
        while i < bytes.len()
            invariant
                bytes@ == encode_utf8(hash@),
                bytes@.len() == STORE_PATH_HASH_LEN,
                i <= bytes@.len(),
                forall|j: int| 0 <= j < i ==> is_base32(#[trigger] bytes@[j] as int),
                is_hash_text(hash@) ==> encode_utf8(hash@) == crate::text::ascii(hash@),
            decreases bytes@.len() - i,
        {
            if !is_base32_byte(bytes[i]) {
                proof {
                    if is_hash_text(hash@) {
                        assert(is_base32(hash@[i as int] as int));
                        assert(bytes@[i as int] == hash@[i as int] as u8);
                    }
                }
                return Err(
                    StoreError::InvalidStorePathHash {
                        hash: hash.to_owned(),
                        reason: "Hash is of invalid format",
                    },
                );
            }
            i = i + 1;
        }
        proof {
            assert forall|j: int| 0 <= j < encode_utf8(hash@).len() implies encode_utf8(hash@)[j]
                < 128 by {
                assert(is_base32(bytes@[j] as int));
            }
            lemma_ascii_bytes_are_chars(hash@);
            assert forall|j: int| 0 <= j < hash@.len() implies is_base32(
                #[trigger] hash@[j] as int,
            ) by {
                assert(bytes@[j] == hash@[j] as u8);
            }
        }
        Ok(StorePathHash(hash.to_owned()))
    }

    /// Creates a store path hash from a string that is known to be of valid length and format.
    pub fn new_unchecked(hash: String) -> (valid: Self)
        requires
            is_hash_text(hash@),
        ensures
            valid.wf(),
            valid@ == hash@,
    {
        StorePathHash(hash)
    }

    /// The text of the hash.
    pub fn as_str(&self) -> (text: &str)
        ensures
            text@ == self@,
    {
        self.0.as_str()
    }

    /// A copy of the text of the hash.
    pub fn to_string(&self) -> (text: String)
        ensures
            text@ == self@,
    {
        self.0.clone()
    }
}

/// A base name is its hash, `-` and its human-readable name, and the hash is valid.
pub proof fn base_names_are_hash_and_name(base_name: Seq<u8>)
    requires
        is_base_name(base_name),
    ensures
        is_hash_text(chars_of(base_name.take(STORE_PATH_HASH_LEN as int))),
        chars_of(base_name) == chars_of(base_name.take(STORE_PATH_HASH_LEN as int)).push('-')
            + chars_of(base_name.skip(STORE_PATH_HASH_LEN + 1)),
{
    let hash = chars_of(base_name.take(STORE_PATH_HASH_LEN as int));
    let name = chars_of(base_name.skip(STORE_PATH_HASH_LEN + 1));
    assert forall|i: int| 0 <= i < hash.len() implies is_base32(#[trigger] hash[i] as int) by {
        assert(is_base32(base_name[i] as int));
    }
    assert(chars_of(base_name) =~= hash.push('-') + name);
}

/// The characters of a name are the letters, the digits and `+-._?=`.
pub proof fn name_characters_are_listed(byte: u8)
    ensures
        is_name_byte(byte) <==> {
            ||| 'A' as int <= byte <= 'Z' as int
            ||| 'a' as int <= byte <= 'z' as int
            ||| '0' as int <= byte <= '9' as int
            ||| byte == '+' as int || byte == '-' as int || byte == '.' as int
            ||| byte == '_' as int || byte == '?' as int || byte == '=' as int
        },
{
}

/// Bytes are a base name exactly where they are longer than 33, the first 32 are characters of a
/// hash, the next is `-`, and the others are characters of a name.
pub proof fn base_names_are_made_of_listed_characters(name: Seq<u8>)
    ensures
        is_base_name(name) <==> {
            &&& name.len() >= 34
            &&& forall|i: int|
                0 <= i < 32 ==> "0123456789abcdfghijklmnpqrsvwxyz"@.contains(
                    (#[trigger] name[i]) as char,
                )
            &&& name[32] == '-' as int
            &&& forall|i: int|
                33 <= i < name.len() ==> {
                    ||| 'A' as int <= #[trigger] name[i] <= 'Z' as int
                    ||| 'a' as int <= name[i] <= 'z' as int
                    ||| '0' as int <= name[i] <= '9' as int
                    ||| name[i] == '+' as int || name[i] == '-' as int || name[i] == '.' as int
                    ||| name[i] == '_' as int || name[i] == '?' as int || name[i] == '=' as int
                }
        },
{
    assert forall|i: int| 0 <= i < name.len() implies (is_base32(#[trigger] name[i] as int)
        <==> "0123456789abcdfghijklmnpqrsvwxyz"@.contains(name[i] as char)) by {
        base32_characters_are_the_alphabet(name[i] as char);
    }
}

/// The text of a base name is read as that base name.
pub proof fn base_names_round_trip(base_name: Seq<u8>)
    requires
        is_base_name(base_name),
    ensures
        encode_utf8(chars_of(base_name)) == base_name,
{
    lemma_base_name_is_ascii(base_name);
    lemma_ascii_bytes_decode(base_name);
}

/// The base name of a direct child of a store directory is the name of the child, and so is the
/// base name of every path below the child.
pub proof fn paths_in_a_store_have_the_base_name_of_their_child(
    store_dir: Seq<u8>,
    base_name: Seq<u8>,
    below: Seq<u8>,
)
    requires
        store_dir.len() > 0,
        is_base_name(base_name),
    ensures
        base_name_refusal(store_dir, join(store_dir, base_name)) is None,
        components(join(store_dir, base_name))[components(store_dir).len() as int] == base_name,
        base_name_refusal(store_dir, join(join(store_dir, base_name), below)) is None,
        components(
            join(join(store_dir, base_name), below),
        )[components(store_dir).len() as int] == base_name,
{
    assert forall|i: int| 0 <= i < base_name.len() implies base_name[i] != 0x2f by {
        if i < STORE_PATH_HASH_LEN {
            assert(is_base32(base_name[i] as int));
        } else if i > STORE_PATH_HASH_LEN {
            assert(is_name_byte(base_name[i]));
        }
    }
    split_of_join(store_dir, base_name);
    let parts = split(store_dir);
    assert(parts.push(base_name).drop_last() =~= parts);
    let store = components(store_dir);
    let child = join(store_dir, base_name);
    assert(components(child) =~= store.push(base_name));
    assert(components(child).subrange(0, store.len() as int) =~= store);
    let path = join(child, below);
    components_of_path_below(child, below);
    let whole = components(path);
    let start = whole.subrange(0, components(child).len() as int);
    assert(start == components(child));
    assert(whole.subrange(0, store.len() as int) =~= start.subrange(0, store.len() as int));
    assert(whole[store.len() as int] == start[store.len() as int]);
}

/// Why a path has no base name relative to a store root, if it has none.
pub open spec fn base_name_refusal(store_dir: Seq<u8>, path: Seq<u8>) -> Option<Seq<char>> {
    let store = components(store_dir);
    let whole = components(path);
    if !store.is_prefix_of(whole) {
        Some("Path is not in store directory"@)
    } else if whole.len() == store.len() {
        Some("Path is store directory itself"@)
    } else if whole[store.len() as int].len() < STORE_PATH_HASH_LEN {
        Some("Path is too short"@)
    } else if !is_base_name(whole[store.len() as int]) {
        Some("Path has an invalid base name"@)
    } else {
        None
    }
}

/// A path has a base name exactly where its components are those of the store, then a base name,
/// then any others. Otherwise the reason is the first of: it does not start with the components of
/// the store, there are no others, the next is shorter than a hash, and it is no base name.
pub proof fn base_names_are_refused_in_order(store_dir: Seq<u8>, path: Seq<u8>)
    ensures
        ({
            let store = components(store_dir);
            let whole = components(path);
            let inside = whole.len() >= store.len() && forall|i: int|
                0 <= i < store.len() ==> #[trigger] store[i] == whole[i];
            let refusal = base_name_refusal(store_dir, path);
            &&& !inside ==> refusal == Some("Path is not in store directory"@)
            &&& inside && whole.len() == store.len() ==> refusal == Some(
                "Path is store directory itself"@,
            )
            &&& inside && whole.len() > store.len() ==> {
                let first = whole[store.len() as int];
                &&& first.len() < 32 ==> refusal == Some("Path is too short"@)
                &&& first.len() >= 32 && !is_base_name(first) ==> refusal == Some(
                    "Path has an invalid base name"@,
                )
                &&& is_base_name(first) ==> refusal is None
            }
        }),
{
    let store = components(store_dir);
    let whole = components(path);
    if whole.len() >= store.len() && forall|i: int|
        0 <= i < store.len() ==> #[trigger] store[i] == whole[i] {
        assert(store =~= whole.subrange(0, store.len() as int));
    }
    if store.is_prefix_of(whole) {
        assert forall|i: int| 0 <= i < store.len() implies #[trigger] store[i] == whole[i] by {
            assert(whole.subrange(0, store.len() as int)[i] == whole[i]);
        }
    }
}

/// Returns the base store name of a path relative to a store root: the first component below
/// the root, where that is a valid base name.
pub fn to_base_name(store_dir: &[u8], path: &[u8]) -> (r: StoreResult<Vec<u8>>)
    ensures
        match r {
            Ok(name) => {
                &&& base_name_refusal(store_dir@, path@) is None
                &&& is_base_name(name@)
                &&& name@ == components(path@)[components(store_dir@).len() as int]
            },
            Err(StoreError::InvalidStorePath { path: given, reason }) => {
                &&& base_name_refusal(store_dir@, path@) == Some(reason@)
                &&& given@ == path@
            },
            Err(_) => false,
        },
{
    let store = path_components(store_dir);
    let whole = path_components(path);
    let reason = if !starts_with(&whole, &store) {
        "Path is not in store directory"
    } else if whole.len() == store.len() {
        "Path is store directory itself"
    } else {
        let first = &whole[store.len()];
        assert(first@ == components(path@)[components(store_dir@).len() as int]);
        if first.len() < STORE_PATH_HASH_LEN {
            "Path is too short"
        } else if !check_base_name(first.as_slice()) {
            "Path has an invalid base name"
        } else {
            return Ok(to_vec(first.as_slice()));
        }
    };
    Err(StoreError::InvalidStorePath { path: to_vec(path), reason })
}

} // verus!
