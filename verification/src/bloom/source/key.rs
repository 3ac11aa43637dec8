//! Keys of source shards.

use crate::bloom::error::BloomError;
use crate::generation::{lemma_uuid_text_is_ascii, uuid_text, uuid_text_is_injective, Generation};
use crate::outside::{string_from_utf8, uuid_try_parse_ascii};
use crate::path::{join, push_part, split, split_of_join, split_of_part, split_path, views};
use crate::text::{
    ascii, ascii_is_injective, bytes_eq, chars_of, decimal, decimal_value, is_digit, decimal_is_injective, decimal_round_trips,
    lemma_ascii_bytes_decode, parse_decimal, push_ascii, push_decimal, to_vec,
};
use vstd::prelude::*;
use vstd::utf8::is_ascii_chars;

verus! {

/// Whether a source shard contributes to the ordinary watermark or is an overlapping overlay.
#[derive(Copy, Clone, Debug, PartialEq, Eq, PartialOrd, Ord, Structural)]
pub enum ShardKind {
    Ordinary,
    Bootstrap,
}

/// The name of a kind.
pub open spec fn kind_text(kind: ShardKind) -> Seq<char> {
    match kind {
        ShardKind::Ordinary => "ordinary"@,
        ShardKind::Bootstrap => "bootstrap"@,
    }
}

/// The name of a kind is ASCII and holds no slash, and each kind has its own.
proof fn lemma_kind_text(kind: ShardKind)
    ensures
        is_ascii_chars(kind_text(kind)),
        forall|i: int|
            0 <= i < ascii(kind_text(kind)).len() ==> #[trigger] ascii(kind_text(kind))[i] < 128
                && ascii(kind_text(kind))[i] != 0x2f,
        chars_of(ascii(kind_text(kind))) == kind_text(kind),
        "ordinary"@ != "bootstrap"@,
{
    reveal_strlit("ordinary");
    reveal_strlit("bootstrap");
    assert("ordinary"@.len() == 8 && "bootstrap"@.len() == 9);
    assert(chars_of(ascii(kind_text(kind))) =~= kind_text(kind));
}

impl ShardKind {
    /// The name of the kind.
    pub fn as_str(self) -> (text: &'static str)
        ensures
            text@ == kind_text(self),
    {
        match self {
            ShardKind::Ordinary => "ordinary",
            ShardKind::Bootstrap => "bootstrap",
        }
    }

    /// The kind of that name.
    pub fn parse(value: &str) -> (r: Option<Self>)
        ensures
            forall|kind: ShardKind|
                r == Some(kind) <==> value@ == #[trigger] kind_text(kind),
    {
        proof {
            lemma_kind_text(ShardKind::Ordinary);
        }
        let value = value.to_owned();
        if value == "ordinary".to_owned() {
            Some(ShardKind::Ordinary)
        } else if value == "bootstrap".to_owned() {
            Some(ShardKind::Bootstrap)
        } else {
            None
        }
    }
}

/// The parsed key of one immutable source shard:
/// `bloom/source/v1/{generation}/{kind}/{first_id}/{last_id}/{anchor_ts}.json`.
///
/// Invariants, enforced at construction and at parse:
///
/// - `first_id` is at least 1,
/// - `last_id` is at least `first_id`,
/// - the string form round-trips exactly (no leading zeros, no aliases).
#[derive(Clone, Copy, Debug, PartialEq, Eq, Structural)]
pub struct ShardKey {
    generation: Generation,
    kind: ShardKind,
    first_id: u64,
    last_id: u64,
    anchor_ts: u64,
}

/// `bloom/source/v1`.
pub open spec fn source_prefix_text() -> Seq<u8> {
    join(join(ascii("bloom"@), ascii("source"@)), ascii("v1"@))
}

/// `bloom/source/v1/{generation}/ready`.
pub open spec fn ready_marker_text(generation: Generation) -> Seq<u8> {
    join(join(source_prefix_text(), ascii(uuid_text(generation.id))), ascii("ready"@))
}

/// The string form of a shard key.
pub open spec fn key_text(key: ShardKey) -> Seq<u8> {
    join(
        join(
            join(
                join(
                    join(source_prefix_text(), ascii(uuid_text(key.generation().id))),
                    ascii(kind_text(key.kind())),
                ),
                decimal(key.first_id() as nat),
            ),
            decimal(key.last_id() as nat),
        ),
        decimal(key.anchor_ts() as nat) + ascii(".json"@),
    )
}

/// The parts of the string form of a shard key.
pub open spec fn key_parts(key: ShardKey) -> Seq<Seq<u8>> {
    seq![
        ascii("bloom"@),
        ascii("source"@),
        ascii("v1"@),
        ascii(uuid_text(key.generation().id)),
        ascii(kind_text(key.kind())),
        decimal(key.first_id() as nat),
        decimal(key.last_id() as nat),
        decimal(key.anchor_ts() as nat) + ascii(".json"@),
    ]
}

proof fn lemma_split_prefix()
    ensures
        split(source_prefix_text()) == seq![ascii("bloom"@), ascii("source"@), ascii("v1"@)],
{
    reveal_strlit("bloom");
    reveal_strlit("source");
    reveal_strlit("v1");
    let bloom = ascii("bloom"@);
    let source = ascii("source"@);
    let v1 = ascii("v1"@);
    split_of_part(bloom);
    split_of_join(bloom, source);
    split_of_join(join(bloom, source), v1);
    assert(split(source_prefix_text()) =~= seq![bloom, source, v1]);
}

proof fn lemma_split_key(key: ShardKey)
    ensures
        split(key_text(key)) == key_parts(key),
{
    reveal_strlit(".json");
    lemma_split_prefix();
    lemma_uuid_text_is_ascii(key.generation().id);
    lemma_kind_text(key.kind());
    decimal_round_trips(key.first_id() as nat);
    decimal_round_trips(key.last_id() as nat);
    decimal_round_trips(key.anchor_ts() as nat);
    let generation = ascii(uuid_text(key.generation().id));
    let kind = ascii(kind_text(key.kind()));
    let first = decimal(key.first_id() as nat);
    let last = decimal(key.last_id() as nat);
    let anchor = decimal(key.anchor_ts() as nat);
    let file = anchor + ascii(".json"@);
    assert forall|i: int| 0 <= i < file.len() implies file[i] != 0x2f by {
        if i < anchor.len() {
            assert(file[i] == anchor[i]);
        } else {
            assert(file[i] == ascii(".json"@)[i - anchor.len()]);
        }
    }
    let p0 = source_prefix_text();
    let p1 = join(p0, generation);
    let p2 = join(p1, kind);
    let p3 = join(p2, first);
    let p4 = join(p3, last);
    split_of_join(p0, generation);
    split_of_join(p1, kind);
    split_of_join(p2, first);
    split_of_join(p3, last);
    split_of_join(p4, file);
    assert(split(key_text(key)) =~= key_parts(key));
}

/// Keys with equal parts are equal.
pub proof fn lemma_key_is_its_fields(a: ShardKey, b: ShardKey)
    requires
        a.generation() == b.generation(),
        a.kind() == b.kind(),
        a.first_id() == b.first_id(),
        a.last_id() == b.last_id(),
        a.anchor_ts() == b.anchor_ts(),
    ensures
        a == b,
{
}

/// Every shard key has its own string form.
pub proof fn shard_keys_have_their_own_text(a: ShardKey, b: ShardKey)
    requires
        key_text(a) == key_text(b),
    ensures
        a == b,
{
    lemma_split_key(a);
    lemma_split_key(b);
    let pa = key_parts(a);
    let pb = key_parts(b);
    assert(pa[3] == pb[3] && pa[4] == pb[4] && pa[5] == pb[5] && pa[6] == pb[6] && pa[7] == pb[7]);
    lemma_uuid_text_is_ascii(a.generation().id);
    lemma_uuid_text_is_ascii(b.generation().id);
    ascii_is_injective(uuid_text(a.generation().id), uuid_text(b.generation().id));
    uuid_text_is_injective(a.generation().id, b.generation().id);
    lemma_kind_text(a.kind());
    lemma_kind_text(b.kind());
    ascii_is_injective(kind_text(a.kind()), kind_text(b.kind()));
    decimal_is_injective(a.first_id() as nat, b.first_id() as nat);
    decimal_is_injective(a.last_id() as nat, b.last_id() as nat);
    let da = decimal(a.anchor_ts() as nat);
    let db = decimal(b.anchor_ts() as nat);
    assert(da.len() == db.len());
    assert(da =~= pa[7].take(da.len() as int));
    assert(db =~= pb[7].take(db.len() as int));
    decimal_is_injective(a.anchor_ts() as nat, b.anchor_ts() as nat);
}

/// The string form of a shard key names, in this order, `bloom`, `source`, `v1`, the generation, the
/// kind, the first ID, the last ID, and the anchor with the extension `json`. A ready marker names
/// the generation and `ready`.
pub proof fn shard_keys_are_named_by_their_parts(key: ShardKey)
    ensures
        split(key_text(key)) == seq![
            ascii("bloom"@),
            ascii("source"@),
            ascii("v1"@),
            ascii(uuid_text(key.generation().id)),
            ascii(
                if key.kind() == ShardKind::Ordinary {
                    "ordinary"@
                } else {
                    "bootstrap"@
                },
            ),
            decimal(key.first_id() as nat),
            decimal(key.last_id() as nat),
            decimal(key.anchor_ts() as nat) + ascii(".json"@),
        ],
        split(source_prefix_text()) == seq![ascii("bloom"@), ascii("source"@), ascii("v1"@)],
        split(ready_marker_text(key.generation())) == seq![
            ascii("bloom"@),
            ascii("source"@),
            ascii("v1"@),
            ascii(uuid_text(key.generation().id)),
            ascii("ready"@),
        ],
        key.wf() <==> 1 <= key.first_id() && key.first_id() <= key.last_id(),
{
    reveal_strlit("ready");
    lemma_split_prefix();
    lemma_split_key(key);
    lemma_uuid_text_is_ascii(key.generation().id);
    let generation = ascii(uuid_text(key.generation().id));
    let p1 = join(source_prefix_text(), generation);
    split_of_join(source_prefix_text(), generation);
    split_of_join(p1, ascii("ready"@));
    assert(split(ready_marker_text(key.generation())) =~= seq![
        ascii("bloom"@),
        ascii("source"@),
        ascii("v1"@),
        generation,
        ascii("ready"@),
    ]);
    assert(split(key_text(key)) =~= key_parts(key));
}

/// A ready marker is not the key of a shard.
pub proof fn ready_markers_are_not_shard_keys(generation: Generation, key: ShardKey)
    ensures
        ready_marker_text(generation) != key_text(key),
{
    reveal_strlit("ready");
    lemma_split_prefix();
    lemma_split_key(key);
    lemma_uuid_text_is_ascii(generation.id);
    let p1 = join(source_prefix_text(), ascii(uuid_text(generation.id)));
    split_of_join(source_prefix_text(), ascii(uuid_text(generation.id)));
    split_of_join(p1, ascii("ready"@));
    assert(split(ready_marker_text(generation)).len() == 5);
    assert(split(key_text(key)).len() == 8);
}

/// The kind whose name these bytes are.
fn parse_kind(name: &[u8]) -> (r: Option<ShardKind>)
    ensures
        forall|kind: ShardKind| name@ == #[trigger] ascii(kind_text(kind)) ==> r == Some(kind),
{
    proof {
        assert forall|kind: ShardKind| name@ == #[trigger] ascii(kind_text(kind)) implies {
            &&& vstd::utf8::valid_utf8(name@)
            &&& vstd::utf8::decode_utf8(name@) == kind_text(kind)
        } by {
            lemma_kind_text(kind);
            lemma_ascii_bytes_decode(name@);
        }
    }
    match string_from_utf8(to_vec(name)) {
        Some(text) => ShardKind::parse(text.as_str()),
        None => None,
    }
}

/// The number that is the name of a file with the extension of shards.
fn parse_file_name(name: &[u8]) -> (r: Option<u64>)
    ensures
        forall|n: u64| name@ == #[trigger] decimal(n as nat) + ascii(".json"@) ==> r == Some(n),
{
    proof {
        reveal_strlit(".json");
        assert forall|n: u64| name@ == #[trigger] decimal(n as nat) + ascii(".json"@) implies {
            &&& name@.len() >= 5
            &&& name@.take(name@.len() - 5) == decimal(n as nat)
            &&& name@.skip(name@.len() - 5) == ascii(".json"@)
        } by {
            assert(name@.take(name@.len() - 5) =~= decimal(n as nat));
            assert(name@.skip(name@.len() - 5) =~= ascii(".json"@));
        }
    }
    if name.len() < 5 {
        return None;
    }
    let stem_len: usize = name.len() - 5;
    let mut extension: Vec<u8> = Vec::new();
    push_ascii(&mut extension, ".json");
    assert(extension@ =~= ascii(".json"@));
    let end = &name[stem_len..name.len()];
    assert(end@ =~= name@.skip(name@.len() - 5));
    if !bytes_eq(end, extension.as_slice()) {
        return None;
    }
    let stem = &name[0..stem_len];
    assert(stem@ =~= name@.take(name@.len() - 5));
    parse_number(stem)
}

/// The number whose numeral these bytes are.
fn parse_number(digits: &[u8]) -> (r: Option<u64>)
    ensures
        forall|n: u64| digits@ == #[trigger] decimal(n as nat) ==> r == Some(n),
{
    proof {
        assert forall|n: u64| digits@ == #[trigger] decimal(n as nat) implies {
            &&& decimal_value(digits@) == n
            &&& digits@.len() > 0
            &&& forall|i: int| 0 <= i < digits@.len() ==> is_digit(#[trigger] digits@[i])
        } by {
            decimal_round_trips(n as nat);
        }
    }
    parse_decimal(digits)
}

impl ShardKey {
    pub closed spec fn spec_generation(&self) -> Generation {
        self.generation
    }

    pub closed spec fn spec_kind(&self) -> ShardKind {
        self.kind
    }

    pub closed spec fn spec_first_id(&self) -> u64 {
        self.first_id
    }

    pub closed spec fn spec_last_id(&self) -> u64 {
        self.last_id
    }

    pub closed spec fn spec_anchor_ts(&self) -> u64 {
        self.anchor_ts
    }

    /// The bounds are in order and IDs are positive.
    pub open spec fn wf(&self) -> bool {
        1 <= self.first_id() <= self.last_id()
    }

    /// Holds the parts of a key, if the bounds are valid.
    pub fn new(
        generation: Generation,
        kind: ShardKind,
        first_id: u64,
        last_id: u64,
        anchor_ts: u64,
    ) -> (r: Result<Self, BloomError>)
        ensures
            if first_id == 0 || last_id < first_id {
                r == Err::<Self, BloomError>(BloomError::InvalidShardBounds { first_id, last_id })
            } else {
                &&& r matches Ok(key)
                &&& key.wf()
                &&& key.generation() == generation
                &&& key.kind() == kind
                &&& key.first_id() == first_id
                &&& key.last_id() == last_id
                &&& key.anchor_ts() == anchor_ts
            },
    {
        if first_id == 0 || last_id < first_id {
            return Err(BloomError::InvalidShardBounds { first_id, last_id });
        }
        Ok(ShardKey { generation, kind, first_id, last_id, anchor_ts })
    }

    /// Canonical root key prefix spanning every generation.
    pub fn source_prefix() -> (prefix: Vec<u8>)
        ensures
            prefix@ == source_prefix_text(),
    {
        proof {
            reveal_strlit("bloom");
            reveal_strlit("source");
            reveal_strlit("v1");
        }
        let mut prefix: Vec<u8> = Vec::new();
        push_ascii(&mut prefix, "bloom");
        assert(prefix@ =~= ascii("bloom"@));
        push_text(&mut prefix, "source");
        push_text(&mut prefix, "v1");
        prefix
    }

    /// Canonical key of a generation's ready marker.
    pub fn ready_marker_key(generation: Generation) -> (key: Vec<u8>)
        ensures
            key@ == ready_marker_text(generation),
    {
        proof {
            reveal_strlit("ready");
            lemma_uuid_text_is_ascii(generation.id);
        }
        let mut key = Self::source_prefix();
        push_text(&mut key, generation.to_string().as_str());
        push_text(&mut key, "ready");
        key
    }

    /// The generation of the shard.
    #[verifier::when_used_as_spec(spec_generation)]
    pub fn generation(&self) -> (r: Generation)
        ensures
            r == self.generation(),
    {
        self.generation
    }

    /// The kind of the shard.
    #[verifier::when_used_as_spec(spec_kind)]
    pub fn kind(&self) -> (r: ShardKind)
        ensures
            r == self.kind(),
    {
        self.kind
    }

    /// The smallest row ID in the shard.
    #[verifier::when_used_as_spec(spec_first_id)]
    pub fn first_id(&self) -> (r: u64)
        ensures
            r == self.first_id(),
    {
        self.first_id
    }

    /// The largest row ID in the shard: the watermark contribution of this shard.
    #[verifier::when_used_as_spec(spec_last_id)]
    pub fn last_id(&self) -> (r: u64)
        ensures
            r == self.last_id(),
    {
        self.last_id
    }

    /// The Unix timestamp associated with the shard's last record.
    #[verifier::when_used_as_spec(spec_anchor_ts)]
    pub fn anchor_ts(&self) -> (r: u64)
        ensures
            r == self.anchor_ts(),
    {
        self.anchor_ts
    }

    /// The canonical key of this shard.
    pub fn to_key(&self) -> (key: Vec<u8>)
        ensures
            key@ == key_text(*self),
    {
        proof {
            reveal_strlit(".json");
            lemma_uuid_text_is_ascii(self.generation().id);
            lemma_kind_text(self.kind());
        }
        let mut key = Self::source_prefix();
        push_text(&mut key, self.generation.to_string().as_str());
        push_text(&mut key, self.kind.as_str());
        push_number(&mut key, self.first_id);
        push_number(&mut key, self.last_id);
        push_number(&mut key, self.anchor_ts);
        push_ascii(&mut key, ".json");
        assert(key@ =~= key_text(*self));
        key
    }

    /// The key with these parts.
    fn from_parts(parts: &Vec<Vec<u8>>) -> (r: Option<Self>)
        ensures
            forall|key: ShardKey|
                key.wf() && views(parts@) == #[trigger] key_parts(key) ==> r == Some(key),
            r matches Some(key) ==> key.wf(),
    {
        proof {
            assert forall|key: ShardKey| views(parts@) == #[trigger] key_parts(key) implies {
                &&& parts@.len() == 8
                &&& parts@[3]@ == ascii(uuid_text(key.generation().id))
                &&& parts@[4]@ == ascii(kind_text(key.kind()))
                &&& parts@[5]@ == decimal(key.first_id() as nat)
                &&& parts@[6]@ == decimal(key.last_id() as nat)
                &&& parts@[7]@ == decimal(key.anchor_ts() as nat) + ascii(".json"@)
            } by {
                assert(views(parts@).len() == 8);
                assert(views(parts@)[3] == key_parts(key)[3]);
                assert(views(parts@)[4] == key_parts(key)[4]);
                assert(views(parts@)[5] == key_parts(key)[5]);
                assert(views(parts@)[6] == key_parts(key)[6]);
                assert(views(parts@)[7] == key_parts(key)[7]);
            }
        }
        if parts.len() != 8 {
            return None;
        }
        let generation = match uuid_try_parse_ascii(parts[3].as_slice()) {
            Some(id) => Generation { id },
            None => {
                return None;
            },
        };
        let kind = match parse_kind(parts[4].as_slice()) {
            Some(kind) => kind,
            None => {
                return None;
            },
        };
        let first_id: u64 = match parse_number(parts[5].as_slice()) {
            Some(n) => n,
            None => {
                return None;
            },
        };
        let last_id: u64 = match parse_number(parts[6].as_slice()) {
            Some(n) => n,
            None => {
                return None;
            },
        };
        let anchor_ts: u64 = match parse_file_name(parts[7].as_slice()) {
            Some(n) => n,
            None => {
                return None;
            },
        };
        match ShardKey::new(generation, kind, first_id, last_id, anchor_ts) {
            Ok(key) => Some(key),
            Err(_) => None,
        }
    }

    /// Parses one shard key. A key that does not round-trip through [`Self::to_key`] fails, so
    /// every parsed key has exactly one string form.
    pub fn parse(key: &[u8]) -> (r: Result<Self, BloomError>)
        ensures
            match r {
                Ok(parsed) => parsed.wf() && key_text(parsed) == key@,
                Err(error) => {
                    &&& forall|parsed: ShardKey|
                        parsed.wf() ==> #[trigger] key_text(parsed) != key@
                    &&& error matches BloomError::InvalidShardKey { key: refused }
                    &&& refused@ == key@
                },
            },
    {
        let parts = split_path(key);
        proof {
            assert forall|parsed: ShardKey| #[trigger] key_text(parsed) == key@ implies views(
                parts@,
            ) == key_parts(parsed) by {
                lemma_split_key(parsed);
            }
        }
        match Self::from_parts(&parts) {
            Some(parsed) => {
                if bytes_eq(parsed.to_key().as_slice(), key) {
                    return Ok(parsed);
                }
            },
            None => {},
        }
        Err(BloomError::InvalidShardKey { key: to_vec(key) })
    }
}

/// Appends a separator and a text.
fn push_text(path: &mut Vec<u8>, part: &str)
    requires
        is_ascii_chars(part@),
    ensures
        final(path)@ == join(old(path)@, ascii(part@)),
{
    let mut bytes: Vec<u8> = Vec::new();
    push_ascii(&mut bytes, part);
    assert(bytes@ =~= ascii(part@));
    push_part(path, bytes.as_slice());
}

/// Appends a separator and a numeral.
fn push_number(path: &mut Vec<u8>, n: u64)
    ensures
        final(path)@ == join(old(path)@, decimal(n as nat)),
{
    let mut bytes: Vec<u8> = Vec::new();
    push_decimal(&mut bytes, n);
    assert(bytes@ =~= decimal(n as nat));
    push_part(path, bytes.as_slice());
}

} // verus!
