//! Content hashes, entity identities and canonical JSON.
use vstd::prelude::*;
use vstd::utf8::*;

use crate::json::{as_unsigned, exact, Json, JsonNumber, JsonView, NumberForm};
use crate::text::{self, decimal, option_view};

verus! {

pub const ARTIFACT_REVISION_DOMAIN: &'static str = "stcli:artifact-revision:v1";

pub const SESSION_PROJECTION_DOMAIN: &'static str = "stcli:session-projection:v1";

/// What `sha2::Sha256` makes of a message.
pub uninterp spec fn sha256_of(message: Seq<u8>) -> Seq<u8>;

/// `sha2::Sha256::digest`: thirty-two bytes that depend on the message alone.
#[verifier::external_body]
pub(crate) fn sha256(message: &Vec<u8>) -> (digest: [u8; 32])
    ensures
        digest@ == sha256_of(message@),
{
    <sha2::Sha256 as sha2::Digest>::digest(message.as_slice()).into()
}

/// `serde_json::Value`, carried from the conversion to the canonical encoder.
#[verifier::external_type_specification]
#[verifier::external_body]
pub struct ExternalValue(serde_json::Value);

/// `serde_json::Error`, carried from a numeral that is none.
#[verifier::external_type_specification]
#[verifier::external_body]
pub struct ExternalJsonError(serde_json::Error);

/// `serde_json::Number`, of which `serde_json::from_str` makes the value of a
/// numeral that is no integer. Nothing is claimed of the result.
#[verifier::external_body]
fn number_value(number: &JsonNumber) -> (value: Result<serde_json::Value, serde_json::Error>) {
    Ok(serde_json::Value::Number(match &number.form {
        NumberForm::Unsigned(n) => serde_json::Number::from(*n),
        NumberForm::Negative(n) => serde_json::Number::from(*n),
        NumberForm::Real(numeral) => serde_json::from_str(numeral.as_str())?,
    }))
}

/// The `serde_json::Value` of a JSON value, variant by variant. Nothing is
/// claimed of the result.
#[verifier::external_body]
fn to_value(json: &Json) -> (value: Result<serde_json::Value, serde_json::Error>) {
    Ok(match json {
        Json::Null => serde_json::Value::Null,
        Json::Bool(b) => serde_json::Value::Bool(*b),
        Json::Number(n) => number_value(n)?,
        Json::Text(t) => serde_json::Value::String(t.clone()),
        Json::Array(items) => {
            serde_json::Value::Array(items.iter().map(to_value).collect::<Result<_, _>>()?)
        },
        Json::Object(members) => serde_json::Value::Object(
            members.iter().map(|m| Ok((m.0.clone(), to_value(&m.1)?)))
                .collect::<Result<_, serde_json::Error>>()?,
        ),
    })
}

/// What `serde_jcs` writes for a JSON value; nothing where a numeral of it is
/// none.
pub uninterp spec fn canonical_of(value: JsonView) -> Option<Seq<u8>>;

/// `serde_jcs::to_vec`: the canonical encoding depends on the value alone and is
/// text in UTF-8. There is one where every number is an integer.
#[verifier::external_body]
fn encode_canonical(value: &Json) -> (encoded: Option<Vec<u8>>)
    ensures
        match encoded {
            Some(bytes) => canonical_of(value@) == Some(bytes@),
            None => canonical_of(value@) is None,
        },
        encoded matches Some(bytes) ==> valid_utf8(bytes@),
        exact(value@) ==> encoded is Some,
{
    serde_jcs::to_vec(&to_value(value).ok()?).ok()
}

/// What `serde_json` writes for a JSON value, with no space in it; nothing where
/// a numeral of it is none.
pub uninterp spec fn compact_of(value: JsonView) -> Option<Seq<char>>;

/// `serde_json::Value::to_string`: the text depends on the value alone. There is
/// one where every number is an integer, and that of a number that is not
/// negative is its numeral.
#[verifier::external_body]
pub(crate) fn compact_text(value: &Json) -> (encoded: Option<String>)
    ensures
        option_view(encoded) == compact_of(value@),
        exact(value@) ==> encoded is Some,
        as_unsigned(Some(value@)) matches Some(n) ==> encoded is Some && encoded->0@ == decimal(
            n as nat,
        ),
{
    Some(to_value(value).ok()?.to_string())
}

/// What `serde_json` writes for a JSON value with its lines broken and indented;
/// nothing where a numeral of it is none.
pub uninterp spec fn pretty_of(value: JsonView) -> Option<Seq<u8>>;

/// `serde_json::to_vec_pretty`: the bytes depend on the value alone, and there
/// are some where every number is an integer.
#[verifier::external_body]
pub(crate) fn pretty_bytes(value: &Json) -> (encoded: Option<Vec<u8>>)
    ensures
        match encoded {
            Some(bytes) => pretty_of(value@) == Some(bytes@),
            None => pretty_of(value@) is None,
        },
        exact(value@) ==> encoded is Some,
{
    serde_json::to_vec_pretty(&to_value(value).ok()?).ok()
}

/// What `ulid` writes for the 128 bits of an identity.
pub uninterp spec fn ulid_text_of(value: u128) -> Seq<char>;

/// The 128 bits that `ulid` reads from a text, or why it reads none.
pub uninterp spec fn ulid_value_of(encoded: Seq<char>) -> Result<u128, EntityIdError>;

/// `ulid` reads `value` from the text.
pub open spec fn reads_as(encoded: Seq<char>, value: u128) -> bool {
    ulid_value_of(encoded) == Ok::<u128, EntityIdError>(value)
}

/// `ulid::Ulid::to_string`: the text depends on the bits alone, and reading it
/// gives the bits back.
#[verifier::external_body]
fn ulid_text(value: u128) -> (encoded: String)
    ensures
        encoded@ == ulid_text_of(value),
        reads_as(encoded@, value),
{
    ulid::Ulid(value).to_string()
}

/// `ulid::Ulid::from_string`: the outcome depends on the text alone.
#[verifier::external_body]
fn ulid_value(encoded: &str) -> (value: Result<u128, EntityIdError>)
    ensures
        value == ulid_value_of(encoded@),
{
    match ulid::Ulid::from_string(encoded) {
        Ok(ulid) => Ok(ulid.0),
        Err(ulid::DecodeError::InvalidLength) => Err(EntityIdError::InvalidLength),
        Err(ulid::DecodeError::InvalidChar) => Err(EntityIdError::InvalidChar),
    }
}

/// `ulid::Ulid::new`: the clock and chance decide, so nothing is claimed.
#[verifier::external_body]
fn fresh_ulid() -> (value: u128) {
    ulid::Ulid::new().0
}

/// A SHA-256 digest that names some content.
#[derive(Clone, Copy, Debug, Eq, Hash, PartialEq)]
pub struct ContentHash {
    bytes: [u8; 32],
}

impl View for ContentHash {
    type V = Seq<u8>;

    closed spec fn view(&self) -> Seq<u8> {
        self.bytes@
    }
}

/// Why a text is no content hash.
#[derive(Clone, Copy, Debug, Eq, PartialEq, Structural)]
pub enum ParseContentHashError {
    MissingPrefix,
    InvalidLength(usize),
    InvalidHex,
}

/// The character of a hexadecimal digit.
pub open spec fn hex_digit(d: int) -> char {
    if d < 10 {
        (('0' as u32) + d) as u32 as char
    } else {
        (('a' as u32) + (d - 10)) as u32 as char
    }
}

/// The value of a hexadecimal digit, small or capital.
pub open spec fn hex_value(c: char) -> Option<int> {
    if '0' as u32 <= c as u32 <= '9' as u32 {
        Some(c as u32 - '0' as u32)
    } else if 'a' as u32 <= c as u32 <= 'f' as u32 {
        Some(c as u32 - 'a' as u32 + 10)
    } else if 'A' as u32 <= c as u32 <= 'F' as u32 {
        Some(c as u32 - 'A' as u32 + 10)
    } else {
        None
    }
}

/// Two hexadecimal digits for each byte.
pub open spec fn hex_of(bytes: Seq<u8>) -> Seq<char> {
    Seq::new(
        2 * bytes.len(),
        |i: int|
            hex_digit(
                if i % 2 == 0 {
                    bytes[i / 2] as int / 16
                } else {
                    bytes[i / 2] as int % 16
                },
            ),
    )
}

/// The written form of a digest.
pub open spec fn hash_text(bytes: Seq<u8>) -> Seq<char> {
    "sha256:"@ + hex_of(bytes)
}

/// Whether every character is a hexadecimal digit.
pub open spec fn all_hex(digits: Seq<char>) -> bool {
    forall|i: int| 0 <= i < digits.len() ==> hex_value(#[trigger] digits[i]) is Some
}

/// The bytes that hexadecimal digits stand for, two digits each.
pub open spec fn hex_bytes(digits: Seq<char>) -> Seq<u8> {
    Seq::new(
        digits.len() / 2,
        |i: int| (hex_value(digits[2 * i])->0 * 16 + hex_value(digits[2 * i + 1])->0) as u8,
    )
}

/// What a text stands for as a content hash.
pub open spec fn parsed_hash(source: Seq<char>) -> Result<Seq<u8>, ParseContentHashError> {
    if !text::begins_with(source, "sha256:"@) {
        Err(ParseContentHashError::MissingPrefix)
    } else {
        let digits = source.skip(7);
        let size = encode_utf8(digits).len();
        if size != 64 {
            Err(ParseContentHashError::InvalidLength(size as usize))
        } else if digits.len() != 64 || !all_hex(digits) {
            Err(ParseContentHashError::InvalidHex)
        } else {
            Ok(hex_bytes(digits))
        }
    }
}

fn hex_char(d: u8) -> (c: char)
    requires
        d < 16,
    ensures
        c == hex_digit(d as int),
{
    if d < 10 {
        (48u8 + d) as char
    } else {
        (87u8 + d) as char
    }
}

fn hex_number(c: char) -> (value: Option<u8>)
    ensures
        match value {
            Some(v) => v < 16 && hex_value(c) == Some(v as int),
            None => hex_value(c) is None,
        },
{
    let code: u32 = c as u32;
    if 48 <= code && code <= 57 {
        Some((code - 48) as u8)
    } else if 97 <= code && code <= 102 {
        Some((code - 87) as u8)
    } else if 65 <= code && code <= 70 {
        Some((code - 55) as u8)
    } else {
        None
    }
}

impl ContentHash {
    pub fn new(bytes: [u8; 32]) -> (hash: Self)
        ensures
            hash@ == bytes@,
    {
        ContentHash { bytes }
    }

    pub fn as_bytes(&self) -> (bytes: &[u8; 32])
        ensures
            bytes@ == self@,
    {
        &self.bytes
    }

    /// A digest has thirty-two bytes.
    pub proof fn lemma_length(&self)
        ensures
            self@.len() == 32,
    {
    }

    /// Whether two digests are equal.
    pub fn same(&self, other: &ContentHash) -> (same: bool)
        ensures
            same == (self@ == other@),
    {
        let mut i: usize = 0;
        while i < 32
            invariant
                i <= 32,
                forall|j: int| 0 <= j < i ==> self.bytes@[j] == other.bytes@[j],
            decreases 32 - i,
        {
            if self.bytes[i] != other.bytes[i] {
                return false;
            }
            i = i + 1;
        }
        proof {
            assert(self@ =~= other@);
        }
        true
    }

    /// The sixty-four hexadecimal digits of the digest.
    pub fn hex(&self) -> (r: String)
        ensures
            r@ == hex_of(self@),
    {
        let mut r = String::new();
        let mut i: usize = 0;
        proof {
            assert(r@ =~= hex_of(self@).take(0));
        }
        while i < 32
            invariant
                i <= 32,
                self.bytes@.len() == 32,
                self@ == self.bytes@,
                r@ == hex_of(self@).take(2 * i),
            decreases 32 - i,
        {
            let byte: u8 = self.bytes[i];
            r.push(hex_char(byte / 16));
            r.push(hex_char(byte % 16));
            proof {
                let h = hex_of(self@);
                assert(h[2 * i] == hex_digit(byte as int / 16));
                assert(h[2 * i + 1] == hex_digit(byte as int % 16));
                assert(h.take(2 * i).push(h[2 * i]).push(h[2 * i + 1]) =~= h.take(2 * (i + 1)));
            }
            i = i + 1;
        }
        proof {
            assert(hex_of(self@).take(64) =~= hex_of(self@));
        }
        r
    }

    /// The written form: `sha256:` and sixty-four hexadecimal digits.
    pub fn text(&self) -> (r: String)
        ensures
            r@ == hash_text(self@),
    {
        let mut r = "sha256:".to_owned();
        r.push_str(self.hex().as_str());
        r
    }

    /// Reads the written form of a digest.
    pub fn parse(source: &str) -> (r: Result<ContentHash, ParseContentHashError>)
        ensures
            match r {
                Ok(hash) => parsed_hash(source@) == Ok::<Seq<u8>, ParseContentHashError>(hash@),
                Err(e) => parsed_hash(source@) == Err::<Seq<u8>, ParseContentHashError>(e),
            },
    {
        if !text::starts_with(source, "sha256:") {
            return Err(ParseContentHashError::MissingPrefix);
        }
        let chars = text::to_chars(source);
        proof {
            reveal_strlit("sha256:");
        }
        let digits = text::from_range(&chars, 7, chars.len());
        proof {
            assert(digits@ =~= source@.skip(7));
        }
        let size: usize = digits.as_str().as_bytes().len();
        if size != 64 {
            return Err(ParseContentHashError::InvalidLength(size));
        }
        if chars.len() != 71 {
            return Err(ParseContentHashError::InvalidHex);
        }
        let mut bytes: [u8; 32] = [0u8; 32];
        let mut i: usize = 0;
        while i < 32
            invariant
                i <= 32,
                chars@ == source@,
                chars@.len() == 71,
                digits@ == source@.skip(7),
                forall|j: int| 0 <= j < 2 * i ==> hex_value(#[trigger] digits@[j]) is Some,
                forall|j: int|
                    0 <= j < i ==> #[trigger] bytes@[j] == hex_bytes(digits@)[j],
                parsed_hash(source@) == (if all_hex(digits@) {
                    Ok::<Seq<u8>, ParseContentHashError>(hex_bytes(digits@))
                } else {
                    Err::<Seq<u8>, ParseContentHashError>(ParseContentHashError::InvalidHex)
                }),
            decreases 32 - i,
        {
            proof {
                assert(digits@[2 * i] == chars@[7 + 2 * i]);
                assert(digits@[2 * i + 1] == chars@[8 + 2 * i]);
            }
            match (hex_number(chars[7 + 2 * i]), hex_number(chars[8 + 2 * i])) {
                (Some(high), Some(low)) => {
                    bytes[i] = high * 16 + low;
                },
                _ => {
                    return Err(ParseContentHashError::InvalidHex);
                },
            }
            i = i + 1;
        }
        proof {
            assert(all_hex(digits@));
            assert(bytes@ =~= hex_bytes(digits@));
        }
        Ok(ContentHash { bytes })
    }
}

/// Reading the written form of a digest gives the digest back.
pub proof fn law_hash_text_round_trip(hash: ContentHash)
    ensures
        parsed_hash(hash_text(hash@)) == Ok::<Seq<u8>, ParseContentHashError>(hash@),
{
    let source = hash_text(hash@);
    let digits = hex_of(hash@);
    hash.lemma_length();
    reveal_strlit("sha256:");
    assert(source.take(7) =~= "sha256:"@);
    assert(source.skip(7) =~= digits);
    assert forall|i: int| 0 <= i < 64 implies hex_value(#[trigger] digits[i]) == Some(
        if i % 2 == 0 {
            hash@[i / 2] as int / 16
        } else {
            hash@[i / 2] as int % 16
        },
    ) && (digits[i] as u32) < 128 by {
        assert(digits[i] == hex_digit(
            if i % 2 == 0 {
                hash@[i / 2] as int / 16
            } else {
                hash@[i / 2] as int % 16
            },
        ));
    }
    assert(is_ascii_chars(digits)) by {
        assert forall|i: int| 0 <= i < digits.len() implies '\0' <= #[trigger] digits[i] <= '\u{7f}' by {
            assert(hex_value(digits[i]) is Some);
        }
    }
    is_ascii_chars_encode_utf8(digits);
    assert(hex_bytes(digits) =~= hash@) by {
        assert forall|i: int| 0 <= i < 32 implies hex_bytes(digits)[i] == hash@[i] by {
            assert(hex_value(digits[2 * i]) == Some(hash@[i] as int / 16));
            assert(hex_value(digits[2 * i + 1]) == Some(hash@[i] as int % 16));
        }
    }
}

/// Why a text is no entity identity.
#[derive(Clone, Copy, Debug, Eq, PartialEq, Structural)]
pub enum EntityIdError {
    InvalidLength,
    InvalidChar,
}

/// The identity of an entity: the 128 bits of a ULID.
#[derive(Clone, Copy, Debug, Eq, Hash, Ord, PartialEq, PartialOrd, Structural)]
pub struct EntityId {
    value: u128,
}

impl View for EntityId {
    type V = u128;

    closed spec fn view(&self) -> u128 {
        self.value
    }
}

impl EntityId {
    /// A fresh identity. The clock and chance decide which.
    pub fn new() -> (id: Self) {
        EntityId { value: fresh_ulid() }
    }

    pub fn from_ulid(value: u128) -> (id: Self)
        ensures
            id@ == value,
    {
        EntityId { value }
    }

    pub fn into_ulid(self) -> (value: u128)
        ensures
            value == self@,
    {
        self.value
    }

    /// The milliseconds since the epoch at which the identity was made: its
    /// upper 48 bits.
    pub fn timestamp_ms(&self) -> (ms: u64)
        ensures
            ms as int == self@ as int / 0x100000000000000000000,
    {
        let high: u128 = self.value / 0x100000000000000000000;
        high as u64
    }

    /// The written form of the identity.
    pub fn text(&self) -> (encoded: String)
        ensures
            encoded@ == ulid_text_of(self@),
            reads_as(encoded@, self@),
    {
        ulid_text(self.value)
    }

    /// Reads the written form of an identity.
    pub fn parse(encoded: &str) -> (id: Result<EntityId, EntityIdError>)
        ensures
            match id {
                Ok(id) => ulid_value_of(encoded@) == Ok::<u128, EntityIdError>(id@),
                Err(e) => ulid_value_of(encoded@) == Err::<u128, EntityIdError>(e),
            },
    {
        match ulid_value(encoded) {
            Ok(value) => Ok(EntityId { value }),
            Err(e) => Err(e),
        }
    }
}

/// A JSON value holds a numeral that is none.
#[derive(Clone, Copy, Debug, Eq, PartialEq, Structural)]
pub struct CanonicalError;

/// The low `width` bytes of `n`, the most significant first.
pub open spec fn big_endian(n: nat, width: nat) -> Seq<u8>
    decreases width,
{
    if width == 0 {
        Seq::empty()
    } else {
        big_endian(n / 256, (width - 1) as nat).push((n % 256) as u8)
    }
}

/// Each part preceded by its length in eight bytes.
pub open spec fn framed(parts: Seq<Seq<u8>>) -> Seq<u8>
    decreases parts.len(),
{
    if parts.len() == 0 {
        Seq::empty()
    } else {
        big_endian(parts[0].len(), 8) + parts[0] + framed(parts.drop_first())
    }
}

/// The message that is hashed for some parts in a domain: the domain, a zero
/// byte and the framed parts.
pub open spec fn preimage(domain: Seq<char>, parts: Seq<Seq<u8>>) -> Seq<u8> {
    encode_utf8(domain).push(0u8) + framed(parts)
}

/// The digest of some parts in a domain.
pub open spec fn hash_of(domain: Seq<char>, parts: Seq<Seq<u8>>) -> Seq<u8> {
    sha256_of(preimage(domain, parts))
}

/// The bytes of each part.
pub open spec fn parts_view(parts: Seq<&[u8]>) -> Seq<Seq<u8>> {
    Seq::new(parts.len(), |i: int| parts[i]@)
}

fn push_all(target: &mut Vec<u8>, tail: &[u8])
    ensures
        final(target)@ == old(target)@ + tail@,
{
    let mut i: usize = 0;
    while i < tail.len()
        invariant
            i <= tail@.len(),
            target@ == old(target)@ + tail@.take(i as int),
        decreases tail@.len() - i,
    {
        target.push(tail[i]);
        i = i + 1;
        proof {
            assert(target@ =~= old(target)@ + tail@.take(i as int));
        }
    }
    proof {
        assert(tail@.take(tail@.len() as int) =~= tail@);
    }
}

fn push_big_endian(target: &mut Vec<u8>, n: u64, width: u8)
    ensures
        final(target)@ == old(target)@ + big_endian(n as nat, width as nat),
    decreases width,
{
    if width > 0 {
        push_big_endian(target, n / 256, width - 1);
        target.push((n % 256) as u8);
    }
    proof {
        assert(target@ =~= old(target)@ + big_endian(n as nat, width as nat));
    }
}

/// Hashes some parts in a domain.
pub fn hash_parts(domain: &str, parts: &[&[u8]]) -> (hash: ContentHash)
    ensures
        hash@ == hash_of(domain@, parts_view(parts@)),
{
    let mut message: Vec<u8> = Vec::new();
    push_all(&mut message, domain.as_bytes());
    message.push(0);
    let ghost head = message@;
    let ghost all = parts_view(parts@);
    proof {
        assert(head =~= encode_utf8(domain@).push(0u8));
        assert(message@ =~= head + framed(all.take(0)));
    }
    let mut i: usize = 0;
    while i < parts.len()
        invariant
            i <= parts@.len(),
            all == parts_view(parts@),
            message@ == head + framed(all.take(i as int)),
        decreases parts@.len() - i,
    {
        let part: &[u8] = parts[i];
        push_big_endian(&mut message, part.len() as u64, 8);
        push_all(&mut message, part);
        i = i + 1;
        proof {
            let taken = all.take(i - 1);
            assert(all.take(i as int) =~= taken.push(part@));
            lemma_framed_push(taken, part@);
            assert(message@ =~= head + framed(all.take(i as int)));
        }
    }
    proof {
        assert(all.take(all.len() as int) =~= all);
    }
    ContentHash::new(sha256(&message))
}

/// The identity of an artifact revision: its kind, format and source bytes.
pub fn artifact_revision_hash(kind: &str, source_format: &str, source: &[u8]) -> (hash: ContentHash)
    ensures
        hash@ == revision_hash_of(kind@, source_format@, source@),
{
    let kind_bytes = kind.as_bytes();
    let format_bytes = source_format.as_bytes();
    let hash = hash_parts(ARTIFACT_REVISION_DOMAIN, &[kind_bytes, format_bytes, source]);
    proof {
        assert(parts_view([kind_bytes, format_bytes, source]@) =~= seq![
            encode_utf8(kind@),
            encode_utf8(source_format@),
            source@,
        ]);
    }
    hash
}

/// The digest that identifies an artifact revision.
pub open spec fn revision_hash_of(
    kind: Seq<char>,
    source_format: Seq<char>,
    source: Seq<u8>,
) -> Seq<u8> {
    hash_of(
        ARTIFACT_REVISION_DOMAIN@,
        seq![encode_utf8(kind), encode_utf8(source_format), source],
    )
}

/// The canonical encoding of a JSON value.
pub fn canonical_json(value: &Json) -> (encoded: Result<Vec<u8>, CanonicalError>)
    ensures
        match encoded {
            Ok(bytes) => canonical_of(value@) == Some(bytes@),
            Err(_) => canonical_of(value@) is None,
        },
        encoded matches Ok(bytes) ==> valid_utf8(bytes@),
        exact(value@) ==> encoded is Ok,
{
    match encode_canonical(value) {
        Some(bytes) => Ok(bytes),
        None => Err(CanonicalError),
    }
}

/// The digest of a value's canonical encoding in a domain.
pub open spec fn canonical_hash_of(domain: Seq<char>, value: JsonView) -> Option<Seq<u8>> {
    match canonical_of(value) {
        Some(bytes) => Some(hash_of(domain, seq![bytes])),
        None => None,
    }
}

/// Hashes a value's canonical encoding in a domain.
pub fn canonical_json_hash(domain: &str, value: &Json) -> (hash: Result<
    ContentHash,
    CanonicalError,
>)
    ensures
        match hash {
            Ok(h) => canonical_hash_of(domain@, value@) == Some(h@),
            Err(_) => canonical_hash_of(domain@, value@) is None,
        },
        exact(value@) ==> hash is Ok,
{
    match canonical_json(value) {
        Ok(bytes) => {
            let part = bytes.as_slice();
            let hash = hash_parts(domain, &[part]);
            proof {
                assert(parts_view([part]@) =~= seq![bytes@]);
            }
            Ok(hash)
        },
        Err(e) => Err(e),
    }
}

/// The digest of a session projection.
pub fn session_projection_hash(value: &Json) -> (hash: Result<ContentHash, CanonicalError>)
    ensures
        match hash {
            Ok(h) => canonical_hash_of(SESSION_PROJECTION_DOMAIN@, value@) == Some(h@),
            Err(_) => canonical_hash_of(SESSION_PROJECTION_DOMAIN@, value@) is None,
        },
        exact(value@) ==> hash is Ok,
{
    canonical_json_hash(SESSION_PROJECTION_DOMAIN, value)
}

proof fn lemma_big_endian_length(n: nat, width: nat)
    ensures
        big_endian(n, width).len() == width,
    decreases width,
{
    if width > 0 {
        lemma_big_endian_length(n / 256, (width - 1) as nat);
    }
}

proof fn lemma_big_endian_injective(a: nat, b: nat, width: nat)
    requires
        big_endian(a, width) == big_endian(b, width),
        a < vstd::arithmetic::power::pow(256, width),
        b < vstd::arithmetic::power::pow(256, width),
    ensures
        a == b,
    decreases width,
{
    reveal(vstd::arithmetic::power::pow);
    if width > 0 {
        let x = big_endian(a, width);
        let y = big_endian(b, width);
        assert(x.last() == y.last());
        assert(x.drop_last() =~= big_endian(a / 256, (width - 1) as nat));
        assert(y.drop_last() =~= big_endian(b / 256, (width - 1) as nat));
        let p = vstd::arithmetic::power::pow(256, (width - 1) as nat);
        assert(a / 256 < p) by (nonlinear_arith)
            requires
                a < 256 * p,
        ;
        assert(b / 256 < p) by (nonlinear_arith)
            requires
                b < 256 * p,
        ;
        lemma_big_endian_injective(a / 256, b / 256, (width - 1) as nat);
    }
}

proof fn lemma_framed_push(parts: Seq<Seq<u8>>, part: Seq<u8>)
    ensures
        framed(parts.push(part)) == framed(parts) + big_endian(part.len(), 8) + part,
    decreases parts.len(),
{
    if parts.len() == 0 {
        let rest: Seq<Seq<u8>> = parts.push(part).drop_first();
        assert(rest.len() == 0 && framed(rest) == Seq::<u8>::empty());
        assert(parts.push(part)[0] == part);
        assert(framed(parts.push(part)) =~= framed(parts) + big_endian(part.len(), 8) + part);
    } else {
        lemma_framed_push(parts.drop_first(), part);
        assert(parts.push(part).drop_first() =~= parts.drop_first().push(part));
        assert(framed(parts.push(part)) =~= framed(parts) + big_endian(part.len(), 8) + part);
    }
}

/// No part is longer than eight bytes can count.
pub open spec fn countable(parts: Seq<Seq<u8>>) -> bool {
    forall|i: int| 0 <= i < parts.len() ==> (#[trigger] parts[i]).len() <= u64::MAX
}

proof fn lemma_framed_injective(a: Seq<Seq<u8>>, b: Seq<Seq<u8>>)
    requires
        framed(a) == framed(b),
        countable(a),
        countable(b),
    ensures
        a == b,
    decreases a.len(),
{
    if a.len() > 0 {
        lemma_big_endian_length(a[0].len(), 8);
        assert(framed(a).len() >= 8);
    }
    if b.len() > 0 {
        lemma_big_endian_length(b[0].len(), 8);
        assert(framed(b).len() >= 8);
    }
    if a.len() == 0 || b.len() == 0 {
        assert(a =~= b);
    } else {
        let x = framed(a);
        assert(x.take(8) =~= big_endian(a[0].len(), 8));
        assert(x.take(8) =~= big_endian(b[0].len(), 8));
        assert(vstd::arithmetic::power::pow(256, 8) == 0x10000000000000000) by {
            reveal_with_fuel(vstd::arithmetic::power::pow, 9);
        }
        lemma_big_endian_injective(a[0].len(), b[0].len(), 8);
        let n = a[0].len() as int;
        assert(x.subrange(8, 8 + n) =~= a[0]);
        assert(x.subrange(8, 8 + n) =~= b[0]);
        assert(x.skip(8 + n) =~= framed(a.drop_first()));
        assert(x.skip(8 + n) =~= framed(b.drop_first()));
        assert forall|i: int| 0 <= i < a.len() - 1 implies (#[trigger] a.drop_first()[i]).len()
            <= u64::MAX by {
            assert(a.drop_first()[i] == a[i + 1]);
        }
        assert forall|i: int| 0 <= i < b.len() - 1 implies (#[trigger] b.drop_first()[i]).len()
            <= u64::MAX by {
            assert(b.drop_first()[i] == b[i + 1]);
        }
        lemma_framed_injective(a.drop_first(), b.drop_first());
        assert(a =~= seq![a[0]] + a.drop_first());
        assert(b =~= seq![b[0]] + b.drop_first());
    }
}

/// Two messages have one digest though they differ.
pub open spec fn collide(a: Seq<u8>, b: Seq<u8>) -> bool {
    a != b && sha256_of(a) == sha256_of(b)
}

/// Two hashed messages of one domain that are equal have equal parts.
pub proof fn lemma_parts_are_told_apart(domain: Seq<char>, a: Seq<Seq<u8>>, b: Seq<Seq<u8>>)
    requires
        preimage(domain, a) == preimage(domain, b),
        countable(a),
        countable(b),
    ensures
        a == b,
{
    let n = encode_utf8(domain).len() as int + 1;
    assert(preimage(domain, a).skip(n) =~= framed(a));
    assert(preimage(domain, b).skip(n) =~= framed(b));
    lemma_framed_injective(a, b);
}

/// Two hashed messages that differ in their last part differ.
pub proof fn lemma_last_part_is_told_apart(
    domain: Seq<char>,
    head: Seq<Seq<u8>>,
    x: Seq<u8>,
    y: Seq<u8>,
)
    requires
        preimage(domain, head.push(x)) == preimage(domain, head.push(y)),
    ensures
        x == y,
{
    lemma_framed_push(head, x);
    lemma_framed_push(head, y);
    lemma_big_endian_length(x.len(), 8);
    lemma_big_endian_length(y.len(), 8);
    let n = encode_utf8(domain).len() as int + 1 + framed(head).len() + 8;
    assert(preimage(domain, head.push(x)).skip(n) =~= x);
    assert(preimage(domain, head.push(y)).skip(n) =~= y);
}

/// Domains stay apart: two hashed messages are equal only when their domains
/// and their parts are, provided that no domain holds a zero byte.
pub proof fn law_hash_domains_are_separated(
    domain1: Seq<char>,
    parts1: Seq<Seq<u8>>,
    domain2: Seq<char>,
    parts2: Seq<Seq<u8>>,
)
    requires
        !encode_utf8(domain1).contains(0u8),
        !encode_utf8(domain2).contains(0u8),
        countable(parts1),
        countable(parts2),
    ensures
        preimage(domain1, parts1) == preimage(domain2, parts2) <==> domain1 == domain2 && parts1
            == parts2,
{
    let x = preimage(domain1, parts1);
    let y = preimage(domain2, parts2);
    let a = encode_utf8(domain1);
    let b = encode_utf8(domain2);
    if x == y {
        if a.len() < b.len() {
            assert(x[a.len() as int] == 0u8);
            assert(y[a.len() as int] == b[a.len() as int]);
            assert(b.contains(b[a.len() as int]));
        } else if b.len() < a.len() {
            assert(y[b.len() as int] == 0u8);
            assert(x[b.len() as int] == a[b.len() as int]);
            assert(a.contains(a[b.len() as int]));
        }
        assert(x.take(a.len() as int) =~= a);
        assert(y.take(b.len() as int) =~= b);
        encode_utf8_decode_utf8(domain1);
        encode_utf8_decode_utf8(domain2);
        assert(x.skip(a.len() as int + 1) =~= framed(parts1));
        assert(y.skip(b.len() as int + 1) =~= framed(parts2));
        lemma_framed_injective(parts1, parts2);
    }
}

} // verus!
