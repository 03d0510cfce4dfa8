//! What kinds of artifacts there are, and how they are told apart.
use vstd::prelude::*;
use vstd::utf8::{encode_utf8, is_ascii_chars_encode_utf8};

use crate::identity::ContentHash;
use crate::json::{as_members, as_text, field, Json, JsonView};
use crate::lore::entry::{string_array, texts_of, view_of};
use crate::text::{self, views};

verus! {

/// A kind of artifact.
#[derive(Clone, Copy, Debug, Eq, Hash, PartialEq, Structural)]
pub enum ArtifactKind {
    CharacterCardV1,
    CharacterCardV2,
    CharacterCardV3,
    Lorebook,
    ChatCompletionPreset,
}

/// Why an artifact cannot be had.
#[derive(Clone, Debug)]
pub enum ArtifactError {
    Storage(String),
    InvalidJson { path: String, message: String },
    ChatCompletionPresetRequired(ArtifactKind),
    InvalidPresetTemperature(String),
    CharacterCardV3Required,
    LorebookRequired,
    MissingDeclaredAsset(String),
    ExpectedObject,
    MissingField(&'static str),
    InvalidField(&'static str),
    UnknownFormat,
    SourceTooLarge { size: usize, limit: usize },
    UnknownStoredKind(String),
    StoredKindMismatch(ArtifactKind),
    NotFound(ContentHash),
    MissingAvatar(ContentHash),
    MissingAsset(ContentHash),
    MissingBlob(ContentHash),
    Canonicalize,
    RestoredRecordMismatch(&'static str),
}

/// The contents of an artifact.
#[derive(Debug)]
pub struct DecodedArtifact {
    pub kind: ArtifactKind,
    pub semantic: Json,
    pub greetings: Vec<String>,
}

/// Where and why bytes are no JSON value in which every name of an object
/// stands once.
#[derive(Clone, Debug, Eq, PartialEq)]
pub struct JsonFault {
    pub path: String,
    pub message: String,
}

/// The name of a kind.
pub open spec fn kind_name(kind: ArtifactKind) -> Seq<char> {
    match kind {
        ArtifactKind::CharacterCardV1 => "character-card-v1"@,
        ArtifactKind::CharacterCardV2 => "character-card-v2"@,
        ArtifactKind::CharacterCardV3 => "character-card-v3"@,
        ArtifactKind::Lorebook => "lorebook"@,
        ArtifactKind::ChatCompletionPreset => "chat-completion-preset"@,
    }
}

/// The name of a kind is not long.
pub proof fn lemma_kind_names_are_short(kind: ArtifactKind)
    ensures
        encode_utf8(kind_name(kind)).len() <= 32,
{
    reveal_strlit("character-card-v1");
    reveal_strlit("character-card-v2");
    reveal_strlit("character-card-v3");
    reveal_strlit("lorebook");
    reveal_strlit("chat-completion-preset");
    is_ascii_chars_encode_utf8(kind_name(kind));
}

impl ArtifactKind {
    /// The name of the kind.
    pub fn as_str(self) -> (name: &'static str)
        ensures
            name@ == kind_name(self),
    {
        match self {
            ArtifactKind::CharacterCardV1 => "character-card-v1",
            ArtifactKind::CharacterCardV2 => "character-card-v2",
            ArtifactKind::CharacterCardV3 => "character-card-v3",
            ArtifactKind::Lorebook => "lorebook",
            ArtifactKind::ChatCompletionPreset => "chat-completion-preset",
        }
    }

    /// The kind of a name.
    pub fn parse(name: &str) -> (r: Result<ArtifactKind, ArtifactError>)
        ensures
            match r {
                Ok(kind) => kind_name(kind) == name@,
                Err(ArtifactError::UnknownStoredKind(n)) => n@ == name@ && forall|kind|
                    #[trigger] kind_name(kind) != name@,
                Err(_) => false,
            },
    {
        if text::same(name, "character-card-v1") {
            Ok(ArtifactKind::CharacterCardV1)
        } else if text::same(name, "character-card-v2") {
            Ok(ArtifactKind::CharacterCardV2)
        } else if text::same(name, "character-card-v3") {
            Ok(ArtifactKind::CharacterCardV3)
        } else if text::same(name, "lorebook") {
            Ok(ArtifactKind::Lorebook)
        } else if text::same(name, "chat-completion-preset") {
            Ok(ArtifactKind::ChatCompletionPreset)
        } else {
            Err(ArtifactError::UnknownStoredKind(name.to_owned()))
        }
    }
}

/// Every kind is found by its name again.
pub proof fn law_kinds_have_distinct_names(left: ArtifactKind, right: ArtifactKind)
    ensures
        kind_name(left) == kind_name(right) ==> left == right,
{
    reveal_strlit("character-card-v1");
    reveal_strlit("character-card-v2");
    reveal_strlit("character-card-v3");
    reveal_strlit("lorebook");
    reveal_strlit("chat-completion-preset");
    assert("character-card-v1"@.len() == 17);
    assert("character-card-v2"@.len() == 17);
    assert("character-card-v3"@.len() == 17);
    assert("lorebook"@.len() == 8);
    assert("chat-completion-preset"@.len() == 22);
    assert("character-card-v1"@[16] != "character-card-v2"@[16]);
    assert("character-card-v1"@[16] != "character-card-v3"@[16]);
    assert("character-card-v2"@[16] != "character-card-v3"@[16]);
}

/// The object has a member of every name that a first card has.
pub open spec fn has_card_fields(object: JsonView) -> bool {
    &&& field(object, "name"@) is Some
    &&& field(object, "description"@) is Some
    &&& field(object, "personality"@) is Some
    &&& field(object, "scenario"@) is Some
    &&& field(object, "first_mes"@) is Some
    &&& field(object, "mes_example"@) is Some
}

/// The object's data holds entries.
pub open spec fn has_data_entries(object: JsonView) -> bool {
    match field(object, "data"@) {
        Some(data) => field(data, "entries"@) is Some,
        None => false,
    }
}

/// The kind of artifact that an object is.
pub open spec fn kind_of(object: JsonView) -> Result<ArtifactKind, ArtifactError> {
    let spec_name = as_text(field(object, "spec"@));
    let has_data = as_members(field(object, "data"@)) is Some;
    if spec_name == Some("chara_card_v3"@) {
        if has_data {
            Ok(ArtifactKind::CharacterCardV3)
        } else {
            Err(ArtifactError::MissingField("data"))
        }
    } else if spec_name == Some("chara_card_v2"@) {
        if has_data {
            Ok(ArtifactKind::CharacterCardV2)
        } else {
            Err(ArtifactError::MissingField("data"))
        }
    } else if spec_name == Some("lorebook_v3"@) {
        if has_data_entries(object) {
            Ok(ArtifactKind::Lorebook)
        } else {
            Err(ArtifactError::MissingField("data.entries"))
        }
    } else if has_card_fields(object) {
        Ok(ArtifactKind::CharacterCardV1)
    } else if field(object, "entries"@) is Some {
        Ok(ArtifactKind::Lorebook)
    } else if field(object, "prompts"@) is Some && field(object, "prompt_order"@) is Some {
        Ok(ArtifactKind::ChatCompletionPreset)
    } else {
        Err(ArtifactError::UnknownFormat)
    }
}

fn text_is(value: Option<&Json>, text: &str) -> (r: bool)
    ensures
        r == (as_text(view_of(value)) == Some(text@)),
{
    match value {
        Some(v) => match v.text() {
            Some(t) => text::same(t.as_str(), text),
            None => false,
        },
        None => false,
    }
}

/// Tells which kind of artifact an object is.
pub fn detect_kind(object: &Json) -> (r: Result<ArtifactKind, ArtifactError>)
    ensures
        r == kind_of(object@),
{
    let spec_name = object.get("spec");
    let data = object.get("data");
    let has_data = match data {
        Some(d) => d.members().is_some(),
        None => false,
    };
    if text_is(spec_name, "chara_card_v3") {
        if has_data {
            return Ok(ArtifactKind::CharacterCardV3);
        }
        return Err(ArtifactError::MissingField("data"));
    }
    if text_is(spec_name, "chara_card_v2") {
        if has_data {
            return Ok(ArtifactKind::CharacterCardV2);
        }
        return Err(ArtifactError::MissingField("data"));
    }
    if text_is(spec_name, "lorebook_v3") {
        let has_entries = match data {
            Some(d) => d.get("entries").is_some(),
            None => false,
        };
        if has_entries {
            return Ok(ArtifactKind::Lorebook);
        }
        return Err(ArtifactError::MissingField("data.entries"));
    }
    if object.get("name").is_some() && object.get("description").is_some() && object.get(
        "personality",
    ).is_some() && object.get("scenario").is_some() && object.get("first_mes").is_some()
        && object.get("mes_example").is_some() {
        return Ok(ArtifactKind::CharacterCardV1);
    }
    if object.get("entries").is_some() {
        return Ok(ArtifactKind::Lorebook);
    }
    if object.get("prompts").is_some() && object.get("prompt_order").is_some() {
        return Ok(ArtifactKind::ChatCompletionPreset);
    }
    Err(ArtifactError::UnknownFormat)
}

/// The greetings that an object holds: the first message and its alternatives.
pub open spec fn greetings_in(object: JsonView) -> Seq<Seq<char>> {
    let alternatives = texts_of(field(object, "alternate_greetings"@));
    match as_text(field(object, "first_mes"@)) {
        Some(first) => seq![first] + alternatives,
        None => alternatives,
    }
}

/// The greetings of an artifact.
pub open spec fn greetings_of(object: JsonView, kind: ArtifactKind) -> Seq<Seq<char>> {
    match kind {
        ArtifactKind::CharacterCardV1 => greetings_in(object),
        ArtifactKind::CharacterCardV2 | ArtifactKind::CharacterCardV3 => match field(
            object,
            "data"@,
        ) {
            Some(data) => if data is Object {
                greetings_in(data)
            } else {
                Seq::empty()
            },
            None => Seq::empty(),
        },
        ArtifactKind::Lorebook | ArtifactKind::ChatCompletionPreset => Seq::empty(),
    }
}

fn greeting_values(object: &Json) -> (greetings: Vec<String>)
    ensures
        views(greetings@) == greetings_in(object@),
{
    let alternatives = string_array(object.get("alternate_greetings"));
    let first = match object.get("first_mes") {
        Some(v) => v.text(),
        None => None,
    };
    match first {
        Some(t) => {
            let mut greetings: Vec<String> = Vec::new();
            greetings.push(t.clone());
            let mut rest = alternatives;
            greetings.append(&mut rest);
            proof {
                assert(views(greetings@) =~= seq![t@] + views(alternatives@));
            }
            greetings
        },
        None => alternatives,
    }
}

/// The greetings of an artifact.
pub fn greetings_for_kind(object: &Json, kind: ArtifactKind) -> (greetings: Vec<String>)
    ensures
        views(greetings@) == greetings_of(object@, kind),
{
    let none: Vec<String> = Vec::new();
    proof {
        assert(views(none@) =~= Seq::<Seq<char>>::empty());
    }
    match kind {
        ArtifactKind::CharacterCardV1 => greeting_values(object),
        ArtifactKind::CharacterCardV2 | ArtifactKind::CharacterCardV3 => match object.get("data") {
            Some(data) => if data.members().is_some() {
                greeting_values(data)
            } else {
                none
            },
            None => none,
        },
        ArtifactKind::Lorebook | ArtifactKind::ChatCompletionPreset => none,
    }
}

/// What decoding an artifact comes to, given the JSON value that its bytes are,
/// or why they are none.
pub open spec fn is_decoding(
    r: Result<DecodedArtifact, ArtifactError>,
    parsed: Result<Json, JsonFault>,
) -> bool {
    match parsed {
        Err(fault) => r == Err::<DecodedArtifact, ArtifactError>(
            ArtifactError::InvalidJson { path: fault.path, message: fault.message },
        ),
        Ok(semantic) => if !(semantic@ is Object) {
            r == Err::<DecodedArtifact, ArtifactError>(ArtifactError::ExpectedObject)
        } else {
            match (kind_of(semantic@), r) {
                (Ok(kind), Ok(decoded)) => {
                    &&& decoded.kind == kind
                    &&& decoded.semantic@ == semantic@
                    &&& views(decoded.greetings@) == greetings_of(semantic@, kind)
                },
                (Err(expected), Err(e)) => e == expected,
                _ => false,
            }
        },
    }
}

/// What decoding an artifact that is stored as a kind comes to.
pub open spec fn is_decoding_as(
    r: Result<DecodedArtifact, ArtifactError>,
    parsed: Result<Json, JsonFault>,
    kind: ArtifactKind,
) -> bool {
    if parsed is Ok && parsed->Ok_0@ is Object && kind_of(parsed->Ok_0@) is Ok && kind_of(
        parsed->Ok_0@,
    )->Ok_0 != kind {
        r == Err::<DecodedArtifact, ArtifactError>(ArtifactError::StoredKindMismatch(kind))
    } else {
        is_decoding(r, parsed)
    }
}

/// Decodes an artifact from the JSON value that its bytes are.
pub fn decode_artifact_payload(parsed: Result<Json, JsonFault>) -> (r: Result<
    DecodedArtifact,
    ArtifactError,
>)
    ensures
        is_decoding(r, parsed),
{
    let semantic = match parsed {
        Ok(value) => value,
        Err(fault) => {
            return Err(
                ArtifactError::InvalidJson { path: fault.path, message: fault.message },
            );
        },
    };
    if semantic.members().is_none() {
        return Err(ArtifactError::ExpectedObject);
    }
    let kind = match detect_kind(&semantic) {
        Ok(kind) => kind,
        Err(e) => return Err(e),
    };
    let greetings = greetings_for_kind(&semantic, kind);
    Ok(DecodedArtifact { kind, semantic, greetings })
}

/// Decodes an artifact that is stored as a kind.
pub fn decode_artifact_payload_as(parsed: Result<Json, JsonFault>, kind: ArtifactKind) -> (r:
    Result<DecodedArtifact, ArtifactError>)
    ensures
        is_decoding_as(r, parsed, kind),
{
    match decode_artifact_payload(parsed) {
        Ok(decoded) => if decoded.kind == kind {
            Ok(decoded)
        } else {
            Err(ArtifactError::StoredKindMismatch(kind))
        },
        Err(e) => Err(e),
    }
}

/// Decodes an artifact of at most `limit` bytes.
pub fn decode_artifact(source: &Vec<u8>, parsed: Result<Json, JsonFault>, limit: usize) -> (r:
    Result<DecodedArtifact, ArtifactError>)
    ensures
        if source@.len() > limit {
            r == Err::<DecodedArtifact, ArtifactError>(
                ArtifactError::SourceTooLarge { size: source@.len() as usize, limit },
            )
        } else {
            is_decoding(r, parsed)
        },
{
    let size: usize = source.len();
    if size > limit {
        return Err(ArtifactError::SourceTooLarge { size, limit });
    }
    decode_artifact_payload(parsed)
}

/// An artifact is of the kind that its object says it is: a card of the second or
/// third format, or a lorebook, where it names that format and holds its data. Without
/// such a name it is a first card where it has all the fields of one, else a lorebook
/// where it has entries, else a preset.
pub proof fn law_artifacts_are_what_they_say(decoded: DecodedArtifact, semantic: Json)
    requires
        is_decoding(Ok(decoded), Ok(semantic)),
    ensures
        ({
            let object = semantic@;
            let said = as_text(field(object, "spec"@));
            let cards = field(object, "name"@) is Some && field(object, "description"@) is Some
                && field(object, "personality"@) is Some && field(object, "scenario"@) is Some
                && field(object, "first_mes"@) is Some && field(object, "mes_example"@) is Some;
            &&& object is Object
            &&& decoded.semantic@ == object
            &&& decoded.kind == ArtifactKind::CharacterCardV3 <==> said == Some(
                "chara_card_v3"@,
            )
            &&& decoded.kind == ArtifactKind::CharacterCardV2 <==> said == Some(
                "chara_card_v2"@,
            )
            &&& decoded.kind == ArtifactKind::CharacterCardV2 || decoded.kind
                == ArtifactKind::CharacterCardV3 ==> as_members(field(object, "data"@)) is Some
            &&& said == Some("lorebook_v3"@) ==> decoded.kind == ArtifactKind::Lorebook
            &&& decoded.kind == ArtifactKind::CharacterCardV1 ==> cards
            &&& said is None && cards ==> decoded.kind == ArtifactKind::CharacterCardV1
            &&& said is None && !cards && field(object, "entries"@) is Some ==> decoded.kind
                == ArtifactKind::Lorebook
            &&& decoded.kind == ArtifactKind::ChatCompletionPreset ==> field(
                object,
                "prompts"@,
            ) is Some && field(object, "prompt_order"@) is Some && !cards && field(
                object,
                "entries"@,
            ) is None
        }),
{
    reveal_strlit("chara_card_v3");
    reveal_strlit("chara_card_v2");
    reveal_strlit("lorebook_v3");
    assert("chara_card_v3"@[12] == '3' && "chara_card_v2"@[12] == '2');
    assert("lorebook_v3"@.len() == 11);
}

/// The first greeting of a card is its first message, the others are the texts among
/// its alternatives. What is no card greets nobody.
pub proof fn law_the_first_message_greets_first(
    decoded: DecodedArtifact,
    semantic: Json,
    first: Seq<char>,
)
    requires
        is_decoding(Ok(decoded), Ok(semantic)),
    ensures
        decoded.kind == ArtifactKind::CharacterCardV1 && as_text(
            field(semantic@, "first_mes"@),
        ) == Some(first) ==> decoded.greetings@.len() > 0 && decoded.greetings@[0]@ == first,
        decoded.kind == ArtifactKind::CharacterCardV2 || decoded.kind
            == ArtifactKind::CharacterCardV3 ==> {
            let data = field(semantic@, "data"@)->0;
            as_text(field(data, "first_mes"@)) == Some(first) ==> decoded.greetings@.len() > 0
                && decoded.greetings@[0]@ == first
        },
        decoded.kind == ArtifactKind::Lorebook || decoded.kind
            == ArtifactKind::ChatCompletionPreset ==> decoded.greetings@.len() == 0,
{
    let greetings = views(decoded.greetings@);
    assert(greetings.len() == decoded.greetings@.len());
    if greetings.len() > 0 {
        assert(greetings[0] == decoded.greetings@[0]@);
    }
}

} // verus!
