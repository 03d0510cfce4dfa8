//! What an artifact codec is asked and what it answers.
use vstd::prelude::*;
use vstd::utf8::encode_utf8;

use crate::artifact::kind::{ArtifactError, ArtifactKind};
use crate::identity::ContentHash;
use crate::text::{self, find_char, from_range, lemma_next_char, next_char, to_chars};

verus! {

pub const ARTIFACT_CODEC_INTERFACE_VERSION: &'static str = "stcli.artifact-codec/v1";

pub const MAX_CODEC_SOURCE_BYTES: usize = 2097152;

pub const MAX_CODEC_PAYLOAD_BYTES: usize = 2097152;

pub const MAX_CODEC_ASSET_BYTES: usize = 4194304;

pub const MAX_CODEC_TOTAL_ASSET_BYTES: usize = 8388608;

pub const MAX_CODEC_ASSETS: usize = 64;

pub const MAX_CODEC_SUPPLEMENTARY_ARTIFACTS: usize = 64;

pub const MAX_CODEC_TOTAL_SUPPLEMENTARY_BYTES: usize = 8388608;

pub const MAX_CODEC_COMPATIBILITY_ITEMS: usize = 32;

pub const MAX_CODEC_COMPATIBILITY_MESSAGE_BYTES: usize = 1024;

pub const MAX_CODEC_LOGICAL_PATH_BYTES: usize = 512;

/// What a codec is asked. A source is encoded as base64.
#[derive(Clone, Debug)]
pub enum ArtifactCodecInput {
    Detect { interface_version: String, source: String },
    Decode { interface_version: String, source: String },
    Encode { interface_version: String, format: String, bundle: ArtifactCodecBundle },
}

/// A file that belongs to an artifact, its bytes encoded as base64.
#[derive(Clone, Debug)]
pub struct ArtifactCodecAsset {
    pub logical_path: String,
    pub bytes: String,
    pub byte_size: usize,
    pub sha256: ContentHash,
}

/// An artifact that belongs to another, its payload encoded as base64.
#[derive(Clone, Debug)]
pub struct ArtifactCodecSupplementary {
    pub logical_path: String,
    pub artifact_kind: ArtifactKind,
    pub source_format: String,
    pub embedded: bool,
    pub payload: String,
    pub byte_size: usize,
    pub payload_sha256: ContentHash,
}

/// An artifact with what belongs to it, its payload encoded as base64.
#[derive(Clone, Debug)]
pub struct ArtifactCodecBundle {
    pub artifact_kind: ArtifactKind,
    pub source_format: String,
    pub payload: String,
    pub payload_sha256: ContentHash,
    pub assets: Vec<ArtifactCodecAsset>,
    pub supplementary_artifacts: Vec<ArtifactCodecSupplementary>,
}

/// Something to know of how an artifact was taken.
#[derive(Clone, Debug, Eq, PartialEq)]
pub struct ArtifactCodecCompatibility {
    pub code: String,
    pub message: String,
}

/// The interface versions and formats that a codec plugin offers.
#[derive(Clone, Debug, Eq, PartialEq)]
pub struct ArtifactCodecDeclaration {
    pub interface_versions: Vec<String>,
    pub formats: Vec<String>,
}

/// Where an artifact that belongs to another is kept.
#[derive(Clone, Debug)]
pub struct ArtifactCodecSupplementaryProvenance {
    pub logical_path: String,
    pub embedded: bool,
    pub revision_hash: ContentHash,
}

/// What a codec answers. A source is encoded as base64.
#[derive(Clone, Debug)]
pub enum ArtifactCodecOutput {
    Detect {
        interface_version: String,
        compatible: bool,
        compatibility: Vec<ArtifactCodecCompatibility>,
    },
    Decode {
        interface_version: String,
        format: String,
        bundle: ArtifactCodecBundle,
        compatibility: Vec<ArtifactCodecCompatibility>,
    },
    Encode {
        interface_version: String,
        source: String,
        compatibility: Vec<ArtifactCodecCompatibility>,
    },
}

/// The codec that an artifact was imported by.
#[derive(Clone, Debug)]
pub struct ArtifactCodecProvenance {
    pub plugin_id: String,
    pub version: String,
    pub component_sha256: ContentHash,
    pub interface_version: String,
    pub format: String,
    pub compatibility: Vec<ArtifactCodecCompatibility>,
    pub supplementary_artifacts: Vec<ArtifactCodecSupplementaryProvenance>,
}

/// What the import of a bundle needs to be told.
#[derive(Clone, Debug)]
pub enum CodecQuestion {
    /// Which JSON value are the bytes?
    Parsing { bytes: Vec<u8> },
    /// May the bytes be kept as an asset?
    Keeping { bytes: Vec<u8> },
}

/// Why what a codec answers is not taken.
#[derive(Clone, Debug)]
pub enum ArtifactCodecError {
    Artifact(ArtifactError),
    InvalidPluginContract(String),
    AmbiguousFormatClaims(Vec<String>),
    InterfaceVersion { expected: String, actual: String },
    Operation { expected: &'static str, actual: &'static str },
    InvalidBase64 { field: &'static str, source: String },
    HashMismatch { field: &'static str },
    ArtifactKindMismatch { proposed: ArtifactKind, actual: ArtifactKind },
    InvalidFormat(String),
    InvalidEmbeddedSupplementary,
    RevisionConflict(ContentHash),
    AssetCount { actual: usize, limit: usize },
    SupplementaryArtifactCount { actual: usize, limit: usize },
    PayloadSize { actual: usize, limit: usize },
    AssetSize { path: String, actual: usize, limit: usize },
    TotalSupplementarySize { actual: usize, limit: usize },
    ByteSizeMismatch { path: String, proposed: usize, actual: usize },
    TotalAssetSize { actual: usize, limit: usize },
    InvalidLogicalPath(String),
    DuplicateLogicalPath(String),
    CompatibilityCount { actual: usize, limit: usize },
    InvalidCompatibility { code: String },
    EncodedSourceSize { actual: usize, limit: usize },
    /// The import needs a reply that it was not given.
    Unanswered(CodecQuestion),
}

/// The bytes that `base64` reads from other bytes, or why it reads none.
pub uninterp spec fn base64_bytes(encoded: Seq<u8>) -> Result<Seq<u8>, Seq<char>>;

/// The bytes that `base64` reads from a text, or why it reads none.
pub open spec fn base64_decoded(encoded: Seq<char>) -> Result<Seq<u8>, Seq<char>> {
    base64_bytes(encode_utf8(encoded))
}

/// The text that `base64` writes for some bytes.
pub uninterp spec fn base64_encoded(bytes: Seq<u8>) -> Seq<char>;

/// `base64` reads the bytes from the text.
pub open spec fn base64_reads(encoded: Seq<char>, bytes: Seq<u8>) -> bool {
    base64_decoded(encoded) == Ok::<Seq<u8>, Seq<char>>(bytes)
}

/// The outcome of reading base64, by its views.
pub open spec fn decoding_view(r: Result<Vec<u8>, String>) -> Result<Seq<u8>, Seq<char>> {
    match r {
        Ok(bytes) => Ok(bytes@),
        Err(message) => Err(message@),
    }
}

/// `base64::Engine::decode` of the standard engine: the bytes, or the message
/// of the error, depend on what is read alone.
#[verifier::external_body]
pub(crate) fn decode_base64_bytes(encoded: &[u8]) -> (r: Result<Vec<u8>, String>)
    ensures
        decoding_view(r) == base64_bytes(encoded@),
{
    base64::Engine::decode(&base64::engine::general_purpose::STANDARD, encoded).map_err(
        |error| error.to_string(),
    )
}

/// The bytes that `base64` reads from a text, or why it reads none.
pub(crate) fn decode_base64(encoded: &str) -> (r: Result<Vec<u8>, String>)
    ensures
        decoding_view(r) == base64_decoded(encoded@),
{
    decode_base64_bytes(encoded.as_bytes())
}

/// `base64::Engine::encode` of the standard engine: the text depends on the
/// bytes alone, and reading it gives them back. It panics only where the length
/// of the text is no `usize`.
#[verifier::external_body]
pub(crate) fn encode_base64(bytes: &Vec<u8>) -> (encoded: String)
    requires
        bytes@.len() <= usize::MAX / 4,
    ensures
        encoded@ == base64_encoded(bytes@),
        base64_reads(encoded@, bytes@),
{
    base64::Engine::encode(&base64::engine::general_purpose::STANDARD, bytes)
}

/// A character of the name of a format.
pub open spec fn format_char(c: char) -> bool {
    'a' as u32 <= c as u32 <= 'z' as u32 || '0' as u32 <= c as u32 <= '9' as u32 || c == '-'
}

/// The name of a format: up to 32 small letters, digits and hyphens.
pub open spec fn is_format(format: Seq<char>) -> bool {
    &&& 0 < format.len()
    &&& encode_utf8(format).len() <= 32
    &&& forall|i: int| 0 <= i < format.len() ==> format_char(#[trigger] format[i])
}

/// Checks the name of a format.
pub fn validate_codec_format(format: &str) -> (r: Result<(), ArtifactCodecError>)
    ensures
        match r {
            Ok(()) => is_format(format@),
            Err(ArtifactCodecError::InvalidFormat(f)) => !is_format(format@) && f@ == format@,
            Err(_) => false,
        },
{
    let chars = to_chars(format);
    if chars.len() == 0 || format.as_bytes().len() > 32 {
        return Err(ArtifactCodecError::InvalidFormat(format.to_owned()));
    }
    let mut i: usize = 0;
    while i < chars.len()
        invariant
            i <= chars@.len(),
            chars@ == format@,
            forall|j: int| 0 <= j < i ==> format_char(#[trigger] format@[j]),
        decreases chars@.len() - i,
    {
        let code: u32 = chars[i] as u32;
        if !((97 <= code && code <= 122) || (48 <= code && code <= 57) || chars[i] == '-') {
            proof {
                assert(!format_char(format@[i as int]));
            }
            return Err(ArtifactCodecError::InvalidFormat(format.to_owned()));
        }
        i = i + 1;
    }
    Ok(())
}

/// A control character.
pub open spec fn control(c: char) -> bool {
    c as u32 <= 0x1f || 0x7f <= c as u32 <= 0x9f
}

/// A step of a path that names something below.
pub open spec fn is_step(step: Seq<char>) -> bool {
    step.len() > 0 && step != "."@ && step != ".."@
}

/// The steps of a path from position `from` on each name something below.
pub open spec fn steps_down(path: Seq<char>, from: int) -> bool
    decreases path.len() - from,
{
    if from < 0 || from > path.len() {
        false
    } else {
        let at = next_char(path, '/', from);
        is_step(path.subrange(from, at)) && (from <= at < path.len() ==> steps_down(path, at + 1))
    }
}

/// The path of a file within a bundle.
pub open spec fn is_logical_path(path: Seq<char>) -> bool {
    &&& path.len() > 0
    &&& encode_utf8(path).len() <= MAX_CODEC_LOGICAL_PATH_BYTES
    &&& steps_down(path, 0)
    &&& forall|i: int|
        0 <= i < path.len() ==> #[trigger] path[i] != '\\' && !control(path[i])
}

fn check_step(chars: &Vec<char>, from: usize, to: usize) -> (r: bool)
    requires
        from <= to <= chars@.len(),
    ensures
        r == is_step(chars@.subrange(from as int, to as int)),
{
    let step = from_range(chars, from, to);
    from < to && !text::same(step.as_str(), ".") && !text::same(step.as_str(), "..")
}

pub(crate) fn check_steps(chars: &Vec<char>) -> (r: bool)
    ensures
        r == steps_down(chars@, 0),
{
    let mut from: usize = 0;
    loop
        invariant
            from <= chars@.len(),
            steps_down(chars@, 0) == steps_down(chars@, from as int),
        decreases chars@.len() - from,
    {
        let at: usize = find_char(chars, '/', from);
        if !check_step(chars, from, at) {
            return false;
        }
        if at >= chars.len() {
            return true;
        }
        from = at + 1;
    }
}

/// Checks the path of a file within a bundle.
pub fn validate_codec_logical_path(path: &str) -> (r: Result<(), ArtifactCodecError>)
    ensures
        match r {
            Ok(()) => is_logical_path(path@),
            Err(ArtifactCodecError::InvalidLogicalPath(p)) => !is_logical_path(path@) && p@
                == path@,
            Err(_) => false,
        },
{
    let chars = to_chars(path);
    if chars.len() == 0 || path.as_bytes().len() > MAX_CODEC_LOGICAL_PATH_BYTES || !check_steps(
        &chars,
    ) {
        return Err(ArtifactCodecError::InvalidLogicalPath(path.to_owned()));
    }
    let mut i: usize = 0;
    while i < chars.len()
        invariant
            i <= chars@.len(),
            chars@ == path@,
            forall|j: int|
                0 <= j < i ==> #[trigger] path@[j] != '\\' && !control(path@[j]),
        decreases chars@.len() - i,
    {
        let code: u32 = chars[i] as u32;
        if chars[i] == '\\' || code <= 0x1f || (0x7f <= code && code <= 0x9f) {
            proof {
                assert(path@[i as int] == '\\' || control(path@[i as int]));
            }
            return Err(ArtifactCodecError::InvalidLogicalPath(path.to_owned()));
        }
        i = i + 1;
    }
    Ok(())
}

/// The path of a file within a bundle does not start at a root.
pub proof fn law_logical_paths_are_relative(path: Seq<char>)
    requires
        is_logical_path(path),
    ensures
        path[0] != '/',
{
    lemma_next_char(path, '/', 0);
    let at = next_char(path, '/', 0);
    if path[0] == '/' {
        assert(at == 0);
        assert(path.subrange(0, 0).len() == 0);
    }
}

} // verus!
