//! Taking over what a codec makes of a file: an artifact with what belongs to
//! it, checked before anything of it is kept.
use vstd::prelude::*;
use vstd::utf8::encode_utf8;

use crate::artifact::kind::{
    ArtifactError, ArtifactKind, decode_artifact_payload, DecodedArtifact, greetings_of,
    is_decoding, JsonFault, kind_name, kind_of,
};
use crate::artifact::validate::{
    card_v3_error, is_lorebook, missing_asset, validate_character_card_v3,
    validate_embedded_asset_references, validate_lorebook,
};
use crate::artifact_codec::{
    ArtifactCodecAsset, ArtifactCodecBundle, ArtifactCodecError, ArtifactCodecSupplementary,
    base64_decoded, base64_encoded, base64_reads, CodecQuestion, decode_base64, encode_base64,
    is_format, is_logical_path, MAX_CODEC_ASSET_BYTES, MAX_CODEC_ASSETS, MAX_CODEC_PAYLOAD_BYTES,
    MAX_CODEC_SUPPLEMENTARY_ARTIFACTS, MAX_CODEC_TOTAL_ASSET_BYTES,
    MAX_CODEC_TOTAL_SUPPLEMENTARY_BYTES, validate_codec_format, validate_codec_logical_path,
};
use crate::capsule::{at_hand, check_at_hand};
use crate::identity::{
    artifact_revision_hash, compact_of, compact_text, ContentHash, revision_hash_of, sha256,
    sha256_of,
};
use crate::json::{field, Json, JsonView};
use crate::lore::groups::index_views;
use crate::text::{self, contains_text, lemma_views_push, views};

verus! {

/// The replies that a caller has given so far, each list in the order of the
/// questions: the JSON values of payloads, and why assets may not be kept. The
/// revisions are those that the store keeps.
#[derive(Debug)]
pub struct CodecReplies {
    pub parses: Vec<Result<Json, JsonFault>>,
    pub refusals: Vec<Option<String>>,
    pub revisions: Vec<ContentHash>,
}

/// A file to be kept.
#[derive(Clone, Debug)]
pub struct AssetImport {
    pub logical_path: String,
    pub bytes: Vec<u8>,
}

/// An artifact to be kept beside another.
#[derive(Debug)]
pub struct SupplementaryImport {
    pub logical_path: String,
    pub source_format: String,
    pub bytes: Vec<u8>,
    pub decoded: DecodedArtifact,
}

/// An artifact to be kept, with what belongs to it.
#[derive(Debug)]
pub struct CodecImport {
    pub payload: Vec<u8>,
    pub decoded: DecodedArtifact,
    pub assets: Vec<AssetImport>,
    pub supplementary: Vec<SupplementaryImport>,
    pub revision_hash: ContentHash,
}

/// What stops an import.
pub enum CodecFault {
    Error(ArtifactCodecError),
    Format(Seq<char>),
    Path(Seq<char>),
    Base64(&'static str, Seq<char>),
    Undecodable(Result<Json, JsonFault>),
    MissingAsset(Seq<char>),
    Parsing(Seq<u8>),
    Keeping(Seq<u8>),
}

/// The error is the one that a fault gives.
pub open spec fn is_codec_error(error: ArtifactCodecError, fault: CodecFault) -> bool {
    match fault {
        CodecFault::Error(e) => error == e,
        CodecFault::Format(format) => error matches ArtifactCodecError::InvalidFormat(f) && f@
            == format,
        CodecFault::Path(path) => error matches ArtifactCodecError::InvalidLogicalPath(p) && p@
            == path,
        CodecFault::Base64(part, message) => error matches ArtifactCodecError::InvalidBase64 {
            field,
            source,
        } && field == part && source@ == message,
        CodecFault::Undecodable(parsed) => error matches ArtifactCodecError::Artifact(e)
            && is_decoding(Err(e), parsed),
        CodecFault::MissingAsset(path) => error matches ArtifactCodecError::Artifact(
            ArtifactError::MissingDeclaredAsset(p),
        ) && p@ == path,
        CodecFault::Parsing(payload) => error matches ArtifactCodecError::Unanswered(
            CodecQuestion::Parsing { bytes },
        ) && bytes@ == payload,
        CodecFault::Keeping(asset) => error matches ArtifactCodecError::Unanswered(
            CodecQuestion::Keeping { bytes },
        ) && bytes@ == asset,
    }
}

/// The format in which a source of a format is kept, where that is fixed.
pub open spec fn kept_format(format: Seq<char>) -> Option<Seq<char>> {
    if format == "json"@ || format == "charx"@ {
        Some("json"@)
    } else if format == "png"@ || format == "apng"@ {
        Some("png"@)
    } else if format == "webp"@ {
        Some("webp"@)
    } else {
        None
    }
}

/// What is wrong with the outline of a bundle, if anything is.
pub open spec fn outline_fault(bundle: ArtifactCodecBundle, format: Seq<char>) -> Option<
    CodecFault,
> {
    if !is_format(bundle.source_format@) {
        Some(CodecFault::Format(bundle.source_format@))
    } else if !is_format(format) {
        Some(CodecFault::Format(format))
    } else if kept_format(format) is Some && kept_format(format)->0 != bundle.source_format@ {
        Some(CodecFault::Error(ArtifactCodecError::InvalidFormat(bundle.source_format)))
    } else if bundle.assets@.len() > MAX_CODEC_ASSETS {
        Some(
            CodecFault::Error(
                ArtifactCodecError::AssetCount {
                    actual: bundle.assets@.len() as usize,
                    limit: MAX_CODEC_ASSETS,
                },
            ),
        )
    } else if bundle.supplementary_artifacts@.len() > MAX_CODEC_SUPPLEMENTARY_ARTIFACTS {
        Some(
            CodecFault::Error(
                ArtifactCodecError::SupplementaryArtifactCount {
                    actual: bundle.supplementary_artifacts@.len() as usize,
                    limit: MAX_CODEC_SUPPLEMENTARY_ARTIFACTS,
                },
            ),
        )
    } else {
        None
    }
}

fn check_kept_format(format: &str, source_format: &str) -> (r: bool)
    ensures
        r == (kept_format(format@) is Some ==> kept_format(format@)->0 == source_format@),
{
    if text::same(format, "json") || text::same(format, "charx") {
        text::same(source_format, "json")
    } else if text::same(format, "png") || text::same(format, "apng") {
        text::same(source_format, "png")
    } else if text::same(format, "webp") {
        text::same(source_format, "webp")
    } else {
        true
    }
}

fn check_outline(bundle: &ArtifactCodecBundle, format: &str) -> (r: Result<(), ArtifactCodecError>)
    ensures
        match (r, outline_fault(*bundle, format@)) {
            (Ok(()), None) => true,
            (Err(e), Some(fault)) => is_codec_error(e, fault),
            _ => false,
        },
{
    match validate_codec_format(bundle.source_format.as_str()) {
        Ok(()) => {},
        Err(e) => return Err(e),
    }
    match validate_codec_format(format) {
        Ok(()) => {},
        Err(e) => return Err(e),
    }
    if !check_kept_format(format, bundle.source_format.as_str()) {
        return Err(ArtifactCodecError::InvalidFormat(bundle.source_format.clone()));
    }
    let assets: usize = bundle.assets.len();
    if assets > MAX_CODEC_ASSETS {
        return Err(ArtifactCodecError::AssetCount { actual: assets, limit: MAX_CODEC_ASSETS });
    }
    let others: usize = bundle.supplementary_artifacts.len();
    if others > MAX_CODEC_SUPPLEMENTARY_ARTIFACTS {
        return Err(
            ArtifactCodecError::SupplementaryArtifactCount {
                actual: others,
                limit: MAX_CODEC_SUPPLEMENTARY_ARTIFACTS,
            },
        );
    }
    Ok(())
}

/// The kind and the value of an artifact, or what is wrong with it.
pub open spec fn decoded_of(parsed: Result<Json, JsonFault>) -> Result<
    (ArtifactKind, JsonView),
    CodecFault,
> {
    match parsed {
        Ok(semantic) => if semantic@ is Object && kind_of(semantic@) is Ok {
            Ok((kind_of(semantic@)->Ok_0, semantic@))
        } else {
            Err(CodecFault::Undecodable(parsed))
        },
        Err(_) => Err(CodecFault::Undecodable(parsed)),
    }
}

/// The artifact of a payload is of the kind that was proposed, or else what is
/// wrong with it.
pub open spec fn proposed_artifact(
    parses: Seq<Result<Json, JsonFault>>,
    asked: int,
    payload: Seq<u8>,
    proposed: ArtifactKind,
) -> Result<(ArtifactKind, JsonView), CodecFault> {
    if asked >= parses.len() {
        Err(CodecFault::Parsing(payload))
    } else {
        match decoded_of(parses[asked]) {
            Ok((kind, semantic)) => if kind != proposed {
                Err(
                    CodecFault::Error(
                        ArtifactCodecError::ArtifactKindMismatch { proposed, actual: kind },
                    ),
                )
            } else {
                Ok((kind, semantic))
            },
            Err(fault) => Err(fault),
        }
    }
}

/// The decoded artifact is of that kind and value.
pub open spec fn is_artifact(decoded: DecodedArtifact, kind: ArtifactKind, semantic: JsonView) -> bool {
    &&& decoded.kind == kind
    &&& decoded.semantic@ == semantic
    &&& views(decoded.greetings@) == greetings_of(semantic, kind)
}

pub(crate) fn copy_parse(parsed: &Result<Json, JsonFault>) -> (copy: Result<Json, JsonFault>)
    ensures
        match (*parsed, copy) {
            (Ok(a), Ok(b)) => a@ == b@,
            (Err(a), Err(b)) => a.path == b.path && a.message == b.message,
            _ => false,
        },
{
    match parsed {
        Ok(value) => Ok(value.copy()),
        Err(fault) => Err(
            JsonFault { path: fault.path.clone(), message: fault.message.clone() },
        ),
    }
}

pub(crate) fn copy_bytes(bytes: &Vec<u8>) -> (copy: Vec<u8>)
    ensures
        copy@ == bytes@,
{
    let mut copy: Vec<u8> = Vec::new();
    let mut i: usize = 0;
    while i < bytes.len()
        invariant
            i <= bytes@.len(),
            copy@ == bytes@.take(i as int),
        decreases bytes@.len() - i,
    {
        copy.push(bytes[i]);
        i = i + 1;
        proof {
            assert(copy@ =~= bytes@.take(i as int));
        }
    }
    proof {
        assert(bytes@.take(bytes@.len() as int) =~= bytes@);
    }
    copy
}

fn decode_proposed(
    parses: &Vec<Result<Json, JsonFault>>,
    asked: usize,
    payload: &Vec<u8>,
    proposed: ArtifactKind,
) -> (r: Result<DecodedArtifact, ArtifactCodecError>)
    ensures
        match (r, proposed_artifact(parses@, asked as int, payload@, proposed)) {
            (Ok(decoded), Ok((kind, semantic))) => is_artifact(decoded, kind, semantic),
            (Err(e), Err(fault)) => is_codec_error(e, fault),
            _ => false,
        },
{
    if asked >= parses.len() {
        return Err(
            ArtifactCodecError::Unanswered(CodecQuestion::Parsing { bytes: copy_bytes(payload) }),
        );
    }
    let parsed = copy_parse(&parses[asked]);
    match decode_artifact_payload(parsed) {
        Ok(decoded) => {
            if decoded.kind != proposed {
                return Err(
                    ArtifactCodecError::ArtifactKindMismatch { proposed, actual: decoded.kind },
                );
            }
            Ok(decoded)
        },
        Err(e) => Err(ArtifactCodecError::Artifact(e)),
    }
}

/// The payload of a bundle, or what is wrong with it.
pub open spec fn payload_of(bundle: ArtifactCodecBundle) -> Result<Seq<u8>, CodecFault> {
    match base64_decoded(bundle.payload@) {
        Err(message) => Err(CodecFault::Base64("payload", message)),
        Ok(payload) => if payload.len() > MAX_CODEC_PAYLOAD_BYTES {
            Err(
                CodecFault::Error(
                    ArtifactCodecError::PayloadSize {
                        actual: payload.len() as usize,
                        limit: MAX_CODEC_PAYLOAD_BYTES,
                    },
                ),
            )
        } else if sha256_of(payload) != bundle.payload_sha256@ {
            Err(CodecFault::Error(ArtifactCodecError::HashMismatch { field: "payload" }))
        } else {
            Ok(payload)
        },
    }
}

fn check_digest(bytes: &Vec<u8>, expected: &ContentHash) -> (r: bool)
    ensures
        r == (sha256_of(bytes@) == expected@),
{
    ContentHash::new(sha256(bytes)).same(expected)
}

fn open_payload(bundle: &ArtifactCodecBundle) -> (r: Result<Vec<u8>, ArtifactCodecError>)
    ensures
        match (r, payload_of(*bundle)) {
            (Ok(bytes), Ok(payload)) => bytes@ == payload,
            (Err(e), Err(fault)) => is_codec_error(e, fault),
            _ => false,
        },
{
    let payload = match decode_base64(bundle.payload.as_str()) {
        Ok(payload) => payload,
        Err(source) => {
            return Err(ArtifactCodecError::InvalidBase64 { field: "payload", source });
        },
    };
    let size: usize = payload.len();
    if size > MAX_CODEC_PAYLOAD_BYTES {
        return Err(
            ArtifactCodecError::PayloadSize { actual: size, limit: MAX_CODEC_PAYLOAD_BYTES },
        );
    }
    if !check_digest(&payload, &bundle.payload_sha256) {
        return Err(ArtifactCodecError::HashMismatch { field: "payload" });
    }
    Ok(payload)
}

/// The abstract value of an [`AssetImport`].
pub struct AssetView {
    pub path: Seq<char>,
    pub bytes: Seq<u8>,
}

/// The abstract values of files.
pub open spec fn asset_views(assets: Seq<AssetImport>) -> Seq<AssetView> {
    Seq::new(
        assets.len(),
        |i: int| AssetView { path: assets[i].logical_path@, bytes: assets[i].bytes@ },
    )
}

/// The paths of files.
pub open spec fn asset_paths(assets: Seq<AssetView>) -> Seq<Seq<char>> {
    Seq::new(assets.len(), |i: int| assets[i].path)
}

/// The bytes of a file behind others, or what is wrong with it.
pub open spec fn asset_of(
    asset: ArtifactCodecAsset,
    paths: Seq<Seq<char>>,
    total: nat,
    refusals: Seq<Option<String>>,
) -> Result<Seq<u8>, CodecFault> {
    if !is_logical_path(asset.logical_path@) {
        Err(CodecFault::Path(asset.logical_path@))
    } else if paths.contains(asset.logical_path@) {
        Err(CodecFault::Error(ArtifactCodecError::DuplicateLogicalPath(asset.logical_path)))
    } else {
        match base64_decoded(asset.bytes@) {
            Err(message) => Err(CodecFault::Base64("asset", message)),
            Ok(bytes) => if bytes.len() != asset.byte_size {
                Err(
                    CodecFault::Error(
                        ArtifactCodecError::ByteSizeMismatch {
                            path: asset.logical_path,
                            proposed: asset.byte_size,
                            actual: bytes.len() as usize,
                        },
                    ),
                )
            } else if bytes.len() > MAX_CODEC_ASSET_BYTES {
                Err(
                    CodecFault::Error(
                        ArtifactCodecError::AssetSize {
                            path: asset.logical_path,
                            actual: bytes.len() as usize,
                            limit: MAX_CODEC_ASSET_BYTES,
                        },
                    ),
                )
            } else if total + bytes.len() > MAX_CODEC_TOTAL_ASSET_BYTES {
                Err(
                    CodecFault::Error(
                        ArtifactCodecError::TotalAssetSize {
                            actual: (total + bytes.len()) as usize,
                            limit: MAX_CODEC_TOTAL_ASSET_BYTES,
                        },
                    ),
                )
            } else if sha256_of(bytes) != asset.sha256@ {
                Err(CodecFault::Error(ArtifactCodecError::HashMismatch { field: "asset" }))
            } else if paths.len() >= refusals.len() {
                Err(CodecFault::Keeping(bytes))
            } else {
                match refusals[paths.len() as int] {
                    Some(reason) => Err(
                        CodecFault::Error(
                            ArtifactCodecError::Artifact(ArtifactError::Storage(reason)),
                        ),
                    ),
                    None => Ok(bytes),
                }
            },
        }
    }
}

/// The files of a bundle from place `i` on behind others, or what is wrong with
/// the first that is not to be kept.
pub open spec fn assets_from(
    assets: Seq<ArtifactCodecAsset>,
    i: int,
    kept: Seq<AssetView>,
    total: nat,
    refusals: Seq<Option<String>>,
) -> Result<Seq<AssetView>, CodecFault>
    decreases assets.len() - i,
{
    if i < 0 || i >= assets.len() {
        Ok(kept)
    } else {
        match asset_of(assets[i], asset_paths(kept), total, refusals) {
            Ok(bytes) => assets_from(
                assets,
                i + 1,
                kept.push(AssetView { path: assets[i].logical_path@, bytes }),
                total + bytes.len(),
                refusals,
            ),
            Err(fault) => Err(fault),
        }
    }
}

fn open_asset(
    asset: &ArtifactCodecAsset,
    paths: &Vec<String>,
    total: usize,
    refusals: &Vec<Option<String>>,
) -> (r: Result<Vec<u8>, ArtifactCodecError>)
    requires
        total <= MAX_CODEC_TOTAL_ASSET_BYTES,
    ensures
        match (r, asset_of(*asset, views(paths@), total as nat, refusals@)) {
            (Ok(list), Ok(bytes)) => list@ == bytes && total + bytes.len()
                <= MAX_CODEC_TOTAL_ASSET_BYTES,
            (Err(e), Err(fault)) => is_codec_error(e, fault),
            _ => false,
        },
{
    match validate_codec_logical_path(asset.logical_path.as_str()) {
        Ok(()) => {},
        Err(e) => return Err(e),
    }
    if contains_text(paths, asset.logical_path.as_str()) {
        return Err(ArtifactCodecError::DuplicateLogicalPath(asset.logical_path.clone()));
    }
    let bytes = match decode_base64(asset.bytes.as_str()) {
        Ok(bytes) => bytes,
        Err(source) => return Err(ArtifactCodecError::InvalidBase64 { field: "asset", source }),
    };
    let size: usize = bytes.len();
    if size != asset.byte_size {
        return Err(
            ArtifactCodecError::ByteSizeMismatch {
                path: asset.logical_path.clone(),
                proposed: asset.byte_size,
                actual: size,
            },
        );
    }
    if size > MAX_CODEC_ASSET_BYTES {
        return Err(
            ArtifactCodecError::AssetSize {
                path: asset.logical_path.clone(),
                actual: size,
                limit: MAX_CODEC_ASSET_BYTES,
            },
        );
    }
    if total + size > MAX_CODEC_TOTAL_ASSET_BYTES {
        return Err(
            ArtifactCodecError::TotalAssetSize {
                actual: total + size,
                limit: MAX_CODEC_TOTAL_ASSET_BYTES,
            },
        );
    }
    if !check_digest(&bytes, &asset.sha256) {
        return Err(ArtifactCodecError::HashMismatch { field: "asset" });
    }
    proof {
        assert(views(paths@).len() == paths@.len());
    }
    if paths.len() >= refusals.len() {
        return Err(ArtifactCodecError::Unanswered(CodecQuestion::Keeping { bytes }));
    }
    match &refusals[paths.len()] {
        Some(reason) => Err(ArtifactCodecError::Artifact(ArtifactError::Storage(reason.clone()))),
        None => Ok(bytes),
    }
}

fn open_assets(assets: &Vec<ArtifactCodecAsset>, refusals: &Vec<Option<String>>) -> (r: Result<
    (Vec<AssetImport>, Vec<String>),
    ArtifactCodecError,
>)
    ensures
        match (r, assets_from(assets@, 0, Seq::empty(), 0, refusals@)) {
            (Ok((list, paths)), Ok(kept)) => asset_views(list@) == kept && views(paths@)
                == asset_paths(kept),
            (Err(e), Err(fault)) => is_codec_error(e, fault),
            _ => false,
        },
{
    let mut list: Vec<AssetImport> = Vec::new();
    let mut paths: Vec<String> = Vec::new();
    let mut total: usize = 0;
    let mut i: usize = 0;
    proof {
        assert(asset_views(list@) =~= Seq::<AssetView>::empty());
        assert(views(paths@) =~= asset_paths(asset_views(list@)));
    }
    while i < assets.len()
        invariant
            i <= assets@.len(),
            total <= MAX_CODEC_TOTAL_ASSET_BYTES,
            views(paths@) == asset_paths(asset_views(list@)),
            assets_from(assets@, 0, Seq::empty(), 0, refusals@) == assets_from(
                assets@,
                i as int,
                asset_views(list@),
                total as nat,
                refusals@,
            ),
        decreases assets@.len() - i,
    {
        let asset = &assets[i];
        match open_asset(asset, &paths, total, refusals) {
            Ok(bytes) => {
                total = total + bytes.len();
                let ghost before = list@;
                let ghost before_paths = paths@;
                let ghost content = bytes@;
                paths.push(asset.logical_path.clone());
                list.push(AssetImport { logical_path: asset.logical_path.clone(), bytes });
                proof {
                    assert(asset_views(list@) =~= asset_views(before).push(
                        AssetView { path: asset.logical_path@, bytes: content },
                    ));
                    lemma_views_push(before_paths, asset.logical_path);
                    assert(views(paths@) =~= asset_paths(asset_views(list@)));
                }
            },
            Err(e) => return Err(e),
        }
        i = i + 1;
    }
    Ok((list, paths))
}

/// The abstract value of a [`SupplementaryImport`].
pub struct SupplementaryView {
    pub path: Seq<char>,
    pub format: Seq<char>,
    pub bytes: Seq<u8>,
    pub kind: ArtifactKind,
    pub semantic: JsonView,
}

/// The artifacts to be kept are those described.
pub open spec fn are_supplementary(
    list: Seq<SupplementaryImport>,
    views: Seq<SupplementaryView>,
) -> bool {
    &&& list.len() == views.len()
    &&& forall|i: int|
        0 <= i < list.len() ==> {
            &&& (#[trigger] list[i]).logical_path@ == views[i].path
            &&& list[i].source_format@ == views[i].format
            &&& list[i].bytes@ == views[i].bytes
            &&& is_artifact(list[i].decoded, views[i].kind, views[i].semantic)
        }
}

/// The paths of artifacts.
pub open spec fn supplementary_paths(kept: Seq<SupplementaryView>) -> Seq<Seq<char>> {
    Seq::new(kept.len(), |i: int| kept[i].path)
}

/// The bytes of an artifact behind others, or what is wrong with them.
pub open spec fn supplementary_bytes(
    artifact: ArtifactCodecSupplementary,
    paths: Seq<Seq<char>>,
    taken: Seq<Seq<char>>,
    total: nat,
) -> Result<Seq<u8>, CodecFault> {
    if !is_logical_path(artifact.logical_path@) {
        Err(CodecFault::Path(artifact.logical_path@))
    } else if paths.contains(artifact.logical_path@) || taken.contains(artifact.logical_path@) {
        Err(CodecFault::Error(ArtifactCodecError::DuplicateLogicalPath(artifact.logical_path)))
    } else if artifact.source_format@ != "json"@ {
        Err(CodecFault::Error(ArtifactCodecError::InvalidFormat(artifact.source_format)))
    } else {
        match base64_decoded(artifact.payload@) {
            Err(message) => Err(CodecFault::Base64("supplementary artifact", message)),
            Ok(bytes) => if bytes.len() > MAX_CODEC_PAYLOAD_BYTES {
                Err(
                    CodecFault::Error(
                        ArtifactCodecError::PayloadSize {
                            actual: bytes.len() as usize,
                            limit: MAX_CODEC_PAYLOAD_BYTES,
                        },
                    ),
                )
            } else if bytes.len() != artifact.byte_size {
                Err(
                    CodecFault::Error(
                        ArtifactCodecError::ByteSizeMismatch {
                            path: artifact.logical_path,
                            proposed: artifact.byte_size,
                            actual: bytes.len() as usize,
                        },
                    ),
                )
            } else if sha256_of(bytes) != artifact.payload_sha256@ {
                Err(
                    CodecFault::Error(
                        ArtifactCodecError::HashMismatch { field: "supplementary artifact" },
                    ),
                )
            } else if total + bytes.len() > MAX_CODEC_TOTAL_SUPPLEMENTARY_BYTES {
                Err(
                    CodecFault::Error(
                        ArtifactCodecError::TotalSupplementarySize {
                            actual: (total + bytes.len()) as usize,
                            limit: MAX_CODEC_TOTAL_SUPPLEMENTARY_BYTES,
                        },
                    ),
                )
            } else {
                Ok(bytes)
            },
        }
    }
}

/// An artifact behind others, or what is wrong with it. In a `charx` file it has
/// to be a lorebook.
pub open spec fn supplementary_of(
    artifact: ArtifactCodecSupplementary,
    paths: Seq<Seq<char>>,
    taken: Seq<Seq<char>>,
    total: nat,
    parses: Seq<Result<Json, JsonFault>>,
    charx: bool,
) -> Result<SupplementaryView, CodecFault> {
    match supplementary_bytes(artifact, paths, taken, total) {
        Err(fault) => Err(fault),
        Ok(bytes) => match proposed_artifact(
            parses,
            paths.len() as int + 1,
            bytes,
            artifact.artifact_kind,
        ) {
            Err(fault) => Err(fault),
            Ok((kind, semantic)) => if charx && !is_lorebook(kind, semantic) {
                Err(
                    CodecFault::Error(
                        ArtifactCodecError::Artifact(ArtifactError::LorebookRequired),
                    ),
                )
            } else {
                Ok(
                    SupplementaryView {
                        path: artifact.logical_path@,
                        format: artifact.source_format@,
                        bytes,
                        kind,
                        semantic,
                    },
                )
            },
        },
    }
}

/// The artifacts of a bundle from place `i` on behind others, or what is wrong
/// with the first that is not to be kept.
pub open spec fn supplementary_from(
    artifacts: Seq<ArtifactCodecSupplementary>,
    i: int,
    kept: Seq<SupplementaryView>,
    taken: Seq<Seq<char>>,
    total: nat,
    parses: Seq<Result<Json, JsonFault>>,
    charx: bool,
) -> Result<Seq<SupplementaryView>, CodecFault>
    decreases artifacts.len() - i,
{
    if i < 0 || i >= artifacts.len() {
        Ok(kept)
    } else {
        match supplementary_of(
            artifacts[i],
            supplementary_paths(kept),
            taken,
            total,
            parses,
            charx,
        ) {
            Ok(view) => supplementary_from(
                artifacts,
                i + 1,
                kept.push(view),
                taken,
                total + view.bytes.len(),
                parses,
                charx,
            ),
            Err(fault) => Err(fault),
        }
    }
}

fn open_supplementary_bytes(
    artifact: &ArtifactCodecSupplementary,
    paths: &Vec<String>,
    taken: &Vec<String>,
    total: usize,
) -> (r: Result<Vec<u8>, ArtifactCodecError>)
    requires
        total <= MAX_CODEC_TOTAL_SUPPLEMENTARY_BYTES,
    ensures
        match (r, supplementary_bytes(*artifact, views(paths@), views(taken@), total as nat)) {
            (Ok(list), Ok(bytes)) => list@ == bytes && total + bytes.len()
                <= MAX_CODEC_TOTAL_SUPPLEMENTARY_BYTES,
            (Err(e), Err(fault)) => is_codec_error(e, fault),
            _ => false,
        },
{
    match validate_codec_logical_path(artifact.logical_path.as_str()) {
        Ok(()) => {},
        Err(e) => return Err(e),
    }
    if contains_text(paths, artifact.logical_path.as_str()) || contains_text(
        taken,
        artifact.logical_path.as_str(),
    ) {
        return Err(ArtifactCodecError::DuplicateLogicalPath(artifact.logical_path.clone()));
    }
    if !text::same(artifact.source_format.as_str(), "json") {
        return Err(ArtifactCodecError::InvalidFormat(artifact.source_format.clone()));
    }
    let bytes = match decode_base64(artifact.payload.as_str()) {
        Ok(bytes) => bytes,
        Err(source) => {
            return Err(
                ArtifactCodecError::InvalidBase64 { field: "supplementary artifact", source },
            );
        },
    };
    let size: usize = bytes.len();
    if size > MAX_CODEC_PAYLOAD_BYTES {
        return Err(
            ArtifactCodecError::PayloadSize { actual: size, limit: MAX_CODEC_PAYLOAD_BYTES },
        );
    }
    if size != artifact.byte_size {
        return Err(
            ArtifactCodecError::ByteSizeMismatch {
                path: artifact.logical_path.clone(),
                proposed: artifact.byte_size,
                actual: size,
            },
        );
    }
    if !check_digest(&bytes, &artifact.payload_sha256) {
        return Err(ArtifactCodecError::HashMismatch { field: "supplementary artifact" });
    }
    if total + size > MAX_CODEC_TOTAL_SUPPLEMENTARY_BYTES {
        return Err(
            ArtifactCodecError::TotalSupplementarySize {
                actual: total + size,
                limit: MAX_CODEC_TOTAL_SUPPLEMENTARY_BYTES,
            },
        );
    }
    Ok(bytes)
}

fn open_supplementary(
    artifact: &ArtifactCodecSupplementary,
    paths: &Vec<String>,
    taken: &Vec<String>,
    total: usize,
    parses: &Vec<Result<Json, JsonFault>>,
    charx: bool,
) -> (r: Result<SupplementaryImport, ArtifactCodecError>)
    requires
        total <= MAX_CODEC_TOTAL_SUPPLEMENTARY_BYTES,
        paths@.len() < usize::MAX,
    ensures
        match (
            r,
            supplementary_of(
                *artifact,
                views(paths@),
                views(taken@),
                total as nat,
                parses@,
                charx,
            ),
        ) {
            (Ok(import), Ok(view)) => {
                &&& import.logical_path@ == view.path
                &&& import.source_format@ == view.format
                &&& import.bytes@ == view.bytes
                &&& is_artifact(import.decoded, view.kind, view.semantic)
                &&& total + view.bytes.len() <= MAX_CODEC_TOTAL_SUPPLEMENTARY_BYTES
            },
            (Err(e), Err(fault)) => is_codec_error(e, fault),
            _ => false,
        },
{
    let bytes = match open_supplementary_bytes(artifact, paths, taken, total) {
        Ok(bytes) => bytes,
        Err(e) => return Err(e),
    };
    proof {
        assert(views(paths@).len() == paths@.len());
    }
    let decoded = match decode_proposed(
        parses,
        paths.len() + 1,
        &bytes,
        artifact.artifact_kind,
    ) {
        Ok(decoded) => decoded,
        Err(e) => return Err(e),
    };
    if charx {
        match validate_lorebook(&decoded) {
            Ok(()) => {},
            Err(e) => return Err(ArtifactCodecError::Artifact(e)),
        }
    }
    Ok(
        SupplementaryImport {
            logical_path: artifact.logical_path.clone(),
            source_format: artifact.source_format.clone(),
            bytes,
            decoded,
        },
    )
}

fn open_all_supplementary(
    artifacts: &Vec<ArtifactCodecSupplementary>,
    taken: &Vec<String>,
    parses: &Vec<Result<Json, JsonFault>>,
    charx: bool,
) -> (r: Result<Vec<SupplementaryImport>, ArtifactCodecError>)
    requires
        artifacts@.len() <= MAX_CODEC_SUPPLEMENTARY_ARTIFACTS,
    ensures
        match (
            r,
            supplementary_from(
                artifacts@,
                0,
                Seq::empty(),
                views(taken@),
                0,
                parses@,
                charx,
            ),
        ) {
            (Ok(list), Ok(kept)) => are_supplementary(list@, kept),
            (Err(e), Err(fault)) => is_codec_error(e, fault),
            _ => false,
        },
{
    let mut list: Vec<SupplementaryImport> = Vec::new();
    let mut paths: Vec<String> = Vec::new();
    let mut total: usize = 0;
    let mut i: usize = 0;
    let ghost mut kept: Seq<SupplementaryView> = Seq::empty();
    proof {
        assert(views(paths@) =~= supplementary_paths(kept));
    }
    while i < artifacts.len()
        invariant
            i <= artifacts@.len() <= MAX_CODEC_SUPPLEMENTARY_ARTIFACTS,
            paths@.len() == i,
            total <= MAX_CODEC_TOTAL_SUPPLEMENTARY_BYTES,
            views(paths@) == supplementary_paths(kept),
            are_supplementary(list@, kept),
            supplementary_from(
                artifacts@,
                0,
                Seq::empty(),
                views(taken@),
                0,
                parses@,
                charx,
            ) == supplementary_from(
                artifacts@,
                i as int,
                kept,
                views(taken@),
                total as nat,
                parses@,
                charx,
            ),
        decreases artifacts@.len() - i,
    {
        let artifact = &artifacts[i];
        match open_supplementary(artifact, &paths, taken, total, parses, charx) {
            Ok(import) => {
                let ghost before = paths@;
                let ghost view = supplementary_of(
                    *artifact,
                    views(paths@),
                    views(taken@),
                    total as nat,
                    parses@,
                    charx,
                )->Ok_0;
                total = total + import.bytes.len();
                paths.push(artifact.logical_path.clone());
                list.push(import);
                proof {
                    kept = kept.push(view);
                    lemma_views_push(before, artifact.logical_path);
                    assert(views(paths@) =~= supplementary_paths(kept));
                }
            },
            Err(e) => return Err(e),
        }
        i = i + 1;
    }
    Ok(list)
}

/// The places of those of the first `count` artifacts that are said to stand in
/// the card too.
pub open spec fn claims(artifacts: Seq<ArtifactCodecSupplementary>, count: int) -> Seq<int>
    decreases count,
{
    if count <= 0 {
        Seq::empty()
    } else if artifacts[count - 1].embedded {
        claims(artifacts, count - 1).push(count - 1)
    } else {
        claims(artifacts, count - 1)
    }
}

/// The book within a card.
pub open spec fn embedded_book(semantic: JsonView) -> Option<JsonView> {
    match field(semantic, "data"@) {
        Some(data) => field(data, "character_book"@),
        None => None,
    }
}

/// What is wrong with what is said to stand in the card too, if anything is: it
/// has to be the book within the card, where there is one, and nothing else.
pub open spec fn claim_fault(
    semantic: JsonView,
    artifacts: Seq<ArtifactCodecSupplementary>,
    kept: Seq<SupplementaryView>,
) -> Option<CodecFault> {
    let claimed = claims(artifacts, artifacts.len() as int);
    match embedded_book(semantic) {
        Some(book) => match compact_of(book) {
            None => Some(
                CodecFault::Error(ArtifactCodecError::Artifact(ArtifactError::Canonicalize)),
            ),
            Some(compact) => if claimed.len() == 1 && kept[claimed[0]].bytes == encode_utf8(
                compact,
            ) {
                None
            } else {
                Some(CodecFault::Error(ArtifactCodecError::InvalidEmbeddedSupplementary))
            },
        },
        None => if claimed.len() == 0 {
            None
        } else {
            Some(CodecFault::Error(ArtifactCodecError::InvalidEmbeddedSupplementary))
        },
    }
}

fn collect_claims(artifacts: &Vec<ArtifactCodecSupplementary>) -> (list: Vec<usize>)
    ensures
        index_views(list@) == claims(artifacts@, artifacts@.len() as int),
        forall|i: int| 0 <= i < list@.len() ==> #[trigger] list@[i] < artifacts@.len(),
{
    let mut list: Vec<usize> = Vec::new();
    let mut i: usize = 0;
    proof {
        assert(index_views(list@) =~= Seq::<int>::empty());
    }
    while i < artifacts.len()
        invariant
            i <= artifacts@.len(),
            index_views(list@) == claims(artifacts@, i as int),
            forall|j: int| 0 <= j < list@.len() ==> #[trigger] list@[j] < artifacts@.len(),
        decreases artifacts@.len() - i,
    {
        if artifacts[i].embedded {
            let ghost before = list@;
            list.push(i);
            proof {
                assert(index_views(list@) =~= index_views(before).push(i as int));
            }
        }
        i = i + 1;
    }
    list
}

fn same_bytes(left: &[u8], right: &Vec<u8>) -> (r: bool)
    ensures
        r == (left@ == right@),
{
    if left.len() != right.len() {
        return false;
    }
    let mut i: usize = 0;
    while i < left.len()
        invariant
            i <= left@.len(),
            left@.len() == right@.len(),
            forall|j: int| 0 <= j < i ==> left@[j] == right@[j],
        decreases left@.len() - i,
    {
        if left[i] != right[i] {
            return false;
        }
        i = i + 1;
    }
    proof {
        assert(left@ =~= right@);
    }
    true
}

fn check_claims(
    semantic: &Json,
    artifacts: &Vec<ArtifactCodecSupplementary>,
    list: &Vec<SupplementaryImport>,
    Ghost(kept): Ghost<Seq<SupplementaryView>>,
) -> (r: Result<(), ArtifactCodecError>)
    requires
        are_supplementary(list@, kept),
        list@.len() == artifacts@.len(),
    ensures
        match (r, claim_fault(semantic@, artifacts@, kept)) {
            (Ok(()), None) => true,
            (Err(e), Some(fault)) => is_codec_error(e, fault),
            _ => false,
        },
{
    let claimed = collect_claims(artifacts);
    proof {
        assert(index_views(claimed@).len() == claimed@.len());
    }
    let book = match semantic.get("data") {
        Some(data) => data.get("character_book"),
        None => None,
    };
    match book {
        Some(value) => match compact_text(value) {
            None => Err(ArtifactCodecError::Artifact(ArtifactError::Canonicalize)),
            Some(compact) => {
                if claimed.len() != 1 {
                    return Err(ArtifactCodecError::InvalidEmbeddedSupplementary);
                }
                proof {
                    assert(index_views(claimed@)[0] == claimed@[0]);
                }
                if same_bytes(compact.as_str().as_bytes(), &list[claimed[0]].bytes) {
                    Ok(())
                } else {
                    Err(ArtifactCodecError::InvalidEmbeddedSupplementary)
                }
            },
        },
        None => if claimed.len() == 0 {
            Ok(())
        } else {
            Err(ArtifactCodecError::InvalidEmbeddedSupplementary)
        },
    }
}

/// The abstract value of a [`CodecImport`].
pub struct ImportView {
    pub payload: Seq<u8>,
    pub kind: ArtifactKind,
    pub semantic: JsonView,
    pub assets: Seq<AssetView>,
    pub supplementary: Seq<SupplementaryView>,
    pub revision_hash: Seq<u8>,
}

/// The import is the one described.
pub open spec fn is_codec_import(import: CodecImport, view: ImportView) -> bool {
    &&& import.payload@ == view.payload
    &&& is_artifact(import.decoded, view.kind, view.semantic)
    &&& asset_views(import.assets@) == view.assets
    &&& are_supplementary(import.supplementary@, view.supplementary)
    &&& import.revision_hash@ == view.revision_hash
}

/// The artifact of a bundle, or what is wrong with it. In a `charx` file it has
/// to be a complete card.
pub open spec fn primary_of(
    bundle: ArtifactCodecBundle,
    charx: bool,
    parses: Seq<Result<Json, JsonFault>>,
) -> Result<(Seq<u8>, ArtifactKind, JsonView), CodecFault> {
    match payload_of(bundle) {
        Err(fault) => Err(fault),
        Ok(payload) => match proposed_artifact(parses, 0, payload, bundle.artifact_kind) {
            Err(fault) => Err(fault),
            Ok((kind, semantic)) => if charx && card_v3_error(kind, semantic) is Some {
                Err(
                    CodecFault::Error(
                        ArtifactCodecError::Artifact(card_v3_error(kind, semantic)->0),
                    ),
                )
            } else {
                Ok((payload, kind, semantic))
            },
        },
    }
}

/// What belongs to the artifact of a bundle, or what is wrong with it.
pub open spec fn companions_of(
    bundle: ArtifactCodecBundle,
    charx: bool,
    semantic: JsonView,
    parses: Seq<Result<Json, JsonFault>>,
    refusals: Seq<Option<String>>,
) -> Result<(Seq<AssetView>, Seq<SupplementaryView>), CodecFault> {
    let artifacts = bundle.supplementary_artifacts@;
    match assets_from(bundle.assets@, 0, Seq::empty(), 0, refusals) {
        Err(fault) => Err(fault),
        Ok(assets) => {
            let paths = asset_paths(assets);
            if charx && missing_asset(semantic, paths) is Some {
                Err(CodecFault::MissingAsset(missing_asset(semantic, paths)->0))
            } else {
                match supplementary_from(artifacts, 0, Seq::empty(), paths, 0, parses, charx) {
                    Err(fault) => Err(fault),
                    Ok(kept) => if charx && claim_fault(semantic, artifacts, kept) is Some {
                        Err(claim_fault(semantic, artifacts, kept)->0)
                    } else {
                        Ok((assets, kept))
                    },
                }
            }
        },
    }
}

/// What a bundle is taken over as, or what is wrong with it. The revision of a
/// `charx` file is that of its card, any other that of the file itself.
pub open spec fn imported(
    source: Seq<u8>,
    bundle: ArtifactCodecBundle,
    format: Seq<char>,
    parses: Seq<Result<Json, JsonFault>>,
    refusals: Seq<Option<String>>,
) -> Result<ImportView, CodecFault> {
    let charx = format == "charx"@;
    match outline_fault(bundle, format) {
        Some(fault) => Err(fault),
        None => match primary_of(bundle, charx, parses) {
            Err(fault) => Err(fault),
            Ok((payload, kind, semantic)) => match companions_of(
                bundle,
                charx,
                semantic,
                parses,
                refusals,
            ) {
                Err(fault) => Err(fault),
                Ok((assets, supplementary)) => Ok(
                    ImportView {
                        payload,
                        kind,
                        semantic,
                        assets,
                        supplementary,
                        revision_hash: revision_hash_of(
                            kind_name(kind),
                            bundle.source_format@,
                            if charx {
                                payload
                            } else {
                                source
                            },
                        ),
                    },
                ),
            },
        },
    }
}

proof fn lemma_supplementary_length(
    artifacts: Seq<ArtifactCodecSupplementary>,
    i: int,
    kept: Seq<SupplementaryView>,
    taken: Seq<Seq<char>>,
    total: nat,
    parses: Seq<Result<Json, JsonFault>>,
    charx: bool,
)
    requires
        0 <= i <= artifacts.len(),
        kept.len() == i,
    ensures
        supplementary_from(artifacts, i, kept, taken, total, parses, charx) matches Ok(all)
            ==> all.len() == artifacts.len(),
    decreases artifacts.len() - i,
{
    if i < artifacts.len() {
        if let Ok(view) = supplementary_of(
            artifacts[i],
            supplementary_paths(kept),
            taken,
            total,
            parses,
            charx,
        ) {
            lemma_supplementary_length(
                artifacts,
                i + 1,
                kept.push(view),
                taken,
                total + view.bytes.len(),
                parses,
                charx,
            );
        }
    }
}

fn open_companions(
    bundle: &ArtifactCodecBundle,
    charx: bool,
    decoded: &DecodedArtifact,
    replies: &CodecReplies,
) -> (r: Result<(Vec<AssetImport>, Vec<SupplementaryImport>), ArtifactCodecError>)
    requires
        bundle.supplementary_artifacts@.len() <= MAX_CODEC_SUPPLEMENTARY_ARTIFACTS,
    ensures
        match (
            r,
            companions_of(
                *bundle,
                charx,
                decoded.semantic@,
                replies.parses@,
                replies.refusals@,
            ),
        ) {
            (Ok((list, others)), Ok((assets, kept))) => asset_views(list@) == assets
                && are_supplementary(others@, kept),
            (Err(e), Err(fault)) => is_codec_error(e, fault),
            _ => false,
        },
{
    let (assets, paths) = match open_assets(&bundle.assets, &replies.refusals) {
        Ok(opened) => opened,
        Err(e) => return Err(e),
    };
    if charx {
        match validate_embedded_asset_references(decoded, &paths) {
            Ok(()) => {},
            Err(e) => return Err(ArtifactCodecError::Artifact(e)),
        }
    }
    let supplementary = match open_all_supplementary(
        &bundle.supplementary_artifacts,
        &paths,
        &replies.parses,
        charx,
    ) {
        Ok(list) => list,
        Err(e) => return Err(e),
    };
    let ghost kept = supplementary_from(
        bundle.supplementary_artifacts@,
        0,
        Seq::empty(),
        views(paths@),
        0,
        replies.parses@,
        charx,
    )->Ok_0;
    proof {
        lemma_supplementary_length(
            bundle.supplementary_artifacts@,
            0,
            Seq::empty(),
            views(paths@),
            0,
            replies.parses@,
            charx,
        );
    }
    if charx {
        match check_claims(
            &decoded.semantic,
            &bundle.supplementary_artifacts,
            &supplementary,
            Ghost(kept),
        ) {
            Ok(()) => {},
            Err(e) => return Err(e),
        }
    }
    Ok((assets, supplementary))
}

/// What taking over what a codec made of a file comes to: a revision that is kept
/// already is refused.
pub open spec fn is_taken_over(
    r: Result<CodecImport, ArtifactCodecError>,
    view: ImportView,
    revisions: Seq<ContentHash>,
) -> bool {
    if at_hand(revisions, view.revision_hash) {
        r matches Err(ArtifactCodecError::RevisionConflict(hash)) && hash@ == view.revision_hash
    } else {
        r matches Ok(import) && is_codec_import(import, view)
    }
}

/// Checks what a codec made of a file of a format, before anything of it is
/// kept.
pub fn import_artifact_from_codec(
    source: &Vec<u8>,
    bundle: &ArtifactCodecBundle,
    format: &str,
    replies: &CodecReplies,
) -> (r: Result<CodecImport, ArtifactCodecError>)
    ensures
        match imported(source@, *bundle, format@, replies.parses@, replies.refusals@) {
            Ok(view) => is_taken_over(r, view, replies.revisions@),
            Err(fault) => r matches Err(e) && is_codec_error(e, fault),
        },
{
    match check_outline(bundle, format) {
        Ok(()) => {},
        Err(e) => return Err(e),
    }
    let charx = text::same(format, "charx");
    let payload = match open_payload(bundle) {
        Ok(payload) => payload,
        Err(e) => return Err(e),
    };
    let decoded = match decode_proposed(&replies.parses, 0, &payload, bundle.artifact_kind) {
        Ok(decoded) => decoded,
        Err(e) => return Err(e),
    };
    if charx {
        match validate_character_card_v3(&decoded) {
            Ok(()) => {},
            Err(e) => return Err(ArtifactCodecError::Artifact(e)),
        }
    }
    let (assets, supplementary) = match open_companions(bundle, charx, &decoded, replies) {
        Ok(opened) => opened,
        Err(e) => return Err(e),
    };
    let revised: &[u8] = if charx {
        payload.as_slice()
    } else {
        source.as_slice()
    };
    let revision_hash = artifact_revision_hash(
        decoded.kind.as_str(),
        bundle.source_format.as_str(),
        revised,
    );
    if check_at_hand(&replies.revisions, &revision_hash) {
        return Err(ArtifactCodecError::RevisionConflict(revision_hash));
    }
    Ok(CodecImport { payload, decoded, assets, supplementary, revision_hash })
}

/// An artifact that is kept beside another.
#[derive(Clone, Debug)]
pub struct StoredSupplementary {
    pub logical_path: String,
    pub embedded: bool,
    pub kind: ArtifactKind,
    pub source_format: String,
    pub payload: Vec<u8>,
}

/// Some bytes can be encoded as base64.
pub open spec fn encodable(bytes: Seq<u8>) -> bool {
    bytes.len() <= usize::MAX / 4
}

/// A file of a bundle that holds some bytes.
pub open spec fn is_codec_asset(
    asset: ArtifactCodecAsset,
    path: Seq<char>,
    bytes: Seq<u8>,
) -> bool {
    &&& asset.logical_path@ == path
    &&& asset.bytes@ == base64_encoded(bytes)
    &&& base64_reads(asset.bytes@, bytes)
    &&& asset.byte_size == bytes.len()
    &&& asset.sha256@ == sha256_of(bytes)
}

/// An artifact of a bundle that is kept beside another.
pub open spec fn is_codec_supplementary(
    artifact: ArtifactCodecSupplementary,
    stored: StoredSupplementary,
) -> bool {
    &&& artifact.logical_path@ == stored.logical_path@
    &&& artifact.embedded == stored.embedded
    &&& artifact.artifact_kind == stored.kind
    &&& artifact.source_format@ == stored.source_format@
    &&& artifact.payload@ == base64_encoded(stored.payload@)
    &&& base64_reads(artifact.payload@, stored.payload@)
    &&& artifact.byte_size == stored.payload@.len()
    &&& artifact.payload_sha256@ == sha256_of(stored.payload@)
}

fn pack_assets(assets: &Vec<AssetImport>) -> (list: Vec<ArtifactCodecAsset>)
    requires
        forall|i: int| 0 <= i < assets@.len() ==> encodable((#[trigger] assets@[i]).bytes@),
    ensures
        list@.len() == assets@.len(),
        forall|i: int|
            0 <= i < list@.len() ==> is_codec_asset(
                #[trigger] list@[i],
                assets@[i].logical_path@,
                assets@[i].bytes@,
            ),
{
    let mut list: Vec<ArtifactCodecAsset> = Vec::new();
    let mut i: usize = 0;
    while i < assets.len()
        invariant
            i <= assets@.len(),
            list@.len() == i,
            forall|j: int| 0 <= j < assets@.len() ==> encodable((#[trigger] assets@[j]).bytes@),
            forall|j: int|
                0 <= j < i ==> is_codec_asset(
                    #[trigger] list@[j],
                    assets@[j].logical_path@,
                    assets@[j].bytes@,
                ),
        decreases assets@.len() - i,
    {
        let asset = &assets[i];
        list.push(
            ArtifactCodecAsset {
                logical_path: asset.logical_path.clone(),
                bytes: encode_base64(&asset.bytes),
                byte_size: asset.bytes.len(),
                sha256: ContentHash::new(sha256(&asset.bytes)),
            },
        );
        i = i + 1;
    }
    list
}

fn pack_supplementary(stored: &Vec<StoredSupplementary>) -> (list: Vec<ArtifactCodecSupplementary>)
    requires
        forall|i: int| 0 <= i < stored@.len() ==> encodable((#[trigger] stored@[i]).payload@),
    ensures
        list@.len() == stored@.len(),
        forall|i: int|
            0 <= i < list@.len() ==> is_codec_supplementary(#[trigger] list@[i], stored@[i]),
{
    let mut list: Vec<ArtifactCodecSupplementary> = Vec::new();
    let mut i: usize = 0;
    while i < stored.len()
        invariant
            i <= stored@.len(),
            list@.len() == i,
            forall|j: int|
                0 <= j < stored@.len() ==> encodable((#[trigger] stored@[j]).payload@),
            forall|j: int|
                0 <= j < i ==> is_codec_supplementary(#[trigger] list@[j], stored@[j]),
        decreases stored@.len() - i,
    {
        let artifact = &stored[i];
        list.push(
            ArtifactCodecSupplementary {
                logical_path: artifact.logical_path.clone(),
                artifact_kind: artifact.kind,
                source_format: artifact.source_format.clone(),
                embedded: artifact.embedded,
                payload: encode_base64(&artifact.payload),
                byte_size: artifact.payload.len(),
                payload_sha256: ContentHash::new(sha256(&artifact.payload)),
            },
        );
        i = i + 1;
    }
    list
}

/// The bundle of an artifact that is kept, for a codec to make a file of. Its
/// payload opens as the one that is kept, unless that is too large.
pub fn artifact_codec_bundle(
    kind: ArtifactKind,
    source_format: &str,
    payload: &Vec<u8>,
    assets: &Vec<AssetImport>,
    supplementary: &Vec<StoredSupplementary>,
) -> (bundle: ArtifactCodecBundle)
    requires
        encodable(payload@),
        forall|i: int| 0 <= i < assets@.len() ==> encodable((#[trigger] assets@[i]).bytes@),
        forall|i: int|
            0 <= i < supplementary@.len() ==> encodable((#[trigger] supplementary@[i]).payload@),
    ensures
        bundle.artifact_kind == kind,
        bundle.source_format@ == source_format@,
        bundle.payload@ == base64_encoded(payload@),
        bundle.payload_sha256@ == sha256_of(payload@),
        payload@.len() <= MAX_CODEC_PAYLOAD_BYTES ==> payload_of(bundle) == Ok::<
            Seq<u8>,
            CodecFault,
        >(payload@),
        bundle.assets@.len() == assets@.len(),
        forall|i: int|
            0 <= i < assets@.len() ==> is_codec_asset(
                #[trigger] bundle.assets@[i],
                assets@[i].logical_path@,
                assets@[i].bytes@,
            ),
        bundle.supplementary_artifacts@.len() == supplementary@.len(),
        forall|i: int|
            0 <= i < supplementary@.len() ==> is_codec_supplementary(
                #[trigger] bundle.supplementary_artifacts@[i],
                supplementary@[i],
            ),
{
    ArtifactCodecBundle {
        artifact_kind: kind,
        source_format: source_format.to_owned(),
        payload: encode_base64(payload),
        payload_sha256: ContentHash::new(sha256(payload)),
        assets: pack_assets(assets),
        supplementary_artifacts: pack_supplementary(supplementary),
    }
}

/// A file that was packed opens as it was, wherever it may stand in a bundle and
/// as long as nothing is too large.
pub proof fn law_packed_assets_open(
    asset: ArtifactCodecAsset,
    path: Seq<char>,
    bytes: Seq<u8>,
    paths: Seq<Seq<char>>,
    total: nat,
    refusals: Seq<Option<String>>,
)
    requires
        is_codec_asset(asset, path, bytes),
        is_logical_path(path),
        !paths.contains(path),
        bytes.len() <= MAX_CODEC_ASSET_BYTES,
        total + bytes.len() <= MAX_CODEC_TOTAL_ASSET_BYTES,
        paths.len() < refusals.len(),
        refusals[paths.len() as int] is None,
    ensures
        asset_of(asset, paths, total, refusals) == Ok::<Seq<u8>, CodecFault>(bytes),
{
}

/// An artifact that was packed opens as it was, wherever it may stand in a
/// bundle and as long as nothing is too large.
pub proof fn law_packed_artifacts_open(
    artifact: ArtifactCodecSupplementary,
    stored: StoredSupplementary,
    paths: Seq<Seq<char>>,
    taken: Seq<Seq<char>>,
    total: nat,
)
    requires
        is_codec_supplementary(artifact, stored),
        is_logical_path(stored.logical_path@),
        !paths.contains(stored.logical_path@),
        !taken.contains(stored.logical_path@),
        stored.source_format@ == "json"@,
        stored.payload@.len() <= MAX_CODEC_PAYLOAD_BYTES,
        total + stored.payload@.len() <= MAX_CODEC_TOTAL_SUPPLEMENTARY_BYTES,
    ensures
        supplementary_bytes(artifact, paths, taken, total) == Ok::<Seq<u8>, CodecFault>(
            stored.payload@,
        ),
{
}

/// No two files or artifacts of a bundle that is taken over have the same path.
pub proof fn law_imported_paths_are_distinct(
    artifacts: Seq<ArtifactCodecSupplementary>,
    taken: Seq<Seq<char>>,
    parses: Seq<Result<Json, JsonFault>>,
    charx: bool,
)
    ensures
        supplementary_from(artifacts, 0, Seq::empty(), taken, 0, parses, charx) matches Ok(kept)
            ==> are_distinct(supplementary_paths(kept), taken),
{
    assert(are_distinct(supplementary_paths(Seq::empty()), taken));
    lemma_distinct_paths(artifacts, 0, Seq::empty(), taken, 0, parses, charx);
}

/// No path stands twice, nor among others.
pub open spec fn are_distinct(paths: Seq<Seq<char>>, taken: Seq<Seq<char>>) -> bool {
    &&& forall|i: int, j: int|
        0 <= i < j < paths.len() ==> #[trigger] paths[i] != #[trigger] paths[j]
    &&& forall|i: int| 0 <= i < paths.len() ==> !taken.contains(#[trigger] paths[i])
}

proof fn lemma_distinct_paths(
    artifacts: Seq<ArtifactCodecSupplementary>,
    i: int,
    kept: Seq<SupplementaryView>,
    taken: Seq<Seq<char>>,
    total: nat,
    parses: Seq<Result<Json, JsonFault>>,
    charx: bool,
)
    requires
        are_distinct(supplementary_paths(kept), taken),
    ensures
        supplementary_from(artifacts, i, kept, taken, total, parses, charx) matches Ok(all)
            ==> are_distinct(supplementary_paths(all), taken),
    decreases artifacts.len() - i,
{
    if 0 <= i < artifacts.len() {
        let paths = supplementary_paths(kept);
        if let Ok(view) = supplementary_of(artifacts[i], paths, taken, total, parses, charx) {
            let next = supplementary_paths(kept.push(view));
            assert(next =~= paths.push(view.path));
            assert(!paths.contains(view.path));
            assert forall|a: int, b: int| 0 <= a < b < next.len() implies #[trigger] next[a]
                != #[trigger] next[b] by {
                assert(next[a] == paths[a]);
                if b == paths.len() {
                    assert(paths.contains(paths[a]));
                } else {
                    assert(next[b] == paths[b]);
                }
            }
            lemma_distinct_paths(
                artifacts,
                i + 1,
                kept.push(view),
                taken,
                total + view.bytes.len(),
                parses,
                charx,
            );
        }
    }
}

} // verus!
