//! Revisions of artifacts: what identifies them and what is kept of them.
use vstd::prelude::*;
use vstd::utf8::encode_utf8;

use crate::artifact::kind::{
    ArtifactError, ArtifactKind, decode_artifact, decode_artifact_payload_as, DecodedArtifact,
    is_decoding, is_decoding_as, JsonFault, kind_name, kind_of,
};
use crate::identity::{
    ARTIFACT_REVISION_DOMAIN, artifact_revision_hash, canonical_hash_of, canonical_json_hash,
    CanonicalError, collide, ContentHash, hash_of, hash_parts, hash_text, lemma_last_part_is_told_apart,
    parts_view, preimage, revision_hash_of,
};
use crate::json::{exact, Json, JsonView, named, no_pairs, object, object_of, push_text};
use crate::text;

verus! {

pub const CONTENT_BLOB_DOMAIN: &'static str = "stcli:content-blob:v1";

pub const ARTIFACT_SEMANTIC_DOMAIN: &'static str = "stcli:artifact-semantic:v1";

/// A revision of an artifact as it is kept.
#[derive(Clone, Debug)]
pub struct ArtifactRecord {
    pub revision_hash: ContentHash,
    pub kind: ArtifactKind,
    pub source_format: String,
    pub semantic_hash: ContentHash,
    pub source_blob_hash: ContentHash,
    pub imported_event_id: String,
}

/// What came of importing an artifact with what belongs to it.
#[derive(Clone, Debug)]
pub struct ArtifactBundle {
    pub primary: ArtifactRecord,
    pub supplementary_artifacts: Vec<ArtifactRecord>,
    pub asset_count: usize,
}

/// The digest that identifies some stored bytes.
pub open spec fn blob_hash_of(bytes: Seq<u8>) -> Seq<u8> {
    hash_of(CONTENT_BLOB_DOMAIN@, seq![bytes])
}

/// The digest that identifies some stored bytes.
pub fn content_blob_hash(bytes: &[u8]) -> (hash: ContentHash)
    ensures
        hash@ == blob_hash_of(bytes@),
{
    let hash = hash_parts(CONTENT_BLOB_DOMAIN, &[bytes]);
    proof {
        assert(parts_view([bytes]@) =~= seq![bytes@]);
    }
    hash
}

/// The digest of what an artifact means, however it is written.
pub open spec fn semantic_hash_of(semantic: JsonView) -> Option<Seq<u8>> {
    canonical_hash_of(ARTIFACT_SEMANTIC_DOMAIN@, semantic)
}

/// The digest of what an artifact means, however it is written.
pub fn artifact_semantic_hash(semantic: &Json) -> (hash: Result<ContentHash, CanonicalError>)
    ensures
        match hash {
            Ok(h) => semantic_hash_of(semantic@) == Some(h@),
            Err(_) => semantic_hash_of(semantic@) is None,
        },
        exact(semantic@) ==> hash is Ok,
{
    canonical_json_hash(ARTIFACT_SEMANTIC_DOMAIN, semantic)
}

/// A record of a revision.
pub open spec fn is_record(
    record: ArtifactRecord,
    revision_hash: Seq<u8>,
    payload: Seq<u8>,
    decoded: DecodedArtifact,
    source_format: Seq<char>,
    event_id: Seq<char>,
) -> bool {
    &&& record.revision_hash@ == revision_hash
    &&& record.kind == decoded.kind
    &&& record.source_format@ == source_format
    &&& semantic_hash_of(decoded.semantic@) == Some(record.semantic_hash@)
    &&& record.source_blob_hash@ == blob_hash_of(payload)
    &&& record.imported_event_id@ == event_id
}

/// The record of a revision that an event imports.
pub fn describe_revision(
    revision_hash: ContentHash,
    payload: &Vec<u8>,
    decoded: &DecodedArtifact,
    source_format: &str,
    event_id: &str,
) -> (r: Result<ArtifactRecord, ArtifactError>)
    ensures
        match r {
            Ok(record) => is_record(
                record,
                revision_hash@,
                payload@,
                *decoded,
                source_format@,
                event_id@,
            ),
            Err(e) => e == ArtifactError::Canonicalize && semantic_hash_of(decoded.semantic@)
                is None,
        },
{
    match artifact_semantic_hash(&decoded.semantic) {
        Ok(semantic_hash) => Ok(
            ArtifactRecord {
                revision_hash,
                kind: decoded.kind,
                source_format: source_format.to_owned(),
                semantic_hash,
                source_blob_hash: content_blob_hash(payload.as_slice()),
                imported_event_id: event_id.to_owned(),
            },
        ),
        Err(_) => Err(ArtifactError::Canonicalize),
    }
}

/// What is told of an import.
pub open spec fn import_event_of(record: ArtifactRecord) -> JsonView {
    JsonView::Object(
        object_of(
            named().push(("revision_hash"@, JsonView::Text(hash_text(record.revision_hash@)))).push(
                ("artifact_kind"@, JsonView::Text(kind_name(record.kind))),
            ).push(("source_format"@, JsonView::Text(record.source_format@))).push(
                ("semantic_hash"@, JsonView::Text(hash_text(record.semantic_hash@))),
            ).push(("source_blob_hash"@, JsonView::Text(hash_text(record.source_blob_hash@)))),
        ),
    )
}

/// What is told of an import.
pub fn import_event(record: &ArtifactRecord) -> (event: Json)
    ensures
        event@ == import_event_of(*record),
{
    let mut pairs = no_pairs();
    push_text(&mut pairs, "revision_hash", record.revision_hash.text().as_str());
    push_text(&mut pairs, "artifact_kind", record.kind.as_str());
    push_text(&mut pairs, "source_format", record.source_format.as_str());
    push_text(&mut pairs, "semantic_hash", record.semantic_hash.text().as_str());
    push_text(&mut pairs, "source_blob_hash", record.source_blob_hash.text().as_str());
    object(pairs)
}

/// What importing an artifact from its source comes to.
pub open spec fn is_import(
    r: Result<ArtifactRecord, ArtifactError>,
    source: Seq<u8>,
    parsed: Result<Json, JsonFault>,
    limit: usize,
    event_id: Seq<char>,
) -> bool {
    match r {
        Ok(record) => {
            &&& source.len() <= limit
            &&& parsed is Ok && parsed->Ok_0@ is Object
            &&& kind_of(parsed->Ok_0@) == Ok::<ArtifactKind, ArtifactError>(record.kind)
            &&& record.revision_hash@ == revision_hash_of(
                kind_name(record.kind),
                "json"@,
                source,
            )
            &&& record.source_format@ == "json"@
            &&& semantic_hash_of(parsed->Ok_0@) == Some(record.semantic_hash@)
            &&& record.source_blob_hash@ == blob_hash_of(source)
            &&& record.imported_event_id@ == event_id
        },
        Err(e) => if source.len() > limit {
            e == ArtifactError::SourceTooLarge { size: source.len() as usize, limit }
        } else if parsed is Ok && parsed->Ok_0@ is Object && kind_of(parsed->Ok_0@) is Ok {
            e == ArtifactError::Canonicalize && semantic_hash_of(parsed->Ok_0@) is None
        } else {
            is_decoding(Err(e), parsed)
        },
    }
}

/// The record of an artifact that an event imports from its source.
pub fn import_artifact(
    source: &Vec<u8>,
    parsed: Result<Json, JsonFault>,
    limit: usize,
    event_id: &str,
) -> (r: Result<ArtifactRecord, ArtifactError>)
    ensures
        is_import(r, source@, parsed, limit, event_id@),
{
    let decoded = match decode_artifact(source, parsed, limit) {
        Ok(decoded) => decoded,
        Err(e) => return Err(e),
    };
    let revision_hash = artifact_revision_hash(decoded.kind.as_str(), "json", source.as_slice());
    describe_revision(revision_hash, source, &decoded, "json", event_id)
}

/// The same, as a bundle of nothing else.
pub fn import_artifact_bundle(
    source: &Vec<u8>,
    parsed: Result<Json, JsonFault>,
    limit: usize,
    event_id: &str,
) -> (r: Result<ArtifactBundle, ArtifactError>)
    ensures
        match r {
            Ok(bundle) => {
                &&& is_import(Ok(bundle.primary), source@, parsed, limit, event_id@)
                &&& bundle.supplementary_artifacts@.len() == 0
                &&& bundle.asset_count == 0
            },
            Err(e) => is_import(Err(e), source@, parsed, limit, event_id@),
        },
{
    match import_artifact(source, parsed, limit, event_id) {
        Ok(primary) => Ok(
            ArtifactBundle { primary, supplementary_artifacts: Vec::new(), asset_count: 0 },
        ),
        Err(e) => Err(e),
    }
}

/// What keeps a record from being restored with a payload, if anything does,
/// once the payload is decoded.
pub open spec fn restore_error(
    record: ArtifactRecord,
    payload: Seq<u8>,
    semantic: JsonView,
) -> Option<ArtifactError> {
    match semantic_hash_of(semantic) {
        None => Some(ArtifactError::Canonicalize),
        Some(hash) => if hash != record.semantic_hash@ {
            Some(ArtifactError::RestoredRecordMismatch("semantic hash"))
        } else if blob_hash_of(payload) != record.source_blob_hash@ {
            Some(ArtifactError::RestoredRecordMismatch("source blob hash"))
        } else {
            None
        },
    }
}

/// Checks that a payload is that of a record, so that the record can be
/// restored.
pub fn restore_artifact_revision(
    record: &ArtifactRecord,
    payload: &Vec<u8>,
    parsed: Result<Json, JsonFault>,
    limit: usize,
) -> (r: Result<DecodedArtifact, ArtifactError>)
    ensures
        if payload@.len() > limit {
            r == Err::<DecodedArtifact, ArtifactError>(
                ArtifactError::SourceTooLarge { size: payload@.len() as usize, limit },
            )
        } else {
            match r {
                Ok(decoded) => is_decoding_as(r, parsed, record.kind) && restore_error(
                    *record,
                    payload@,
                    decoded.semantic@,
                ) is None,
                Err(e) => is_decoding_as(r, parsed, record.kind) || (parsed is Ok && kind_of(
                    parsed->Ok_0@,
                ) == Ok::<ArtifactKind, ArtifactError>(record.kind) && restore_error(
                    *record,
                    payload@,
                    parsed->Ok_0@,
                ) == Some(e)),
            }
        },
{
    let size: usize = payload.len();
    if size > limit {
        return Err(ArtifactError::SourceTooLarge { size, limit });
    }
    let decoded = match decode_artifact_payload_as(parsed, record.kind) {
        Ok(decoded) => decoded,
        Err(e) => return Err(e),
    };
    match artifact_semantic_hash(&decoded.semantic) {
        Ok(hash) => {
            if !hash.same(&record.semantic_hash) {
                return Err(ArtifactError::RestoredRecordMismatch("semantic hash"));
            }
        },
        Err(_) => return Err(ArtifactError::Canonicalize),
    }
    let blob_hash = content_blob_hash(payload.as_slice());
    if !blob_hash.same(&record.source_blob_hash) {
        return Err(ArtifactError::RestoredRecordMismatch("source blob hash"));
    }
    Ok(decoded)
}

/// The name of the picture that stands for an artifact of a format.
pub open spec fn avatar_of(format: Seq<char>) -> Option<Seq<char>> {
    if format == "png"@ {
        Some("avatar.png"@)
    } else if format == "webp"@ {
        Some("avatar.webp"@)
    } else {
        None
    }
}

/// The bytes that an artifact is exported as: an asset, or its source.
#[derive(Clone, Debug)]
pub enum ExportSource {
    Asset(ContentHash),
    Blob(ContentHash),
}

/// An asset that belongs to a revision.
#[derive(Clone, Debug)]
pub struct AssetReference {
    pub logical_path: String,
    pub asset_hash: ContentHash,
}

/// The first reference of a path from place `i` on.
pub open spec fn reference_from(
    references: Seq<AssetReference>,
    path: Seq<char>,
    i: int,
) -> Option<AssetReference>
    decreases references.len() - i,
{
    if i < 0 || i >= references.len() {
        None
    } else if references[i].logical_path@ == path {
        Some(references[i])
    } else {
        reference_from(references, path, i + 1)
    }
}

/// What an artifact is exported as: the picture that carries it, or its source.
pub fn export_artifact(record: &ArtifactRecord, references: &Vec<AssetReference>) -> (r: Result<
    ExportSource,
    ArtifactError,
>)
    ensures
        r == match avatar_of(record.source_format@) {
            Some(path) => match reference_from(references@, path, 0) {
                Some(reference) => Ok::<ExportSource, ArtifactError>(
                    ExportSource::Asset(reference.asset_hash),
                ),
                None => Err(ArtifactError::MissingAvatar(record.revision_hash)),
            },
            None => Ok(ExportSource::Blob(record.source_blob_hash)),
        },
{
    let path: &str = if text::same(record.source_format.as_str(), "png") {
        "avatar.png"
    } else if text::same(record.source_format.as_str(), "webp") {
        "avatar.webp"
    } else {
        return Ok(ExportSource::Blob(record.source_blob_hash));
    };
    let mut i: usize = 0;
    while i < references.len()
        invariant
            i <= references@.len(),
            avatar_of(record.source_format@) == Some(path@),
            reference_from(references@, path@, 0) == reference_from(
                references@,
                path@,
                i as int,
            ),
        decreases references@.len() - i,
    {
        if text::same(references[i].logical_path.as_str(), path) {
            return Ok(ExportSource::Asset(references[i].asset_hash));
        }
        i = i + 1;
    }
    Err(ArtifactError::MissingAvatar(record.revision_hash))
}

/// The message that the revision of an artifact is the hash of.
pub open spec fn revision_message(
    kind: ArtifactKind,
    source_format: Seq<char>,
    source: Seq<u8>,
) -> Seq<u8> {
    preimage(
        ARTIFACT_REVISION_DOMAIN@,
        seq![encode_utf8(kind_name(kind)), encode_utf8(source_format), source],
    )
}

/// An artifact that is written in another way and means the same is of the same
/// kind, has the same semantic hash and is another revision, unless the hash of
/// the two revisions collides.
pub proof fn law_reformatting_keeps_the_meaning(
    first: ArtifactRecord,
    second: ArtifactRecord,
    source: Seq<u8>,
    other_source: Seq<u8>,
    value: Json,
    limit: usize,
    event_id: Seq<char>,
    other_event_id: Seq<char>,
)
    requires
        is_import(Ok(first), source, Ok(value), limit, event_id),
        is_import(Ok(second), other_source, Ok(value), limit, other_event_id),
        source != other_source,
        !collide(
            revision_message(first.kind, "json"@, source),
            revision_message(first.kind, "json"@, other_source),
        ),
    ensures
        second.semantic_hash@ == first.semantic_hash@,
        second.kind == first.kind,
        second.revision_hash@ != first.revision_hash@,
{
    let head = seq![encode_utf8(kind_name(first.kind)), encode_utf8("json"@)];
    assert(head.push(source) =~= seq![head[0], head[1], source]);
    assert(head.push(other_source) =~= seq![head[0], head[1], other_source]);
    if revision_message(first.kind, "json"@, source) == revision_message(
        first.kind,
        "json"@,
        other_source,
    ) {
        lemma_last_part_is_told_apart(ARTIFACT_REVISION_DOMAIN@, head, source, other_source);
    }
}

} // verus!
