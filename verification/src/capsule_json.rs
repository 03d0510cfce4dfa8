//! Capsules as JSON.
use vstd::prelude::*;

use crate::artifact::kind::kind_name;
use crate::artifact::revision::ArtifactRecord;
use crate::capsule::{
    capsule_kind_name, capsule_kind_text, CapsuleArtifact, CapsuleReference, RedactionEntry,
    TurnCapsule,
};
use crate::identity::{ContentHash, EntityId, hash_text, ulid_text_of};
use crate::json::{
    items_view, Json, json_view, JsonView, lemma_array_view, members_view, named, no_pairs,
    object, object_of, optional_text, push_pair, push_text, text_or_null,
};
use crate::text::option_view;

verus! {

/// An identity as JSON.
pub open spec fn id_value(id: EntityId) -> JsonView {
    JsonView::Text(ulid_text_of(id@))
}

/// An identity that may be absent as JSON.
pub open spec fn optional_id_value(id: Option<EntityId>) -> JsonView {
    match id {
        Some(i) => id_value(i),
        None => JsonView::Null,
    }
}

/// A hash as JSON.
pub open spec fn hash_value(hash: Seq<u8>) -> JsonView {
    JsonView::Text(hash_text(hash))
}

/// A value that may be absent, or nothing.
pub open spec fn value_or_null(value: Option<Json>) -> JsonView {
    match value {
        Some(v) => v@,
        None => JsonView::Null,
    }
}

pub(crate) fn push_id(pairs: &mut Vec<(String, Json)>, name: &str, id: EntityId)
    ensures
        members_view(final(pairs)@) == members_view(old(pairs)@).push((name@, id_value(id))),
{
    push_text(pairs, name, id.text().as_str());
}

pub(crate) fn push_hash(pairs: &mut Vec<(String, Json)>, name: &str, hash: &ContentHash)
    ensures
        members_view(final(pairs)@) == members_view(old(pairs)@).push((name@, hash_value(hash@))),
{
    push_text(pairs, name, hash.text().as_str());
}

pub(crate) fn copy_or_null(value: &Option<Json>) -> (copy: Json)
    ensures
        copy@ == value_or_null(*value),
{
    match value {
        Some(v) => v.copy(),
        None => Json::Null,
    }
}

/// The JSON of those parts of a capsule that are kept elsewhere in another form:
/// its configuration, the session and branch of its baseline, and its prompt.
/// Each counts only where the capsule has the part.
#[derive(Debug)]
pub struct CapsuleBodies {
    pub configuration: Json,
    pub session: Json,
    pub branch: Json,
    pub prompt: Json,
}

/// The record of an artifact as JSON.
pub open spec fn record_json(record: ArtifactRecord) -> JsonView {
    JsonView::Object(
        object_of(
            named().push(("revision_hash"@, hash_value(record.revision_hash@))).push(
                ("kind"@, JsonView::Text(kind_name(record.kind))),
            ).push(("source_format"@, JsonView::Text(record.source_format@))).push(
                ("semantic_hash"@, hash_value(record.semantic_hash@)),
            ).push(("source_blob_hash"@, hash_value(record.source_blob_hash@))).push(
                ("imported_event_id"@, JsonView::Text(record.imported_event_id@)),
            ),
        ),
    )
}

fn show_record(record: &ArtifactRecord) -> (value: Json)
    ensures
        value@ == record_json(*record),
{
    let mut pairs = no_pairs();
    push_hash(&mut pairs, "revision_hash", &record.revision_hash);
    push_text(&mut pairs, "kind", record.kind.as_str());
    push_text(&mut pairs, "source_format", record.source_format.as_str());
    push_hash(&mut pairs, "semantic_hash", &record.semantic_hash);
    push_hash(&mut pairs, "source_blob_hash", &record.source_blob_hash);
    push_text(&mut pairs, "imported_event_id", record.imported_event_id.as_str());
    object(pairs)
}

/// An artifact of a capsule as JSON.
pub open spec fn artifact_json(artifact: CapsuleArtifact) -> JsonView {
    JsonView::Object(
        object_of(
            named().push(("record"@, record_json(artifact.record))).push(
                ("source"@, text_or_null(option_view(artifact.source))),
            ),
        ),
    )
}

fn show_artifact(artifact: &CapsuleArtifact) -> (value: Json)
    ensures
        value@ == artifact_json(*artifact),
{
    let mut pairs = no_pairs();
    push_pair(&mut pairs, "record", show_record(&artifact.record));
    push_pair(&mut pairs, "source", optional_text(&artifact.source));
    object(pairs)
}

/// The artifacts of a capsule as JSON.
pub open spec fn artifacts_json(items: Seq<CapsuleArtifact>) -> JsonView {
    JsonView::Array(Seq::new(items.len(), |i: int| artifact_json(items[i])))
}

fn show_artifacts(all: &Vec<CapsuleArtifact>) -> (value: Json)
    ensures
        value@ == artifacts_json(all@),
{
    let mut items: Vec<Json> = Vec::new();
    let mut i: usize = 0;
    while i < all.len()
        invariant
            i <= all@.len(),
            items@.len() == i,
            forall|j: int|
                0 <= j < i ==> json_view(#[trigger] items@[j]) == artifact_json(all@[j]),
        decreases all@.len() - i,
    {
        items.push(show_artifact(&all[i]));
        i = i + 1;
    }
    proof {
        lemma_array_view(items);
        assert(items_view(items@) =~= artifacts_json(all@)->Array_0);
    }
    Json::Array(items)
}

/// A reference of a capsule as JSON.
pub open spec fn reference_json(reference: CapsuleReference) -> JsonView {
    JsonView::Object(
        object_of(
            named().push(("owner_kind"@, JsonView::Text(reference.owner_kind@))).push(
                ("owner_id"@, JsonView::Text(reference.owner_id@)),
            ).push(("blob_hash"@, hash_value(reference.blob_hash@))).push(
                ("embedded"@, JsonView::Bool(reference.embedded)),
            ),
        ),
    )
}

fn show_reference(reference: &CapsuleReference) -> (value: Json)
    ensures
        value@ == reference_json(*reference),
{
    let mut pairs = no_pairs();
    push_text(&mut pairs, "owner_kind", reference.owner_kind.as_str());
    push_text(&mut pairs, "owner_id", reference.owner_id.as_str());
    push_hash(&mut pairs, "blob_hash", &reference.blob_hash);
    push_pair(&mut pairs, "embedded", Json::Bool(reference.embedded));
    object(pairs)
}

/// The references of a capsule as JSON.
pub open spec fn references_json(items: Seq<CapsuleReference>) -> JsonView {
    JsonView::Array(Seq::new(items.len(), |i: int| reference_json(items[i])))
}

fn show_references(all: &Vec<CapsuleReference>) -> (value: Json)
    ensures
        value@ == references_json(all@),
{
    let mut items: Vec<Json> = Vec::new();
    let mut i: usize = 0;
    while i < all.len()
        invariant
            i <= all@.len(),
            items@.len() == i,
            forall|j: int|
                0 <= j < i ==> json_view(#[trigger] items@[j]) == reference_json(all@[j]),
        decreases all@.len() - i,
    {
        items.push(show_reference(&all[i]));
        i = i + 1;
    }
    proof {
        lemma_array_view(items);
        assert(items_view(items@) =~= references_json(all@)->Array_0);
    }
    Json::Array(items)
}

/// What was taken from a capsule as JSON.
pub open spec fn redaction_json(entry: RedactionEntry) -> JsonView {
    JsonView::Object(
        object_of(
            named().push(("path"@, JsonView::Text(entry.path@))).push(
                ("reason"@, JsonView::Text(entry.reason@)),
            ),
        ),
    )
}

fn show_redaction(entry: &RedactionEntry) -> (value: Json)
    ensures
        value@ == redaction_json(*entry),
{
    let mut pairs = no_pairs();
    push_text(&mut pairs, "path", entry.path.as_str());
    push_text(&mut pairs, "reason", entry.reason.as_str());
    object(pairs)
}

/// All that was taken from a capsule as JSON.
pub open spec fn redactions_json(items: Seq<RedactionEntry>) -> JsonView {
    JsonView::Array(Seq::new(items.len(), |i: int| redaction_json(items[i])))
}

fn show_redactions(all: &Vec<RedactionEntry>) -> (value: Json)
    ensures
        value@ == redactions_json(all@),
{
    let mut items: Vec<Json> = Vec::new();
    let mut i: usize = 0;
    while i < all.len()
        invariant
            i <= all@.len(),
            items@.len() == i,
            forall|j: int|
                0 <= j < i ==> json_view(#[trigger] items@[j]) == redaction_json(all@[j]),
        decreases all@.len() - i,
    {
        items.push(show_redaction(&all[i]));
        i = i + 1;
    }
    proof {
        lemma_array_view(items);
        assert(items_view(items@) =~= redactions_json(all@)->Array_0);
    }
    Json::Array(items)
}

/// A hash that may be absent as JSON.
pub open spec fn optional_hash_value(hash: Option<ContentHash>) -> JsonView {
    match hash {
        Some(h) => hash_value(h@),
        None => JsonView::Null,
    }
}

fn show_optional_hash(hash: &Option<ContentHash>) -> (value: Json)
    ensures
        value@ == optional_hash_value(*hash),
{
    match hash {
        Some(h) => Json::Text(h.text()),
        None => Json::Null,
    }
}

/// The engine of a capsule as JSON.
pub open spec fn engine_json(capsule: TurnCapsule) -> JsonView {
    JsonView::Object(
        object_of(named().push(("version"@, JsonView::Text(capsule.engine.version@)))),
    )
}

/// What a capsule is compatible with as JSON.
pub open spec fn compatibility_json(capsule: TurnCapsule) -> JsonView {
    JsonView::Object(
        object_of(
            named().push(("profile"@, JsonView::Text(capsule.compatibility.profile@))).push(
                (
                    "feature_manifest_digest"@,
                    hash_value(capsule.compatibility.feature_manifest_digest@),
                ),
            ),
        ),
    )
}

/// Which turn a capsule is of as JSON.
pub open spec fn identity_json(capsule: TurnCapsule) -> JsonView {
    JsonView::Object(
        object_of(
            named().push(("session_id"@, id_value(capsule.identity.session_id))).push(
                ("branch_id"@, id_value(capsule.identity.branch_id)),
            ).push(("turn_id"@, id_value(capsule.identity.turn_id))).push(
                ("attempt_id"@, id_value(capsule.identity.attempt_id)),
            ),
        ),
    )
}

/// What a turn started from as JSON.
pub open spec fn baseline_json(capsule: TurnCapsule, bodies: CapsuleBodies) -> JsonView {
    match capsule.baseline {
        Some(_) => JsonView::Object(
            object_of(
                named().push(("session"@, bodies.session@)).push(("branch"@, bodies.branch@)),
            ),
        ),
        None => JsonView::Null,
    }
}

/// What was asked of a provider as JSON.
pub open spec fn provider_json(capsule: TurnCapsule) -> JsonView {
    JsonView::Object(
        object_of(
            named().push(
                ("request_hash"@, optional_hash_value(capsule.provider.request_hash)),
            ).push(("receipt"@, value_or_null(capsule.provider.receipt))),
        ),
    )
}

/// What a turn came to as JSON.
pub open spec fn result_json(capsule: TurnCapsule) -> JsonView {
    JsonView::Object(
        object_of(
            named().push(
                (
                    "projection"@,
                    match capsule.result.projection {
                        Some(projection) => projection.value@,
                        None => JsonView::Null,
                    },
                ),
            ).push(("projection_hash"@, optional_hash_value(capsule.result.projection_hash))),
        ),
    )
}

/// What can be done with a capsule as JSON.
pub open spec fn capabilities_json(capsule: TurnCapsule) -> JsonView {
    JsonView::Object(
        object_of(
            named().push(("inspect"@, JsonView::Bool(capsule.capabilities.inspect))).push(
                ("replay"@, JsonView::Bool(capsule.capabilities.replay)),
            ).push(("rerun"@, JsonView::Bool(capsule.capabilities.rerun))),
        ),
    )
}

/// The JSON of a part that a capsule may have.
pub open spec fn part_json(has: bool, body: JsonView) -> JsonView {
    if has {
        body
    } else {
        JsonView::Null
    }
}

/// A capsule as JSON.
pub open spec fn capsule_json(capsule: TurnCapsule, bodies: CapsuleBodies) -> JsonView {
    JsonView::Object(
        object_of(
            named().push(("format"@, JsonView::Text(capsule.format@))).push(
                ("version"@, JsonView::Text(capsule.version@)),
            ).push(("kind"@, JsonView::Text(capsule_kind_text(capsule.kind)))).push(
                ("engine"@, engine_json(capsule)),
            ).push(("compatibility"@, compatibility_json(capsule))).push(
                ("identity"@, identity_json(capsule)),
            ).push(("artifacts"@, artifacts_json(capsule.artifacts@))).push(
                (
                    "configuration"@,
                    part_json(capsule.configuration is Some, bodies.configuration@),
                ),
            ).push(("baseline"@, baseline_json(capsule, bodies))).push(
                (
                    "effects"@,
                    match capsule.effects {
                        Some(effects) => effects.value@,
                        None => JsonView::Null,
                    },
                ),
            ).push(("prompt"@, part_json(capsule.prompt is Some, bodies.prompt@))).push(
                ("provider"@, provider_json(capsule)),
            ).push(("result"@, result_json(capsule))).push(
                ("references"@, references_json(capsule.references@)),
            ).push(("redactions"@, redactions_json(capsule.redactions@))).push(
                ("capabilities"@, capabilities_json(capsule)),
            ),
        ),
    )
}

fn show_head(capsule: &TurnCapsule) -> (parts: (Json, Json, Json))
    ensures
        parts.0@ == engine_json(*capsule),
        parts.1@ == compatibility_json(*capsule),
        parts.2@ == identity_json(*capsule),
{
    let mut engine = no_pairs();
    push_text(&mut engine, "version", capsule.engine.version.as_str());
    let mut compatibility = no_pairs();
    push_text(&mut compatibility, "profile", capsule.compatibility.profile.as_str());
    push_hash(
        &mut compatibility,
        "feature_manifest_digest",
        &capsule.compatibility.feature_manifest_digest,
    );
    let mut identity = no_pairs();
    push_id(&mut identity, "session_id", capsule.identity.session_id);
    push_id(&mut identity, "branch_id", capsule.identity.branch_id);
    push_id(&mut identity, "turn_id", capsule.identity.turn_id);
    push_id(&mut identity, "attempt_id", capsule.identity.attempt_id);
    (object(engine), object(compatibility), object(identity))
}

fn show_tail(capsule: &TurnCapsule) -> (parts: (Json, Json, Json))
    ensures
        parts.0@ == provider_json(*capsule),
        parts.1@ == result_json(*capsule),
        parts.2@ == capabilities_json(*capsule),
{
    let mut provider = no_pairs();
    push_pair(&mut provider, "request_hash", show_optional_hash(&capsule.provider.request_hash));
    push_pair(&mut provider, "receipt", copy_or_null(&capsule.provider.receipt));
    let mut result = no_pairs();
    let projection = match &capsule.result.projection {
        Some(projection) => projection.value.copy(),
        None => Json::Null,
    };
    push_pair(&mut result, "projection", projection);
    push_pair(
        &mut result,
        "projection_hash",
        show_optional_hash(&capsule.result.projection_hash),
    );
    let mut capabilities = no_pairs();
    push_pair(&mut capabilities, "inspect", Json::Bool(capsule.capabilities.inspect));
    push_pair(&mut capabilities, "replay", Json::Bool(capsule.capabilities.replay));
    push_pair(&mut capabilities, "rerun", Json::Bool(capsule.capabilities.rerun));
    (object(provider), object(result), object(capabilities))
}

fn show_part(has: bool, body: &Json) -> (value: Json)
    ensures
        value@ == part_json(has, body@),
{
    if has {
        body.copy()
    } else {
        Json::Null
    }
}

fn show_baseline(capsule: &TurnCapsule, bodies: &CapsuleBodies) -> (value: Json)
    ensures
        value@ == baseline_json(*capsule, *bodies),
{
    if capsule.baseline.is_none() {
        return Json::Null;
    }
    let mut pairs = no_pairs();
    push_pair(&mut pairs, "session", bodies.session.copy());
    push_pair(&mut pairs, "branch", bodies.branch.copy());
    object(pairs)
}

impl TurnCapsule {
    /// The whole of a capsule as JSON.
    pub fn to_json(&self, bodies: &CapsuleBodies) -> (value: Json)
        ensures
            value@ == capsule_json(*self, *bodies),
    {
        let (engine, compatibility, identity) = show_head(self);
        let (provider, result, capabilities) = show_tail(self);
        let effects = match &self.effects {
            Some(effects) => effects.value.copy(),
            None => Json::Null,
        };
        let mut pairs = no_pairs();
        push_text(&mut pairs, "format", self.format.as_str());
        push_text(&mut pairs, "version", self.version.as_str());
        push_text(&mut pairs, "kind", capsule_kind_name(self.kind));
        push_pair(&mut pairs, "engine", engine);
        push_pair(&mut pairs, "compatibility", compatibility);
        push_pair(&mut pairs, "identity", identity);
        push_pair(&mut pairs, "artifacts", show_artifacts(&self.artifacts));
        push_pair(
            &mut pairs,
            "configuration",
            show_part(self.configuration.is_some(), &bodies.configuration),
        );
        push_pair(&mut pairs, "baseline", show_baseline(self, bodies));
        push_pair(&mut pairs, "effects", effects);
        push_pair(&mut pairs, "prompt", show_part(self.prompt.is_some(), &bodies.prompt));
        push_pair(&mut pairs, "provider", provider);
        push_pair(&mut pairs, "result", result);
        push_pair(&mut pairs, "references", show_references(&self.references));
        push_pair(&mut pairs, "redactions", show_redactions(&self.redactions));
        push_pair(&mut pairs, "capabilities", capabilities);
        object(pairs)
    }
}

} // verus!
