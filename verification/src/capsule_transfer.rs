//! Making capsules from what is kept, and keeping what capsules bring.
use vstd::prelude::*;
use vstd::utf8::{decode_utf8, encode_utf8, valid_utf8};

use crate::artifact::bundle::copy_bytes;
use crate::artifact::kind::kind_name;
use crate::artifact::revision::{ArtifactRecord, blob_hash_of, content_blob_hash};
use crate::capsule::{
    artifacts_fault, artifacts_match, at_hand, capabilities_of, CAPSULE_DOMAIN, capsule_fault,
    CAPSULE_FORMAT, capsule_kind_name, capsule_kind_text, CAPSULE_VERSION, CapsuleArtifact,
    CapsuleBaseline, CapsuleCapabilities, CapsuleCompatibility, CapsuleEngine, CapsuleError,
    CapsuleFacts, CapsuleIdentity, CapsuleKind, CapsuleProvider, CapsuleReference, CapsuleResult,
    check_at_hand, has_revision, ImportedCapsule, is_capsule_error, is_redaction, is_repeated,
    receipts_error, SESSION_CONFIGURATION_DOMAIN, SessionProjectionSnapshot, source_fault,
    TurnCapsule,
};
use crate::capsule_json::{
    capsule_json, CapsuleBodies, copy_or_null, hash_value, id_value, optional_hash_value,
    optional_id_value, push_hash, push_id, value_or_null,
};
use crate::identity::{
    artifact_revision_hash, canonical_hash_of, canonical_json, canonical_json_hash, canonical_of,
    ContentHash, EntityId, hash_text, revision_hash_of, SESSION_PROJECTION_DOMAIN,
    session_projection_hash,
};
use crate::json::{
    Json, JsonNumber, JsonNumberView, JsonView, named, no_pairs, NumberForm, NumberFormView, object,
    object_of, optional_text, push_pair, push_text, text_or_null,
};
use crate::lists::lemma_push_contains;
use crate::lore::groups::index_views;
use crate::session::{
    artifacts_of, attempt_status_name, AttemptEffectReceipt, AttemptProjection, AttemptStatus,
    BranchProjection, candidate_origin_name, CandidateProjection, origin_name,
    SessionConfigurationRecord, SessionProjection, status_name, StoredCell, TurnProjection,
};
use crate::state::VariableScope;
use crate::text::{option_view, text_from_utf8};
use crate::turn::PromptPlan;

verus! {

/// An artifact that goes into a capsule, with its source.
#[derive(Clone, Debug)]
pub struct ExportedArtifact {
    pub record: ArtifactRecord,
    pub source: Vec<u8>,
}

/// What a capsule is made of.
#[derive(Debug)]
pub struct CapsuleParts {
    pub engine_version: String,
    pub feature_manifest_digest: ContentHash,
    pub session: SessionProjection,
    pub branch: BranchProjection,
    pub configuration: SessionConfigurationRecord,
    pub artifacts: Vec<ExportedArtifact>,
    pub effects: Option<AttemptEffectReceipt>,
    pub prompt: PromptPlan,
    pub provider_receipt: Option<Json>,
    pub projection: SessionProjectionSnapshot,
}

/// The first of the candidates from place `i` on that an attempt made, or
/// `candidates.len()`.
pub open spec fn candidate_from(
    candidates: Seq<CandidateProjection>,
    attempt_id: EntityId,
    i: int,
) -> int
    decreases candidates.len() - i,
{
    if i < 0 || i >= candidates.len() {
        candidates.len() as int
    } else if candidates[i].attempt_id == Some(attempt_id) {
        i
    } else {
        candidate_from(candidates, attempt_id, i + 1)
    }
}

/// Where the candidate that an attempt made stands, or the number of candidates.
pub fn find_candidate_index(candidates: &Vec<CandidateProjection>, attempt_id: EntityId) -> (at:
    usize)
    ensures
        at == candidate_from(candidates@, attempt_id, 0),
        at <= candidates@.len(),
{
    let mut i: usize = 0;
    while i < candidates.len()
        invariant
            i <= candidates@.len(),
            candidate_from(candidates@, attempt_id, 0) == candidate_from(
                candidates@,
                attempt_id,
                i as int,
            ),
        decreases candidates@.len() - i,
    {
        if let Some(id) = candidates[i].attempt_id {
            if id == attempt_id {
                return i;
            }
        }
        i = i + 1;
    }
    i
}

/// The candidate that an attempt made.
pub fn find_candidate<'a>(candidates: &'a Vec<CandidateProjection>, attempt_id: EntityId) -> (found:
    Option<&'a CandidateProjection>)
    ensures
        ({
            let at = candidate_from(candidates@, attempt_id, 0);
            match found {
                Some(candidate) => at < candidates@.len() && *candidate == candidates@[at],
                None => at == candidates@.len(),
            }
        }),
{
    let at: usize = find_candidate_index(candidates, attempt_id);
    if at < candidates.len() {
        Some(&candidates[at])
    } else {
        None
    }
}

/// The artifact of a capsule, with the reference to its source.
pub open spec fn is_packed(
    packed: CapsuleArtifact,
    reference: CapsuleReference,
    artifact: ExportedArtifact,
    kind: CapsuleKind,
) -> bool {
    &&& packed.record == artifact.record
    &&& match (packed.source, kind) {
        (Some(text), CapsuleKind::Portable) => valid_utf8(artifact.source@) && text@
            == decode_utf8(artifact.source@),
        (None, CapsuleKind::Thin) => true,
        _ => false,
    }
    &&& reference.owner_kind@ == "artifact-revision"@
    &&& reference.owner_id@ == hash_text(artifact.record.revision_hash@)
    &&& reference.blob_hash == artifact.record.source_blob_hash
    &&& reference.embedded == (kind == CapsuleKind::Portable)
}

/// The first of the artifacts from place `i` on whose source is no text.
pub open spec fn first_binary(artifacts: Seq<ExportedArtifact>, i: int) -> Option<ContentHash>
    decreases artifacts.len() - i,
{
    if i < 0 || i >= artifacts.len() {
        None
    } else if !valid_utf8(artifacts[i].source@) {
        Some(artifacts[i].record.revision_hash)
    } else {
        first_binary(artifacts, i + 1)
    }
}

/// The first of the artifacts that cannot be packed: only what is portable holds
/// the sources, as texts.
pub open spec fn unpackable(artifacts: Seq<ExportedArtifact>, kind: CapsuleKind) -> Option<
    ContentHash,
> {
    match kind {
        CapsuleKind::Portable => first_binary(artifacts, 0),
        CapsuleKind::Thin => None,
    }
}

fn copy_record(record: &ArtifactRecord) -> (copy: ArtifactRecord)
    ensures
        copy == *record,
{
    ArtifactRecord {
        revision_hash: record.revision_hash,
        kind: record.kind,
        source_format: record.source_format.clone(),
        semantic_hash: record.semantic_hash,
        source_blob_hash: record.source_blob_hash,
        imported_event_id: record.imported_event_id.clone(),
    }
}

fn pack_artifacts(artifacts: Vec<ExportedArtifact>, kind: CapsuleKind) -> (r: Result<
    (Vec<CapsuleArtifact>, Vec<CapsuleReference>),
    CapsuleError,
>)
    ensures
        match (r, unpackable(artifacts@, kind)) {
            (Ok((packed, references)), None) => {
                &&& packed@.len() == artifacts@.len()
                &&& references@.len() == artifacts@.len()
                &&& forall|i: int|
                    0 <= i < artifacts@.len() ==> is_packed(
                        #[trigger] packed@[i],
                        references@[i],
                        artifacts@[i],
                        kind,
                    )
            },
            (Err(e), Some(hash)) => e == CapsuleError::ArtifactSourceNotUtf8(hash),
            _ => false,
        },
{
    let mut packed: Vec<CapsuleArtifact> = Vec::new();
    let mut references: Vec<CapsuleReference> = Vec::new();
    let mut i: usize = 0;
    while i < artifacts.len()
        invariant
            i <= artifacts@.len(),
            packed@.len() == i,
            references@.len() == i,
            kind == CapsuleKind::Portable ==> first_binary(artifacts@, 0) == first_binary(
                artifacts@,
                i as int,
            ),
            forall|j: int|
                0 <= j < i ==> is_packed(
                    #[trigger] packed@[j],
                    references@[j],
                    artifacts@[j],
                    kind,
                ),
        decreases artifacts@.len() - i,
    {
        let artifact = &artifacts[i];
        let source: Option<String> = match kind {
            CapsuleKind::Portable => match text_from_utf8(copy_bytes(&artifact.source)) {
                Some(text) => Some(text),
                None => {
                    return Err(
                        CapsuleError::ArtifactSourceNotUtf8(artifact.record.revision_hash),
                    );
                },
            },
            CapsuleKind::Thin => None,
        };
        references.push(
            CapsuleReference {
                owner_kind: "artifact-revision".to_owned(),
                owner_id: artifact.record.revision_hash.text(),
                blob_hash: artifact.record.source_blob_hash,
                embedded: source.is_some(),
            },
        );
        packed.push(CapsuleArtifact { record: copy_record(&artifact.record), source });
        i = i + 1;
    }
    Ok((packed, references))
}

/// The capsule that some parts make, before anything is taken from it.
pub open spec fn is_capsule_of(
    capsule: TurnCapsule,
    parts: CapsuleParts,
    kind: CapsuleKind,
) -> bool {
    &&& capsule.format@ == CAPSULE_FORMAT@
    &&& capsule.version@ == CAPSULE_VERSION@
    &&& capsule.kind == kind
    &&& capsule.engine.version == parts.engine_version
    &&& capsule.compatibility.profile == parts.configuration.configuration.compatibility_profile
    &&& capsule.compatibility.feature_manifest_digest == parts.feature_manifest_digest
    &&& capsule.identity == (CapsuleIdentity {
        session_id: parts.projection.turn.session_id,
        branch_id: parts.projection.turn.branch_id,
        turn_id: parts.projection.turn.turn_id,
        attempt_id: parts.projection.attempt.attempt_id,
    })
    &&& capsule.artifacts@.len() == parts.artifacts@.len()
    &&& capsule.references@.len() == parts.artifacts@.len()
    &&& forall|i: int|
        0 <= i < parts.artifacts@.len() ==> is_packed(
            #[trigger] capsule.artifacts@[i],
            capsule.references@[i],
            parts.artifacts@[i],
            kind,
        )
    &&& capsule.configuration == Some(parts.configuration)
    &&& capsule.baseline == Some(
        CapsuleBaseline { session: parts.session, branch: parts.branch },
    )
    &&& capsule.effects == parts.effects
    &&& capsule.prompt == Some(parts.prompt)
    &&& capsule.provider.request_hash == parts.projection.attempt.provider_request_hash
    &&& capsule.provider.receipt == parts.provider_receipt
    &&& capsule.result.projection == Some(parts.projection)
    &&& capsule.result.projection_hash is Some
    &&& canonical_hash_of(SESSION_PROJECTION_DOMAIN@, parts.projection.value@) == Some(
        capsule.result.projection_hash->0@,
    )
    &&& capsule.redactions@.len() == 0
}

/// A capsule as it is given away: without its content where that is asked for.
pub open spec fn is_shown(whole: TurnCapsule, shown: TurnCapsule, redact: bool) -> bool {
    if redact {
        is_redaction(whole, shown)
    } else {
        shown == whole
    }
}

/// The capsule that some parts make, with its content taken from it where that
/// is asked for, and with its capabilities worked out.
pub open spec fn is_exported(
    capsule: TurnCapsule,
    parts: CapsuleParts,
    kind: CapsuleKind,
    redact: bool,
    blobs: Seq<ContentHash>,
) -> bool {
    exists|whole: TurnCapsule, shown: TurnCapsule|
        {
            &&& #[trigger] is_capsule_of(whole, parts, kind)
            &&& #[trigger] is_shown(whole, shown, redact)
            &&& capsule == (TurnCapsule { capabilities: capabilities_of(shown, blobs), ..shown })
        }
}

/// Why some parts make no capsule: what came of the turn has no canonical form,
/// or else a source is no text.
pub open spec fn is_unexportable(parts: CapsuleParts, kind: CapsuleKind, e: CapsuleError) -> bool {
    if canonical_hash_of(SESSION_PROJECTION_DOMAIN@, parts.projection.value@) is None {
        e == CapsuleError::Json
    } else {
        unpackable(parts.artifacts@, kind) matches Some(hash) && e
            == CapsuleError::ArtifactSourceNotUtf8(hash)
    }
}

fn assemble(parts: CapsuleParts, kind: CapsuleKind) -> (r: Result<TurnCapsule, CapsuleError>)
    ensures
        match r {
            Ok(capsule) => is_capsule_of(capsule, parts, kind) && unpackable(
                parts.artifacts@,
                kind,
            ) is None,
            Err(e) => is_unexportable(parts, kind, e),
        },
{
    let projection_hash = match session_projection_hash(&parts.projection.value) {
        Ok(hash) => hash,
        Err(_) => return Err(CapsuleError::Json),
    };
    let (artifacts, references) = match pack_artifacts(parts.artifacts, kind) {
        Ok(packed) => packed,
        Err(e) => return Err(e),
    };
    let ran = parts.effects.is_some();
    let finished = parts.projection.attempt.status != AttemptStatus::Running;
    Ok(
        TurnCapsule {
            format: CAPSULE_FORMAT.to_owned(),
            version: CAPSULE_VERSION.to_owned(),
            kind,
            engine: CapsuleEngine { version: parts.engine_version },
            compatibility: CapsuleCompatibility {
                profile: parts.configuration.configuration.compatibility_profile.clone(),
                feature_manifest_digest: parts.feature_manifest_digest,
            },
            identity: CapsuleIdentity {
                session_id: parts.projection.turn.session_id,
                branch_id: parts.projection.turn.branch_id,
                turn_id: parts.projection.turn.turn_id,
                attempt_id: parts.projection.attempt.attempt_id,
            },
            artifacts,
            configuration: Some(parts.configuration),
            baseline: Some(CapsuleBaseline { session: parts.session, branch: parts.branch }),
            effects: parts.effects,
            prompt: Some(parts.prompt),
            provider: CapsuleProvider {
                request_hash: parts.projection.attempt.provider_request_hash,
                receipt: parts.provider_receipt,
            },
            result: CapsuleResult {
                projection: Some(parts.projection),
                projection_hash: Some(projection_hash),
            },
            references,
            redactions: Vec::new(),
            capabilities: CapsuleCapabilities { inspect: true, replay: ran, rerun: ran && finished },
        },
    )
}

/// Makes a capsule of a turn.
pub fn export_turn_capsule(
    parts: CapsuleParts,
    kind: CapsuleKind,
    redact: bool,
    blobs: &Vec<ContentHash>,
) -> (r: Result<TurnCapsule, CapsuleError>)
    ensures
        match r {
            Ok(capsule) => is_exported(capsule, parts, kind, redact, blobs@) && unpackable(
                parts.artifacts@,
                kind,
            ) is None,
            Err(e) => is_unexportable(parts, kind, e),
        },
{
    let mut capsule = match assemble(parts, kind) {
        Ok(capsule) => capsule,
        Err(e) => return Err(e),
    };
    let ghost whole = capsule;
    if redact {
        capsule.redact_content();
    }
    let ghost shown = capsule;
    capsule.recalculate_capabilities(blobs);
    proof {
        assert(is_capsule_of(whole, parts, kind));
        assert(is_shown(whole, shown, redact));
    }
    Ok(capsule)
}

/// The identities that an imported turn is given.
#[derive(Clone, Copy, Debug, Eq, PartialEq, Structural)]
pub struct FreshIdentities {
    pub session_id: EntityId,
    pub branch_id: EntityId,
    pub turn_id: EntityId,
    pub attempt_id: EntityId,
    pub candidate_id: EntityId,
}

/// A reply that is kept of an imported turn.
#[derive(Clone, Debug)]
pub struct ImportedCandidate {
    pub candidate_id: EntityId,
    pub origin: &'static str,
    pub content: String,
}

/// A variable that is kept of an imported turn.
#[derive(Clone, Debug)]
pub struct ImportedCell {
    pub name: String,
    pub value: Vec<u8>,
    pub raw_value: String,
    pub owner: String,
    pub origin: String,
    pub revision: u64,
}

/// What is kept of an imported turn, and what is told of it.
#[derive(Debug)]
pub struct ImportPlan {
    pub imported: ImportedCapsule,
    pub configuration_hash: ContentHash,
    pub configuration_body: Vec<u8>,
    pub prompt_body: Vec<u8>,
    pub effect_body: Option<Vec<u8>>,
    pub provider_body: Option<Vec<u8>>,
    pub status: &'static str,
    pub candidate: Option<ImportedCandidate>,
    pub cells: Vec<ImportedCell>,
    pub capsule_kind: &'static str,
    /// The whole of the capsule, and the hash that it is kept under.
    pub body: Vec<u8>,
    pub body_hash: ContentHash,
    /// The places of the artifacts that are to be imported from their sources.
    pub imports: Vec<usize>,
    pub configuration_event: Json,
    pub session_event: Json,
    pub turn_event: Json,
    pub attempt_event: Json,
    pub completion_event: Json,
}

/// What is told of the configuration of an imported turn.
pub open spec fn configuration_event_of(configuration: SessionConfigurationRecord) -> JsonView {
    JsonView::Object(
        object_of(
            named().push(("revision_hash"@, hash_value(configuration.revision_hash@))).push(
                ("configuration"@, configuration.configuration.value@),
            ),
        ),
    )
}

fn tell_configuration(configuration: &SessionConfigurationRecord) -> (event: Json)
    ensures
        event@ == configuration_event_of(*configuration),
{
    let mut pairs = no_pairs();
    push_hash(&mut pairs, "revision_hash", &configuration.revision_hash);
    push_pair(&mut pairs, "configuration", configuration.configuration.value.copy());
    object(pairs)
}

/// The place of the greeting of a branch as a JSON number, ordered by `order`.
pub open spec fn greeting_number(branch: BranchProjection, order: i64) -> JsonView {
    JsonView::Number(
        JsonNumberView { form: NumberFormView::Unsigned(branch.greeting_index as u64), order },
    )
}

/// What is told of the session of an imported turn.
pub open spec fn session_event_of(
    ids: FreshIdentities,
    configuration_hash: Seq<u8>,
    branch: BranchProjection,
    order: i64,
    capsule_hash: Seq<u8>,
) -> JsonView {
    JsonView::Object(
        object_of(
            named().push(("session_id"@, id_value(ids.session_id))).push(
                ("configuration_revision"@, hash_value(configuration_hash)),
            ).push(("root_branch_id"@, id_value(ids.branch_id))).push(
                ("greeting_revision"@, hash_value(branch.greeting_revision_hash@)),
            ).push(("greeting_index"@, greeting_number(branch, order))).push(
                ("imported_from_capsule"@, hash_value(capsule_hash)),
            ),
        ),
    )
}

fn tell_session(
    ids: &FreshIdentities,
    configuration_hash: &ContentHash,
    branch: &BranchProjection,
    order: i64,
    capsule_hash: &ContentHash,
) -> (event: Json)
    ensures
        event@ == session_event_of(
            *ids,
            configuration_hash@,
            *branch,
            order,
            capsule_hash@,
        ),
{
    let mut pairs = no_pairs();
    push_id(&mut pairs, "session_id", ids.session_id);
    push_hash(&mut pairs, "configuration_revision", configuration_hash);
    push_id(&mut pairs, "root_branch_id", ids.branch_id);
    push_hash(&mut pairs, "greeting_revision", &branch.greeting_revision_hash);
    let index = JsonNumber { form: NumberForm::Unsigned(branch.greeting_index as u64), order };
    push_pair(&mut pairs, "greeting_index", Json::Number(index));
    push_hash(&mut pairs, "imported_from_capsule", capsule_hash);
    object(pairs)
}

/// What is told of an imported turn.
pub open spec fn turn_event_of(ids: FreshIdentities, user_content: Seq<char>) -> JsonView {
    JsonView::Object(
        object_of(
            named().push(("turn_id"@, id_value(ids.turn_id))).push(
                ("branch_id"@, id_value(ids.branch_id)),
            ).push(("user_content"@, JsonView::Text(user_content))),
        ),
    )
}

fn tell_turn(ids: &FreshIdentities, user_content: &str) -> (event: Json)
    ensures
        event@ == turn_event_of(*ids, user_content@),
{
    let mut pairs = no_pairs();
    push_id(&mut pairs, "turn_id", ids.turn_id);
    push_id(&mut pairs, "branch_id", ids.branch_id);
    push_text(&mut pairs, "user_content", user_content);
    object(pairs)
}

/// What is told of the start of an imported attempt.
pub open spec fn attempt_event_of(
    ids: FreshIdentities,
    configuration_hash: Seq<u8>,
    attempt: AttemptProjection,
) -> JsonView {
    JsonView::Object(
        object_of(
            named().push(("attempt_id"@, id_value(ids.attempt_id))).push(
                ("turn_id"@, id_value(ids.turn_id)),
            ).push(("config_hash"@, hash_value(configuration_hash))).push(
                ("retry_of_attempt_id"@, JsonView::Null),
            ).push(("prompt_plan"@, attempt.prompt_value@)).push(
                ("effect_receipt"@, value_or_null(attempt.effect_value)),
            ),
        ),
    )
}

fn tell_attempt(
    ids: &FreshIdentities,
    configuration_hash: &ContentHash,
    attempt: &AttemptProjection,
) -> (event: Json)
    ensures
        event@ == attempt_event_of(*ids, configuration_hash@, *attempt),
{
    let mut pairs = no_pairs();
    push_id(&mut pairs, "attempt_id", ids.attempt_id);
    push_id(&mut pairs, "turn_id", ids.turn_id);
    push_hash(&mut pairs, "config_hash", configuration_hash);
    push_pair(&mut pairs, "retry_of_attempt_id", Json::Null);
    push_pair(&mut pairs, "prompt_plan", attempt.prompt_value.copy());
    push_pair(&mut pairs, "effect_receipt", copy_or_null(&attempt.effect_value));
    object(pairs)
}

/// The identity of the reply of an imported turn, where there is one.
pub open spec fn imported_candidate_id(
    ids: FreshIdentities,
    candidate: Option<CandidateProjection>,
) -> Option<EntityId> {
    match candidate {
        Some(_) => Some(ids.candidate_id),
        None => None,
    }
}

/// A candidate that may be absent as JSON.
pub open spec fn candidate_value(candidate: Option<CandidateProjection>) -> JsonView {
    match candidate {
        Some(c) => c.value@,
        None => JsonView::Null,
    }
}

/// What is told of the end of an imported attempt.
pub open spec fn completion_event_of(
    ids: FreshIdentities,
    projection: SessionProjectionSnapshot,
    capsule_hash: Seq<u8>,
) -> JsonView {
    JsonView::Object(
        object_of(
            named().push(("attempt_id"@, id_value(ids.attempt_id))).push(
                ("turn_id"@, id_value(ids.turn_id)),
            ).push(("status"@, JsonView::Text(status_name(projection.attempt.status)))).push(
                (
                    "provider_request_hash"@,
                    optional_hash_value(projection.attempt.provider_request_hash),
                ),
            ).push(
                ("provider_receipt"@, value_or_null(projection.attempt.provider_receipt)),
            ).push(
                (
                    "error_message"@,
                    text_or_null(option_view(projection.attempt.error_message)),
                ),
            ).push(
                (
                    "candidate_id"@,
                    optional_id_value(imported_candidate_id(ids, projection.candidate)),
                ),
            ).push(("candidate"@, candidate_value(projection.candidate))).push(
                ("state"@, projection.state_value@),
            ).push(("source_capsule_hash"@, hash_value(capsule_hash))),
        ),
    )
}

fn tell_completion(
    ids: &FreshIdentities,
    projection: &SessionProjectionSnapshot,
    capsule_hash: &ContentHash,
) -> (event: Json)
    ensures
        event@ == completion_event_of(*ids, *projection, capsule_hash@),
{
    let attempt = &projection.attempt;
    let mut pairs = no_pairs();
    push_id(&mut pairs, "attempt_id", ids.attempt_id);
    push_id(&mut pairs, "turn_id", ids.turn_id);
    push_text(&mut pairs, "status", attempt_status_name(attempt.status));
    let request_hash: Json = match &attempt.provider_request_hash {
        Some(hash) => Json::Text(hash.text()),
        None => Json::Null,
    };
    push_pair(&mut pairs, "provider_request_hash", request_hash);
    push_pair(&mut pairs, "provider_receipt", copy_or_null(&attempt.provider_receipt));
    push_pair(&mut pairs, "error_message", optional_text(&attempt.error_message));
    let candidate_id: Json = match &projection.candidate {
        Some(_) => Json::Text(ids.candidate_id.text()),
        None => Json::Null,
    };
    push_pair(&mut pairs, "candidate_id", candidate_id);
    let candidate: Json = match &projection.candidate {
        Some(c) => c.value.copy(),
        None => Json::Null,
    };
    push_pair(&mut pairs, "candidate", candidate);
    push_pair(&mut pairs, "state", projection.state_value.copy());
    push_hash(&mut pairs, "source_capsule_hash", capsule_hash);
    object(pairs)
}

/// The variable that is kept of one that a capsule brings.
pub open spec fn is_kept_cell(cell: ImportedCell, stored: StoredCell) -> bool {
    &&& cell.name == stored.key.name
    &&& canonical_of(stored.value@) == Some(cell.value@)
    &&& cell.raw_value == stored.raw_value
    &&& cell.owner == stored.owner
    &&& cell.origin == stored.origin
    &&& cell.revision == stored.revision
}

/// The places of those of the first `count` variables that belong to the
/// session alone.
pub open spec fn local_places(state: Seq<StoredCell>, count: int) -> Seq<int>
    decreases count,
{
    if count <= 0 {
        Seq::empty()
    } else if state[count - 1].key.scope == VariableScope::Local {
        local_places(state, count - 1).push(count - 1)
    } else {
        local_places(state, count - 1)
    }
}

/// The variables that are kept: those that belong to the session alone.
pub open spec fn are_kept_cells(cells: Seq<ImportedCell>, state: Seq<StoredCell>, count: int) -> bool {
    let places = local_places(state, count);
    &&& cells.len() == places.len()
    &&& forall|i: int|
        0 <= i < cells.len() ==> is_kept_cell(#[trigger] cells[i], state[places[i]])
}

fn keep_cells(state: &Vec<StoredCell>) -> (r: Option<Vec<ImportedCell>>)
    ensures
        match r {
            Some(cells) => are_kept_cells(cells@, state@, state@.len() as int),
            None => exists|i: int|
                0 <= i < state@.len() && canonical_of((#[trigger] state@[i]).value@) is None,
        },
{
    let mut cells: Vec<ImportedCell> = Vec::new();
    let mut i: usize = 0;
    while i < state.len()
        invariant
            i <= state@.len(),
            are_kept_cells(cells@, state@, i as int),
        decreases state@.len() - i,
    {
        let stored = &state[i];
        if stored.key.scope == VariableScope::Local {
            let value = match canonical_json(&stored.value) {
                Ok(bytes) => bytes,
                Err(_) => {
                    proof {
                        assert(canonical_of(state@[i as int].value@) is None);
                    }
                    return None;
                },
            };
            let ghost before = cells@;
            let ghost places = local_places(state@, i as int);
            cells.push(
                ImportedCell {
                    name: stored.key.name.clone(),
                    value,
                    raw_value: stored.raw_value.clone(),
                    owner: stored.owner.clone(),
                    origin: stored.origin.clone(),
                    revision: stored.revision,
                },
            );
            proof {
                let next = local_places(state@, i + 1);
                assert(next == places.push(i as int));
                assert forall|j: int| 0 <= j < cells@.len() implies is_kept_cell(
                    #[trigger] cells@[j],
                    state@[next[j]],
                ) by {
                    if j < before.len() {
                        assert(cells@[j] == before[j]);
                        assert(next[j] == places[j]);
                    }
                }
            }
        }
        i = i + 1;
    }
    Some(cells)
}

/// The bytes of a value that may be absent.
pub open spec fn is_body(body: Option<Vec<u8>>, value: Option<Json>) -> bool {
    match (body, value) {
        (Some(bytes), Some(v)) => canonical_of(v@) == Some(bytes@),
        (None, None) => true,
        _ => false,
    }
}

fn encode_optional(value: &Option<Json>) -> (r: Option<Option<Vec<u8>>>)
    ensures
        match r {
            Some(body) => is_body(body, *value),
            None => *value is Some && canonical_of(value->0@) is None,
        },
{
    match value {
        Some(v) => match canonical_json(v) {
            Ok(bytes) => Some(Some(bytes)),
            Err(_) => None,
        },
        None => Some(None),
    }
}

/// The reply that is kept of one that a capsule brings.
pub open spec fn is_kept_candidate(
    kept: Option<ImportedCandidate>,
    ids: FreshIdentities,
    candidate: Option<CandidateProjection>,
) -> bool {
    match (kept, candidate) {
        (Some(k), Some(c)) => {
            &&& k.candidate_id == ids.candidate_id
            &&& k.origin@ == origin_name(c.origin)
            &&& k.content == c.content
        },
        (None, None) => true,
        _ => false,
    }
}

/// What is kept of an imported turn, and what is told of it.
pub open spec fn is_plan(
    plan: ImportPlan,
    capsule: TurnCapsule,
    value: JsonView,
    capsule_hash: ContentHash,
    kept: Seq<ContentHash>,
    ids: FreshIdentities,
    order: i64,
) -> bool {
    let configuration = capsule.configuration->0;
    let projection = capsule.result.projection->0;
    &&& plan.imported == (ImportedCapsule {
        capsule_hash,
        session_id: ids.session_id,
        branch_id: ids.branch_id,
        turn_id: ids.turn_id,
        attempt_id: ids.attempt_id,
        candidate_id: imported_candidate_id(ids, projection.candidate),
    })
    &&& plan.configuration_hash == configuration.revision_hash
    &&& canonical_of(configuration.configuration.value@) == Some(plan.configuration_body@)
    &&& canonical_of(projection.attempt.prompt_value@) == Some(plan.prompt_body@)
    &&& is_body(plan.effect_body, projection.attempt.effect_value)
    &&& is_body(plan.provider_body, projection.attempt.provider_receipt)
    &&& plan.status@ == status_name(projection.attempt.status)
    &&& is_kept_candidate(plan.candidate, ids, projection.candidate)
    &&& are_kept_cells(plan.cells@, projection.state@, projection.state@.len() as int)
    &&& plan.capsule_kind@ == capsule_kind_text(capsule.kind)
    &&& canonical_of(value) == Some(plan.body@)
    &&& plan.body_hash@ == blob_hash_of(plan.body@)
    &&& index_views(plan.imports@) == places_to_import(
        capsule.artifacts@,
        kept,
        capsule.artifacts@.len() as int,
    )
    &&& plan.configuration_event@ == configuration_event_of(configuration)
    &&& plan.session_event@ == session_event_of(
        ids,
        configuration.revision_hash@,
        capsule.baseline->0.branch,
        order,
        capsule_hash@,
    )
    &&& plan.turn_event@ == turn_event_of(ids, projection.turn.user_content@)
    &&& plan.attempt_event@ == attempt_event_of(
        ids,
        configuration.revision_hash@,
        projection.attempt,
    )
    &&& plan.completion_event@ == completion_event_of(ids, projection, capsule_hash@)
}

/// Some value that is to be kept cannot be written.
pub open spec fn is_unwritable(
    projection: SessionProjectionSnapshot,
    configuration: JsonView,
    value: JsonView,
) -> bool {
    ||| canonical_of(value) is None
    ||| canonical_of(configuration) is None
    ||| canonical_of(projection.attempt.prompt_value@) is None
    ||| projection.attempt.effect_value matches Some(v) && canonical_of(v@) is None
    ||| projection.attempt.provider_receipt matches Some(v) && canonical_of(v@) is None
    ||| exists|i: int|
        0 <= i < projection.state@.len() && canonical_of((#[trigger] projection.state@[i]).value@)
            is None
}

/// The data that is missing for an import, if any is.
pub open spec fn import_gap(capsule: TurnCapsule) -> Option<CapsuleError> {
    if capsule.configuration is None {
        Some(CapsuleError::MissingReplayData("configuration"))
    } else if capsule.baseline is None {
        Some(CapsuleError::MissingReplayData("baseline"))
    } else if capsule.result.projection is None {
        Some(CapsuleError::MissingReplayData("result.projection"))
    } else {
        None
    }
}

/// The revision that the source of an artifact is imported as.
pub open spec fn imported_revision(artifact: CapsuleArtifact) -> Seq<u8> {
    revision_hash_of(
        kind_name(artifact.record.kind),
        "json"@,
        encode_utf8(artifact.source->0@),
    )
}

/// What keeps the artifact of a capsule from being imported, if anything does:
/// where its revision is not kept, its source has to be there and be imported as
/// that revision.
pub open spec fn artifact_gap(artifact: CapsuleArtifact, kept: Seq<ContentHash>) -> Option<
    CapsuleError,
> {
    if at_hand(kept, artifact.record.revision_hash@) {
        None
    } else if artifact.source is None {
        Some(CapsuleError::MissingReferencedBlob(artifact.record.source_blob_hash))
    } else if imported_revision(artifact) != artifact.record.revision_hash@ {
        Some(CapsuleError::ArtifactHashMismatch(artifact.record.revision_hash))
    } else {
        None
    }
}

/// What keeps the first of the artifacts from place `i` on from being imported
/// of which anything does.
pub open spec fn artifacts_gap(
    artifacts: Seq<CapsuleArtifact>,
    kept: Seq<ContentHash>,
    i: int,
) -> Option<CapsuleError>
    decreases artifacts.len() - i,
{
    if i < 0 || i >= artifacts.len() {
        None
    } else {
        match artifact_gap(artifacts[i], kept) {
            Some(e) => Some(e),
            None => artifacts_gap(artifacts, kept, i + 1),
        }
    }
}

/// The places of those of the first `count` artifacts whose revisions are not
/// kept.
pub open spec fn places_to_import(
    artifacts: Seq<CapsuleArtifact>,
    kept: Seq<ContentHash>,
    count: int,
) -> Seq<int>
    decreases count,
{
    if count <= 0 {
        Seq::empty()
    } else if at_hand(kept, artifacts[count - 1].record.revision_hash@) {
        places_to_import(artifacts, kept, count - 1)
    } else {
        places_to_import(artifacts, kept, count - 1).push(count - 1)
    }
}

fn plan_imports(artifacts: &Vec<CapsuleArtifact>, kept: &Vec<ContentHash>) -> (r: Result<
    Vec<usize>,
    CapsuleError,
>)
    ensures
        match r {
            Ok(places) => artifacts_gap(artifacts@, kept@, 0) is None && index_views(places@)
                == places_to_import(artifacts@, kept@, artifacts@.len() as int),
            Err(e) => artifacts_gap(artifacts@, kept@, 0) == Some(e),
        },
{
    let mut places: Vec<usize> = Vec::new();
    let mut i: usize = 0;
    proof {
        assert(index_views(places@) =~= Seq::<int>::empty());
    }
    while i < artifacts.len()
        invariant
            i <= artifacts@.len(),
            artifacts_gap(artifacts@, kept@, 0) == artifacts_gap(artifacts@, kept@, i as int),
            index_views(places@) == places_to_import(artifacts@, kept@, i as int),
        decreases artifacts@.len() - i,
    {
        let record = &artifacts[i].record;
        if !check_at_hand(kept, &record.revision_hash) {
            let source = match &artifacts[i].source {
                Some(source) => source,
                None => return Err(CapsuleError::MissingReferencedBlob(record.source_blob_hash)),
            };
            let imported = artifact_revision_hash(
                record.kind.as_str(),
                "json",
                source.as_str().as_bytes(),
            );
            if !imported.same(&record.revision_hash) {
                return Err(CapsuleError::ArtifactHashMismatch(record.revision_hash));
            }
            let ghost before = places@;
            places.push(i);
            proof {
                assert(index_views(places@) =~= index_views(before).push(i as int));
            }
        }
        i = i + 1;
    }
    Ok(places)
}

/// What the store holds of a capsule that was imported before. The identity of
/// its session is absent where it cannot be read.
#[derive(Clone, Debug)]
pub struct EarlierImport {
    pub session_id: Option<EntityId>,
    pub session: Option<SessionProjection>,
    pub first_turn: Option<TurnProjection>,
    pub first_attempt: Option<EntityId>,
}

/// The identities of a capsule that was imported before, or what of it is gone.
pub open spec fn known_import(capsule_hash: ContentHash, earlier: EarlierImport) -> Result<
    ImportedCapsule,
    CapsuleError,
> {
    match (earlier.session_id, earlier.session, earlier.first_turn, earlier.first_attempt) {
        (None, _, _, _) => Err(CapsuleError::StoredIdentityInvalid),
        (Some(id), None, _, _) => Err(CapsuleError::SessionNotFound(id)),
        (Some(_), Some(_), None, _) => Err(CapsuleError::ImportedTurnMissing),
        (Some(_), Some(_), Some(_), None) => Err(CapsuleError::ImportedAttemptMissing),
        (Some(session_id), Some(session), Some(turn), Some(attempt_id)) => Ok(
            ImportedCapsule {
                capsule_hash,
                session_id,
                branch_id: session.root_branch_id,
                turn_id: turn.turn_id,
                attempt_id,
                candidate_id: turn.selected_candidate_id,
            },
        ),
    }
}

/// The identities of a capsule that was imported before.
pub fn already_imported(capsule_hash: ContentHash, earlier: &EarlierImport) -> (r: Result<
    ImportedCapsule,
    CapsuleError,
>)
    ensures
        r == known_import(capsule_hash, *earlier),
{
    let session_id = match earlier.session_id {
        Some(session_id) => session_id,
        None => return Err(CapsuleError::StoredIdentityInvalid),
    };
    let branch_id = match &earlier.session {
        Some(session) => session.root_branch_id,
        None => return Err(CapsuleError::SessionNotFound(session_id)),
    };
    let (turn_id, candidate_id) = match &earlier.first_turn {
        Some(turn) => (turn.turn_id, turn.selected_candidate_id),
        None => return Err(CapsuleError::ImportedTurnMissing),
    };
    match earlier.first_attempt {
        Some(attempt_id) => Ok(
            ImportedCapsule {
                capsule_hash,
                session_id,
                branch_id,
                turn_id,
                attempt_id,
                candidate_id,
            },
        ),
        None => Err(CapsuleError::ImportedAttemptMissing),
    }
}

/// What comes of a capsule that is imported: it was imported before, or that is
/// kept of it.
#[derive(Debug)]
pub enum ImportStep {
    Known(ImportedCapsule),
    Plan(ImportPlan),
}

/// What importing a sound capsule that is new comes to.
pub open spec fn is_new_import(
    r: Result<ImportStep, CapsuleError>,
    capsule: TurnCapsule,
    value: JsonView,
    capsule_hash: ContentHash,
    kept: Seq<ContentHash>,
    ids: FreshIdentities,
    order: i64,
) -> bool {
    match artifacts_gap(capsule.artifacts@, kept, 0) {
        Some(e) => r == Err::<ImportStep, CapsuleError>(e),
        None => match import_gap(capsule) {
            Some(e) => r == Err::<ImportStep, CapsuleError>(e),
            None => match r {
                Ok(ImportStep::Plan(plan)) => is_plan(
                    plan,
                    capsule,
                    value,
                    capsule_hash,
                    kept,
                    ids,
                    order,
                ),
                Ok(ImportStep::Known(_)) => false,
                Err(e) => e == CapsuleError::Json && is_unwritable(
                    capsule.result.projection->0,
                    capsule.configuration->0.configuration.value@,
                    value,
                ),
            },
        },
    }
}

/// What importing a capsule comes to: one that cannot be replayed or is not sound
/// is refused, one that was imported before is known, and of any other it is
/// told what is kept.
pub open spec fn is_import_step(
    r: Result<ImportStep, CapsuleError>,
    capsule: TurnCapsule,
    value: JsonView,
    facts: CapsuleFacts,
    earlier: Option<EarlierImport>,
    kept: Seq<ContentHash>,
    ids: FreshIdentities,
    order: i64,
) -> bool {
    if !capsule.capabilities.replay {
        r == Err::<ImportStep, CapsuleError>(CapsuleError::CapabilityDenied("replay"))
    } else {
        match capsule_fault(capsule, facts) {
            Some(fault) => r matches Err(e) && is_capsule_error(e, fault),
            None => match canonical_hash_of(CAPSULE_DOMAIN@, value) {
                None => r == Err::<ImportStep, CapsuleError>(CapsuleError::Json),
                Some(hash) => exists|capsule_hash: ContentHash|
                    #![trigger capsule_hash@]
                    capsule_hash@ == hash && match earlier {
                        Some(found) => r == match known_import(capsule_hash, found) {
                            Ok(known) => Ok::<ImportStep, CapsuleError>(ImportStep::Known(known)),
                            Err(e) => Err(e),
                        },
                        None => is_new_import(r, capsule, value, capsule_hash, kept, ids, order),
                    },
            },
        }
    }
}

/// Imports a capsule, given what the store holds of an earlier import of it and
/// which revisions of artifacts it keeps. `order` is that by which the place of
/// its greeting is ordered among JSON numbers.
pub fn import_turn_capsule(
    capsule: &TurnCapsule,
    bodies: &CapsuleBodies,
    facts: &CapsuleFacts,
    earlier: Option<EarlierImport>,
    kept: &Vec<ContentHash>,
    ids: FreshIdentities,
    order: i64,
) -> (r: Result<ImportStep, CapsuleError>)
    requires
        facts.parses@.len() == capsule.artifacts@.len(),
    ensures
        is_import_step(
            r,
            *capsule,
            capsule_json(*capsule, *bodies),
            *facts,
            earlier,
            kept@,
            ids,
            order,
        ),
{
    if !capsule.capabilities.replay {
        return Err(CapsuleError::CapabilityDenied("replay"));
    }
    match capsule.validate(facts) {
        Ok(()) => {},
        Err(e) => return Err(e),
    }
    let value = capsule.to_json(bodies);
    let capsule_hash = match canonical_json_hash(CAPSULE_DOMAIN, &value) {
        Ok(hash) => hash,
        Err(_) => return Err(CapsuleError::Json),
    };
    proof {
        assert(canonical_hash_of(CAPSULE_DOMAIN@, value@) == Some(capsule_hash@));
    }
    match &earlier {
        Some(found) => match already_imported(capsule_hash, found) {
            Ok(known) => Ok(ImportStep::Known(known)),
            Err(e) => Err(e),
        },
        None => match plan_import(capsule, &value, capsule_hash, kept, ids, order) {
            Ok(plan) => Ok(ImportStep::Plan(plan)),
            Err(e) => Err(e),
        },
    }
}

fn plan_import(
    capsule: &TurnCapsule,
    value: &Json,
    capsule_hash: ContentHash,
    kept: &Vec<ContentHash>,
    ids: FreshIdentities,
    order: i64,
) -> (r: Result<ImportPlan, CapsuleError>)
    ensures
        is_new_import(
            match r {
                Ok(plan) => Ok(ImportStep::Plan(plan)),
                Err(e) => Err(e),
            },
            *capsule,
            value@,
            capsule_hash,
            kept@,
            ids,
            order,
        ),
{
    let imports = match plan_imports(&capsule.artifacts, kept) {
        Ok(imports) => imports,
        Err(e) => return Err(e),
    };
    let configuration = match &capsule.configuration {
        Some(configuration) => configuration,
        None => return Err(CapsuleError::MissingReplayData("configuration")),
    };
    let baseline = match &capsule.baseline {
        Some(baseline) => baseline,
        None => return Err(CapsuleError::MissingReplayData("baseline")),
    };
    let projection = match &capsule.result.projection {
        Some(projection) => projection,
        None => return Err(CapsuleError::MissingReplayData("result.projection")),
    };
    let configuration_body = match canonical_json(&configuration.configuration.value) {
        Ok(bytes) => bytes,
        Err(_) => return Err(CapsuleError::Json),
    };
    let prompt_body = match canonical_json(&projection.attempt.prompt_value) {
        Ok(bytes) => bytes,
        Err(_) => return Err(CapsuleError::Json),
    };
    let effect_body = match encode_optional(&projection.attempt.effect_value) {
        Some(body) => body,
        None => return Err(CapsuleError::Json),
    };
    let provider_body = match encode_optional(&projection.attempt.provider_receipt) {
        Some(body) => body,
        None => return Err(CapsuleError::Json),
    };
    let body = match canonical_json(value) {
        Ok(bytes) => bytes,
        Err(_) => return Err(CapsuleError::Json),
    };
    let cells = match keep_cells(&projection.state) {
        Some(cells) => cells,
        None => return Err(CapsuleError::Json),
    };
    let candidate: Option<ImportedCandidate> = match &projection.candidate {
        Some(c) => Some(
            ImportedCandidate {
                candidate_id: ids.candidate_id,
                origin: candidate_origin_name(c.origin),
                content: c.content.clone(),
            },
        ),
        None => None,
    };
    let candidate_id: Option<EntityId> = match &projection.candidate {
        Some(_) => Some(ids.candidate_id),
        None => None,
    };
    Ok(
        ImportPlan {
            imported: ImportedCapsule {
                capsule_hash,
                session_id: ids.session_id,
                branch_id: ids.branch_id,
                turn_id: ids.turn_id,
                attempt_id: ids.attempt_id,
                candidate_id,
            },
            configuration_hash: configuration.revision_hash,
            configuration_body,
            prompt_body,
            effect_body,
            provider_body,
            status: attempt_status_name(projection.attempt.status),
            candidate,
            cells,
            capsule_kind: capsule_kind_name(capsule.kind),
            body_hash: content_blob_hash(body.as_slice()),
            body,
            imports,
            configuration_event: tell_configuration(configuration),
            session_event: tell_session(
                &ids,
                &configuration.revision_hash,
                &baseline.branch,
                order,
                &capsule_hash,
            ),
            turn_event: tell_turn(&ids, projection.turn.user_content.as_str()),
            attempt_event: tell_attempt(&ids, &configuration.revision_hash, &projection.attempt),
            completion_event: tell_completion(&ids, projection, &capsule_hash),
        },
    )
}

/// The artifacts of a turn are those that its configuration names, each of them
/// once, and each source is the one that its record was made of. A capsule
/// without sources needs them at hand.
pub open spec fn are_sound_artifacts(
    parts: CapsuleParts,
    kind: CapsuleKind,
    facts: CapsuleFacts,
) -> bool {
    &&& forall|i: int, j: int|
        0 <= i < j < parts.artifacts@.len() ==> (#[trigger] parts.artifacts@[i]).record.revision_hash@
            != (#[trigger] parts.artifacts@[j]).record.revision_hash@
    &&& forall|i: int|
        0 <= i < parts.artifacts@.len() ==> match kind {
            CapsuleKind::Portable => source_fault(
                (#[trigger] parts.artifacts@[i]).record,
                decode_utf8(parts.artifacts@[i].source@),
                facts.parses@[i],
                facts.artifact_limit,
            ) is None,
            CapsuleKind::Thin => at_hand(
                facts.blobs@,
                parts.artifacts@[i].record.source_blob_hash@,
            ),
        }
    &&& forall|i: int|
        0 <= i < parts.artifacts@.len() ==> artifacts_of(
            parts.configuration.configuration,
        ).contains(hash_text((#[trigger] parts.artifacts@[i]).record.revision_hash@))
    &&& forall|k: int|
        0 <= k < artifacts_of(parts.configuration.configuration).len() ==> is_exported_revision(
            parts.artifacts@,
            #[trigger] artifacts_of(parts.configuration.configuration)[k],
        )
}

/// An artifact of that written revision is among those that go into a capsule.
pub open spec fn is_exported_revision(artifacts: Seq<ExportedArtifact>, name: Seq<char>) -> bool {
    exists|i: int|
        0 <= i < artifacts.len() && hash_text((#[trigger] artifacts[i]).record.revision_hash@)
            == name
}

/// What a turn left behind belongs together: its configuration has the hash it
/// is kept under, its effects are those of the request that was sent and of the
/// plugins that are pinned, and its attempt and candidate are the turn's own.
pub open spec fn is_sound_turn(parts: CapsuleParts, facts: CapsuleFacts) -> bool {
    let attempt = parts.projection.attempt;
    let turn = parts.projection.turn;
    &&& parts.feature_manifest_digest@ == facts.feature_manifest_digest@
    &&& canonical_hash_of(
        SESSION_CONFIGURATION_DOMAIN@,
        parts.configuration.configuration.value@,
    ) == Some(parts.configuration.revision_hash@)
    &&& parts.effects is Some
    &&& (parts.effects->0).provider_request_hash@ == facts.request_hash@
    &&& attempt.provider_request_hash is Some
    &&& (attempt.provider_request_hash->0)@ == facts.request_hash@
    &&& receipts_error(
        (parts.effects->0).plugins@,
        parts.configuration.configuration.plugins@,
        0,
    ) is None
    &&& attempt.turn_id == turn.turn_id
    &&& attempt.config_hash@ == parts.configuration.revision_hash@
    &&& parts.projection.candidate matches Some(candidate) ==> candidate.turn_id == turn.turn_id
        && candidate.attempt_id == Some(attempt.attempt_id)
}

proof fn lemma_sound_artifacts_are_taken(
    capsule: TurnCapsule,
    parts: CapsuleParts,
    kind: CapsuleKind,
    facts: CapsuleFacts,
    i: int,
)
    requires
        is_capsule_of(capsule, parts, kind),
        are_sound_artifacts(parts, kind, facts),
        0 <= i <= capsule.artifacts@.len(),
    ensures
        artifacts_fault(
            capsule.artifacts@,
            i,
            facts.parses@,
            facts.blobs@,
            facts.artifact_limit,
        ) is None,
    decreases capsule.artifacts@.len() - i,
{
    if i < capsule.artifacts@.len() {
        lemma_sound_artifacts_are_taken(capsule, parts, kind, facts, i + 1);
        let packed = capsule.artifacts@[i];
        assert(is_packed(packed, capsule.references@[i], parts.artifacts@[i], kind));
        if is_repeated(capsule.artifacts@, i) {
            let j = choose|j: int|
                0 <= j < i && (#[trigger] capsule.artifacts@[j]).record.revision_hash@
                    == packed.record.revision_hash@;
            assert(is_packed(
                capsule.artifacts@[j],
                capsule.references@[j],
                parts.artifacts@[j],
                kind,
            ));
            assert(parts.artifacts@[j].record.revision_hash@
                != parts.artifacts@[i].record.revision_hash@);
        }
    }
}

proof fn lemma_sound_artifacts_match(
    capsule: TurnCapsule,
    parts: CapsuleParts,
    kind: CapsuleKind,
    facts: CapsuleFacts,
)
    requires
        is_capsule_of(capsule, parts, kind),
        are_sound_artifacts(parts, kind, facts),
    ensures
        artifacts_match(capsule.artifacts@, parts.configuration.configuration),
{
    let names = artifacts_of(parts.configuration.configuration);
    assert forall|i: int| 0 <= i < capsule.artifacts@.len() implies names.contains(
        hash_text((#[trigger] capsule.artifacts@[i]).record.revision_hash@),
    ) by {
        assert(capsule.artifacts@[i].record == parts.artifacts@[i].record);
    }
    assert forall|k: int| 0 <= k < names.len() implies has_revision(
        capsule.artifacts@,
        #[trigger] names[k],
    ) by {
        assert(is_exported_revision(parts.artifacts@, names[k]));
        let i = choose|i: int|
            0 <= i < parts.artifacts@.len() && hash_text(
                (#[trigger] parts.artifacts@[i]).record.revision_hash@,
            ) == names[k];
        assert(capsule.artifacts@[i].record == parts.artifacts@[i].record);
    }
}

/// A sound turn that is exported whole can be replayed and run again, and what
/// is exported is taken as it is.
pub proof fn law_exported_turns_replay(
    capsule: TurnCapsule,
    parts: CapsuleParts,
    kind: CapsuleKind,
    facts: CapsuleFacts,
)
    requires
        is_exported(capsule, parts, kind, false, facts.blobs@),
        is_sound_turn(parts, facts),
        are_sound_artifacts(parts, kind, facts),
    ensures
        capsule.capabilities.replay,
        capsule.capabilities.rerun,
        capsule_fault(capsule, facts) is None,
{
    let (whole, shown) = choose|whole: TurnCapsule, shown: TurnCapsule|
        {
            &&& #[trigger] is_capsule_of(whole, parts, kind)
            &&& #[trigger] is_shown(whole, shown, false)
            &&& capsule == (TurnCapsule {
                capabilities: capabilities_of(shown, facts.blobs@),
                ..shown
            })
        };
    assert forall|i: int| 0 <= i < whole.references@.len() implies (
    #[trigger] whole.references@[i]).embedded || at_hand(
        facts.blobs@,
        whole.references@[i].blob_hash@,
    ) by {
        assert(is_packed(
            whole.artifacts@[i],
            whole.references@[i],
            parts.artifacts@[i],
            kind,
        ));
    }
    lemma_sound_artifacts_are_taken(whole, parts, kind, facts, 0);
    lemma_sound_artifacts_match(whole, parts, kind, facts);
}

/// What is exported without its content can be looked at, and neither replayed
/// nor run again.
pub proof fn law_redacted_exports_only_show(
    capsule: TurnCapsule,
    parts: CapsuleParts,
    kind: CapsuleKind,
    blobs: Seq<ContentHash>,
)
    requires
        is_exported(capsule, parts, kind, true, blobs),
    ensures
        capsule.capabilities.inspect,
        !capsule.capabilities.replay,
        !capsule.capabilities.rerun,
        capsule.configuration is None,
        capsule.prompt is None,
        capsule.effects is None,
        forall|i: int|
            0 <= i < capsule.artifacts@.len() ==> (#[trigger] capsule.artifacts@[i]).source is None,
{
}

/// A capsule that was imported is known when it is imported again: it is given
/// the identities that it was given, and nothing is kept a second time.
pub proof fn law_second_import_is_known(
    plan: ImportPlan,
    again: Result<ImportStep, CapsuleError>,
    capsule: TurnCapsule,
    value: JsonView,
    facts: CapsuleFacts,
    earlier: EarlierImport,
    kept: Seq<ContentHash>,
    kept_again: Seq<ContentHash>,
    ids: FreshIdentities,
    ids_again: FreshIdentities,
    order: i64,
)
    requires
        is_import_step(
            Ok(ImportStep::Plan(plan)),
            capsule,
            value,
            facts,
            None,
            kept,
            ids,
            order,
        ),
        is_stored(plan, earlier),
        is_import_step(
            again,
            capsule,
            value,
            facts,
            Some(earlier),
            kept_again,
            ids_again,
            order,
        ),
    ensures
        again matches Ok(ImportStep::Known(known)) && known.capsule_hash@
            == plan.imported.capsule_hash@ && known.session_id == plan.imported.session_id
            && known.branch_id == plan.imported.branch_id && known.turn_id
            == plan.imported.turn_id && known.attempt_id == plan.imported.attempt_id
            && known.candidate_id == plan.imported.candidate_id,
{
}

/// What the store holds of an import is what was planned for it.
pub open spec fn is_stored(plan: ImportPlan, earlier: EarlierImport) -> bool {
    &&& earlier.session_id == Some(plan.imported.session_id)
    &&& earlier.session matches Some(session) && session.root_branch_id
        == plan.imported.branch_id
    &&& earlier.first_turn is Some
    &&& (earlier.first_turn->0).turn_id == plan.imported.turn_id
    &&& (earlier.first_turn->0).selected_candidate_id == plan.imported.candidate_id
    &&& earlier.first_attempt == Some(plan.imported.attempt_id)
}

proof fn lemma_local_places(state: Seq<StoredCell>, count: int, at: int)
    requires
        0 <= count <= state.len(),
    ensures
        local_places(state, count).contains(at) <==> 0 <= at < count && state[at].key.scope
            == VariableScope::Local,
    decreases count,
{
    if count > 0 {
        lemma_local_places(state, count - 1, at);
        lemma_push_contains(local_places(state, count - 1), count - 1, at);
    }
}

/// Of the variables that a capsule brings those are kept that belong to the session
/// alone, all of them, and as they are.
pub proof fn law_session_variables_are_imported(
    cells: Seq<ImportedCell>,
    state: Seq<StoredCell>,
    i: int,
    at: int,
)
    requires
        are_kept_cells(cells, state, state.len() as int),
    ensures
        0 <= i < cells.len() ==> exists|k: int|
            {
                &&& 0 <= k < state.len()
                &&& (#[trigger] state[k]).key.scope == VariableScope::Local
                &&& cells[i].name@ == state[k].key.name@
                &&& cells[i].raw_value@ == state[k].raw_value@
                &&& cells[i].owner@ == state[k].owner@
                &&& cells[i].origin@ == state[k].origin@
                &&& cells[i].revision == state[k].revision
            },
        0 <= at < state.len() && state[at].key.scope == VariableScope::Local ==> exists|k: int|
            0 <= k < cells.len() && (#[trigger] cells[k]).name@ == state[at].key.name@
                && cells[k].raw_value@ == state[at].raw_value@,
{
    let places = local_places(state, state.len() as int);
    if 0 <= i < cells.len() {
        lemma_local_places(state, state.len() as int, places[i]);
        assert(places.contains(places[i]));
        assert(is_kept_cell(cells[i], state[places[i]]));
    }
    if 0 <= at < state.len() && state[at].key.scope == VariableScope::Local {
        lemma_local_places(state, state.len() as int, at);
        let k = choose|k: int| 0 <= k < places.len() && places[k] == at;
        assert(is_kept_cell(cells[k], state[places[k]]));
    }
}

/// An artifact of a capsule is imported if and only if its revision is not kept yet.
pub proof fn law_kept_artifacts_are_not_imported(
    artifacts: Seq<CapsuleArtifact>,
    kept: Seq<ContentHash>,
    count: int,
    at: int,
)
    requires
        0 <= count <= artifacts.len(),
    ensures
        places_to_import(artifacts, kept, count).contains(at) <==> 0 <= at < count && forall|
            k: int,
        |
            0 <= k < kept.len() ==> (#[trigger] kept[k])@ != artifacts[at].record.revision_hash@,
    decreases count,
{
    if count > 0 {
        law_kept_artifacts_are_not_imported(artifacts, kept, count - 1, at);
        lemma_push_contains(places_to_import(artifacts, kept, count - 1), count - 1, at);
        let hash = artifacts[count - 1].record.revision_hash@;
        if at_hand(kept, hash) {
            let k = choose|k: int| 0 <= k < kept.len() && (#[trigger] kept[k])@ == hash;
            assert(kept[k]@ == hash);
        }
    }
}

} // verus!
