//! Capsules: a turn with all that it takes to look at it, to replay it or to
//! run it again elsewhere.
use vstd::prelude::*;
use vstd::utf8::encode_utf8;

use crate::artifact::bundle::{copy_parse, decoded_of};
use crate::artifact::kind::{
    ArtifactError, decode_artifact_payload, is_decoding, JsonFault, kind_name,
};
use crate::artifact::revision::{
    artifact_semantic_hash, ArtifactRecord, blob_hash_of, content_blob_hash, semantic_hash_of,
};
use crate::capsule_json::{capsule_json, CapsuleBodies};
use crate::identity::{
    artifact_revision_hash, canonical_hash_of, canonical_json_hash, ContentHash, EntityId,
    hash_text, revision_hash_of, SESSION_PROJECTION_DOMAIN, session_projection_hash,
};
use crate::json::{Json, JsonView};
use crate::plugin::{
    effects_fault, PluginCapability, PluginError, PluginReceipt, receipt_is_consistent,
    validate_recorded_receipt,
};
use crate::prompt::segment::optional_hash;
use crate::session::{
    artifacts_of, AttemptEffectReceipt, AttemptProjection, BranchProjection, CandidateProjection,
    configuration_artifacts, hash_texts, PluginPin, SessionConfiguration,
    SessionConfigurationRecord, SessionProjection, StoredCell, TurnProjection,
};
use crate::text::{self, contains_text, views};
use crate::turn::PromptPlan;

verus! {

pub const CAPSULE_DOMAIN: &'static str = "stcli:turn-capsule:v1";

pub const FEATURE_MANIFEST_DOMAIN: &'static str = "stcli:feature-manifest:v1";

pub const SESSION_CONFIGURATION_DOMAIN: &'static str = "stcli:session-configuration:v1";

pub const CAPSULE_FORMAT: &'static str = "stcli_turn_capsule";

pub const CAPSULE_VERSION: &'static str = "1.0";

pub const REDACTED_PATHS: &'static str =
    "/artifacts/*/source,/configuration,/baseline,/effects,/prompt,/provider/receipt,/result";

pub const REDACTION_REASON: &'static str = "narrative and provider content removed by user request";

/// Whether a capsule holds the sources of its artifacts.
#[derive(Clone, Copy, Debug, Eq, PartialEq, Structural)]
pub enum CapsuleKind {
    Portable,
    Thin,
}

#[derive(Clone, Debug, Eq, PartialEq)]
pub struct CapsuleEngine {
    pub version: String,
}

#[derive(Clone, Debug)]
pub struct CapsuleCompatibility {
    pub profile: String,
    pub feature_manifest_digest: ContentHash,
}

#[derive(Clone, Copy, Debug, Eq, PartialEq, Structural)]
pub struct CapsuleIdentity {
    pub session_id: EntityId,
    pub branch_id: EntityId,
    pub turn_id: EntityId,
    pub attempt_id: EntityId,
}

#[derive(Clone, Debug)]
pub struct CapsuleArtifact {
    pub record: ArtifactRecord,
    pub source: Option<String>,
}

#[derive(Clone, Debug)]
pub struct CapsuleReference {
    pub owner_kind: String,
    pub owner_id: String,
    pub blob_hash: ContentHash,
    pub embedded: bool,
}

#[derive(Clone, Debug, Eq, PartialEq)]
pub struct RedactionEntry {
    pub path: String,
    pub reason: String,
}

#[derive(Clone, Copy, Debug, Eq, PartialEq, Structural)]
pub struct CapsuleCapabilities {
    pub inspect: bool,
    pub replay: bool,
    pub rerun: bool,
}

#[derive(Clone, Debug)]
pub struct CapsuleBaseline {
    pub session: SessionProjection,
    pub branch: BranchProjection,
}

#[derive(Debug)]
pub struct CapsuleProvider {
    pub request_hash: Option<ContentHash>,
    pub receipt: Option<Json>,
}

/// What a turn came to. `value` is the whole of it as JSON.
#[derive(Debug)]
pub struct SessionProjectionSnapshot {
    pub turn: TurnProjection,
    pub attempt: AttemptProjection,
    pub candidate: Option<CandidateProjection>,
    pub state: Vec<StoredCell>,
    pub state_value: Json,
    pub value: Json,
}

#[derive(Debug)]
pub struct CapsuleResult {
    pub projection: Option<SessionProjectionSnapshot>,
    pub projection_hash: Option<ContentHash>,
}

/// A turn with all that it takes to look at it, to replay it or to run it again.
#[derive(Debug)]
pub struct TurnCapsule {
    pub format: String,
    pub version: String,
    pub kind: CapsuleKind,
    pub engine: CapsuleEngine,
    pub compatibility: CapsuleCompatibility,
    pub identity: CapsuleIdentity,
    pub artifacts: Vec<CapsuleArtifact>,
    pub configuration: Option<SessionConfigurationRecord>,
    pub baseline: Option<CapsuleBaseline>,
    pub effects: Option<AttemptEffectReceipt>,
    pub prompt: Option<PromptPlan>,
    pub provider: CapsuleProvider,
    pub result: CapsuleResult,
    pub references: Vec<CapsuleReference>,
    pub redactions: Vec<RedactionEntry>,
    pub capabilities: CapsuleCapabilities,
}

#[derive(Clone, Debug)]
pub struct ReplayReport {
    pub capsule_hash: ContentHash,
    pub projection_hash: ContentHash,
    pub provider_calls: usize,
    pub plugin_executions: usize,
}

#[derive(Clone, Debug)]
pub struct ImportedCapsule {
    pub capsule_hash: ContentHash,
    pub session_id: EntityId,
    pub branch_id: EntityId,
    pub turn_id: EntityId,
    pub attempt_id: EntityId,
    pub candidate_id: Option<EntityId>,
}

/// Why a capsule cannot be made or taken.
#[derive(Debug)]
pub enum CapsuleError {
    Artifact(ArtifactError),
    Session(String),
    Turn(String),
    State(String),
    Storage(String),
    Json,
    Provider(String),
    Plugin(PluginError),
    PluginPinMissing(String),
    PluginPinMismatch(String),
    AttemptNotFound(EntityId),
    TurnNotFound(EntityId),
    StoredIdentityInvalid,
    ImportedTurnMissing,
    ImportedAttemptMissing,
    SessionNotFound(EntityId),
    BranchNotFound(EntityId),
    ConfigurationNotFound(ContentHash),
    ArtifactNotFound(ContentHash),
    ArtifactSourceNotUtf8(ContentHash),
    UnsupportedFormat { format: String, version: String },
    FeatureManifestMismatch,
    ConfigurationHashMismatch,
    ProviderRequestHashMismatch,
    IdentityMismatch,
    DuplicateArtifact(ContentHash),
    ArtifactHashMismatch(ContentHash),
    ArtifactSetMismatch,
    MissingReferencedBlob(ContentHash),
    MissingReplayData(&'static str),
    CapabilityDenied(&'static str),
    ProjectionHashMismatch { expected: ContentHash, actual: ContentHash },
}

/// The name of a kind of capsule.
pub open spec fn capsule_kind_text(kind: CapsuleKind) -> Seq<char> {
    match kind {
        CapsuleKind::Portable => "portable"@,
        CapsuleKind::Thin => "thin"@,
    }
}

/// The name of a kind of capsule.
pub fn capsule_kind_name(kind: CapsuleKind) -> (name: &'static str)
    ensures
        name@ == capsule_kind_text(kind),
{
    match kind {
        CapsuleKind::Portable => "portable",
        CapsuleKind::Thin => "thin",
    }
}

/// The digest of the features that an engine has, by its profile.
pub fn feature_manifest_digest(profile: &Json) -> (r: Result<ContentHash, CapsuleError>)
    ensures
        match r {
            Ok(hash) => canonical_hash_of(FEATURE_MANIFEST_DOMAIN@, profile@) == Some(hash@),
            Err(e) => canonical_hash_of(FEATURE_MANIFEST_DOMAIN@, profile@) is None && e
                == CapsuleError::Json,
        },
{
    match canonical_json_hash(FEATURE_MANIFEST_DOMAIN, profile) {
        Ok(hash) => Ok(hash),
        Err(_) => Err(CapsuleError::Json),
    }
}

/// A blob is among those at hand.
pub open spec fn at_hand(blobs: Seq<ContentHash>, hash: Seq<u8>) -> bool {
    exists|i: int| 0 <= i < blobs.len() && (#[trigger] blobs[i])@ == hash
}

pub(crate) fn check_at_hand(blobs: &Vec<ContentHash>, hash: &ContentHash) -> (r: bool)
    ensures
        r == at_hand(blobs@, hash@),
{
    let mut i: usize = 0;
    while i < blobs.len()
        invariant
            i <= blobs@.len(),
            forall|j: int| 0 <= j < i ==> (#[trigger] blobs@[j])@ != hash@,
        decreases blobs@.len() - i,
    {
        if blobs[i].same(hash) {
            return true;
        }
        i = i + 1;
    }
    false
}

/// Every blob that a capsule refers to is within it or at hand.
pub open spec fn references_available(
    references: Seq<CapsuleReference>,
    blobs: Seq<ContentHash>,
) -> bool {
    forall|i: int|
        0 <= i < references.len() ==> (#[trigger] references[i]).embedded || at_hand(
            blobs,
            references[i].blob_hash@,
        )
}

/// A capsule holds all that it takes to replay it.
pub open spec fn replayable(capsule: TurnCapsule, blobs: Seq<ContentHash>) -> bool {
    &&& capsule.redactions@.len() == 0
    &&& references_available(capsule.references@, blobs)
    &&& capsule.configuration is Some
    &&& capsule.baseline is Some
    &&& capsule.effects is Some
    &&& capsule.prompt is Some
    &&& capsule.result.projection is Some
    &&& capsule.result.projection_hash is Some
}

/// The capabilities of a capsule.
pub open spec fn capabilities_of(capsule: TurnCapsule, blobs: Seq<ContentHash>) -> CapsuleCapabilities {
    let replay = replayable(capsule, blobs);
    CapsuleCapabilities {
        inspect: true,
        replay,
        rerun: replay && capsule.provider.request_hash is Some,
    }
}

/// An artifact without its source.
pub open spec fn without_source(artifact: CapsuleArtifact) -> CapsuleArtifact {
    CapsuleArtifact { source: None, ..artifact }
}

/// A capsule from which the content is taken.
pub open spec fn is_redaction(before: TurnCapsule, after: TurnCapsule) -> bool {
    &&& after.artifacts@ == Seq::new(
        before.artifacts@.len(),
        |i: int| without_source(before.artifacts@[i]),
    )
    &&& after.references@ == Seq::new(
        before.references@.len(),
        |i: int| CapsuleReference { embedded: false, ..before.references@[i] },
    )
    &&& after.redactions@.len() == before.redactions@.len() + 1
    &&& after.redactions@.drop_last() == before.redactions@
    &&& after.redactions@.last().path@ == REDACTED_PATHS@
    &&& after.redactions@.last().reason@ == REDACTION_REASON@
    &&& after == (TurnCapsule {
        artifacts: after.artifacts,
        references: after.references,
        redactions: after.redactions,
        configuration: None,
        baseline: None,
        effects: None,
        prompt: None,
        provider: CapsuleProvider { receipt: None, ..before.provider },
        result: CapsuleResult { projection: None, projection_hash: None },
        capabilities: CapsuleCapabilities { inspect: true, replay: false, rerun: false },
        ..before
    })
}

fn drop_sources(artifacts: &mut Vec<CapsuleArtifact>)
    ensures
        final(artifacts)@ == Seq::new(
            old(artifacts)@.len(),
            |i: int| without_source(old(artifacts)@[i]),
        ),
{
    let ghost before = artifacts@;
    let mut i: usize = 0;
    while i < artifacts.len()
        invariant
            i <= artifacts@.len(),
            artifacts@.len() == before.len(),
            forall|j: int| 0 <= j < i ==> #[trigger] artifacts@[j] == without_source(before[j]),
            forall|j: int| i <= j < before.len() ==> #[trigger] artifacts@[j] == before[j],
        decreases artifacts@.len() - i,
    {
        artifacts[i].source = None;
        i = i + 1;
    }
    proof {
        assert(artifacts@ =~= Seq::new(before.len(), |i: int| without_source(before[i])));
    }
}

fn drop_embedded(references: &mut Vec<CapsuleReference>)
    ensures
        final(references)@ == Seq::new(
            old(references)@.len(),
            |i: int| CapsuleReference { embedded: false, ..old(references)@[i] },
        ),
{
    let ghost before = references@;
    let mut i: usize = 0;
    while i < references.len()
        invariant
            i <= references@.len(),
            references@.len() == before.len(),
            forall|j: int|
                0 <= j < i ==> #[trigger] references@[j] == (CapsuleReference {
                    embedded: false,
                    ..before[j]
                }),
            forall|j: int| i <= j < before.len() ==> #[trigger] references@[j] == before[j],
        decreases references@.len() - i,
    {
        references[i].embedded = false;
        i = i + 1;
    }
    proof {
        assert(references@ =~= Seq::new(
            before.len(),
            |i: int| CapsuleReference { embedded: false, ..before[i] },
        ));
    }
}

/// The first receipt of a plugin from place `i` on that cannot stand, and why.
pub open spec fn receipts_error(
    receipts: Seq<PluginReceipt>,
    pins: Seq<PluginPin>,
    i: int,
) -> Option<CapsuleError>
    decreases receipts.len() - i,
{
    if i < 0 || i >= receipts.len() {
        None
    } else {
        match receipt_error(receipts[i], pins) {
            Some(e) => Some(e),
            None => receipts_error(receipts, pins, i + 1),
        }
    }
}

/// The first pin of a plugin from place `i` on.
pub open spec fn pin_from(pins: Seq<PluginPin>, id: Seq<char>, i: int) -> Option<PluginPin>
    decreases pins.len() - i,
{
    if i < 0 || i >= pins.len() {
        None
    } else if pins[i].id@ == id {
        Some(pins[i])
    } else {
        pin_from(pins, id, i + 1)
    }
}

/// The error of a recorded run that is not sound by itself, if it is not.
pub open spec fn recorded_error(receipt: PluginReceipt) -> Option<PluginError> {
    if !receipt_is_consistent(receipt) {
        Some(PluginError::RecordedReceiptInvalid(receipt.id))
    } else {
        effects_fault(receipt.manifest, receipt.grants@, receipt.event, receipt.effects@)
    }
}

/// A recorded run was made by the plugin that is pinned, with its capabilities.
pub open spec fn is_run_as_pinned(receipt: PluginReceipt, pin: PluginPin) -> bool {
    &&& pin.version@ == receipt.version@
    &&& pin.component_hash@ == receipt.component_sha256@
    &&& pin.capabilities@ == receipt.grants@
}

/// Why a recorded run cannot stand, if it cannot.
pub open spec fn receipt_error(receipt: PluginReceipt, pins: Seq<PluginPin>) -> Option<
    CapsuleError,
> {
    match recorded_error(receipt) {
        Some(e) => Some(CapsuleError::Plugin(e)),
        None => match pin_from(pins, receipt.id@, 0) {
            None => Some(CapsuleError::PluginPinMissing(receipt.id)),
            Some(pin) => if is_run_as_pinned(receipt, pin) {
                None
            } else {
                Some(CapsuleError::PluginPinMismatch(receipt.id))
            },
        },
    }
}

fn same_capabilities(left: &Vec<PluginCapability>, right: &Vec<PluginCapability>) -> (r: bool)
    ensures
        r == (left@ == right@),
{
    if left.len() != right.len() {
        return false;
    }
    let mut i: usize = 0;
    while i < left.len()
        invariant
            i <= left@.len(),
            left@.len() == right@.len(),
            forall|j: int| 0 <= j < i ==> left@[j] == right@[j],
        decreases left@.len() - i,
    {
        if left[i] != right[i] {
            return false;
        }
        i = i + 1;
    }
    proof {
        assert(left@ =~= right@);
    }
    true
}

fn find_pin<'a>(pins: &'a Vec<PluginPin>, id: &str) -> (pin: Option<&'a PluginPin>)
    ensures
        match pin {
            Some(p) => pin_from(pins@, id@, 0) == Some(*p),
            None => pin_from(pins@, id@, 0) is None,
        },
{
    let mut i: usize = 0;
    while i < pins.len()
        invariant
            i <= pins@.len(),
            pin_from(pins@, id@, 0) == pin_from(pins@, id@, i as int),
        decreases pins@.len() - i,
    {
        if text::same(pins[i].id.as_str(), id) {
            return Some(&pins[i]);
        }
        i = i + 1;
    }
    None
}

fn check_receipts(receipts: &Vec<PluginReceipt>, pins: &Vec<PluginPin>) -> (r: Result<
    (),
    CapsuleError,
>)
    ensures
        match r {
            Ok(()) => receipts_error(receipts@, pins@, 0) is None,
            Err(e) => receipts_error(receipts@, pins@, 0) == Some(e),
        },
{
    let mut i: usize = 0;
    while i < receipts.len()
        invariant
            i <= receipts@.len(),
            receipts_error(receipts@, pins@, 0) == receipts_error(receipts@, pins@, i as int),
        decreases receipts@.len() - i,
    {
        let receipt = &receipts[i];
        match validate_recorded_receipt(receipt) {
            Ok(()) => {},
            Err(e) => return Err(CapsuleError::Plugin(e)),
        }
        match find_pin(pins, receipt.id.as_str()) {
            None => return Err(CapsuleError::PluginPinMissing(receipt.id.clone())),
            Some(pin) => {
                if !text::same(pin.version.as_str(), receipt.version.as_str())
                    || !pin.component_hash.same(&receipt.component_sha256) || !same_capabilities(
                    &pin.capabilities,
                    &receipt.grants,
                ) {
                    return Err(CapsuleError::PluginPinMismatch(receipt.id.clone()));
                }
            },
        }
        i = i + 1;
    }
    Ok(())
}

/// The identities within a capsule agree.
pub open spec fn identities_agree(
    identity: CapsuleIdentity,
    projection: SessionProjectionSnapshot,
    config_hash: Seq<u8>,
) -> bool {
    &&& projection.turn.session_id == identity.session_id
    &&& projection.turn.branch_id == identity.branch_id
    &&& projection.turn.turn_id == identity.turn_id
    &&& projection.attempt.attempt_id == identity.attempt_id
    &&& projection.attempt.turn_id == identity.turn_id
    &&& projection.attempt.config_hash@ == config_hash
    &&& projection.candidate matches Some(candidate) ==> candidate.turn_id == identity.turn_id
        && candidate.attempt_id == Some(identity.attempt_id)
}

fn check_identities(
    identity: &CapsuleIdentity,
    projection: &SessionProjectionSnapshot,
    config_hash: &ContentHash,
) -> (r: bool)
    ensures
        r == identities_agree(*identity, *projection, config_hash@),
{
    if projection.turn.session_id != identity.session_id || projection.turn.branch_id
        != identity.branch_id || projection.turn.turn_id != identity.turn_id
        || projection.attempt.attempt_id != identity.attempt_id || projection.attempt.turn_id
        != identity.turn_id || !projection.attempt.config_hash.same(config_hash) {
        return false;
    }
    match &projection.candidate {
        Some(candidate) => {
            let made_by = match candidate.attempt_id {
                Some(attempt_id) => attempt_id == identity.attempt_id,
                None => false,
            };
            candidate.turn_id == identity.turn_id && made_by
        },
        None => true,
    }
}

/// What stops a capsule from being taken.
pub enum CapsuleFault {
    Error(CapsuleError),
    Undecodable(Result<Json, JsonFault>),
    Projection { expected: ContentHash, actual: Seq<u8> },
}

/// The error is the one that a fault gives.
pub open spec fn is_capsule_error(error: CapsuleError, fault: CapsuleFault) -> bool {
    match fault {
        CapsuleFault::Error(e) => error == e,
        CapsuleFault::Undecodable(parsed) => error matches CapsuleError::Artifact(e)
            && is_decoding(Err(e), parsed),
        CapsuleFault::Projection { expected, actual } => error matches
            CapsuleError::ProjectionHashMismatch { expected: e, actual: a } && e == expected && a@
            == actual,
    }
}

/// What is wrong with an artifact whose source is within the capsule, given the
/// JSON value that the source is.
pub open spec fn source_fault(
    record: ArtifactRecord,
    source: Seq<char>,
    parsed: Result<Json, JsonFault>,
    limit: usize,
) -> Option<CapsuleFault> {
    let bytes = encode_utf8(source);
    let mismatch = CapsuleFault::Error(CapsuleError::ArtifactHashMismatch(record.revision_hash));
    if revision_hash_of(kind_name(record.kind), record.source_format@, bytes)
        != record.revision_hash@ || blob_hash_of(bytes) != record.source_blob_hash@ {
        Some(mismatch)
    } else if bytes.len() > limit {
        Some(
            CapsuleFault::Error(
                CapsuleError::Artifact(
                    ArtifactError::SourceTooLarge { size: bytes.len() as usize, limit },
                ),
            ),
        )
    } else {
        match decoded_of(parsed) {
            Err(_) => Some(CapsuleFault::Undecodable(parsed)),
            Ok((kind, semantic)) => if kind != record.kind {
                Some(mismatch)
            } else {
                match semantic_hash_of(semantic) {
                    None => Some(CapsuleFault::Error(CapsuleError::Json)),
                    Some(hash) => if hash != record.semantic_hash@ {
                        Some(mismatch)
                    } else {
                        None
                    },
                }
            },
        }
    }
}

/// The revision of an artifact stands among those before it.
pub open spec fn is_repeated(artifacts: Seq<CapsuleArtifact>, i: int) -> bool {
    exists|j: int|
        0 <= j < i && (#[trigger] artifacts[j]).record.revision_hash@
            == artifacts[i].record.revision_hash@
}

/// What is wrong with the artifact at a place of a capsule, if anything is.
pub open spec fn artifact_fault(
    artifacts: Seq<CapsuleArtifact>,
    i: int,
    parses: Seq<Result<Json, JsonFault>>,
    blobs: Seq<ContentHash>,
    limit: usize,
) -> Option<CapsuleFault> {
    let record = artifacts[i].record;
    if is_repeated(artifacts, i) {
        Some(CapsuleFault::Error(CapsuleError::DuplicateArtifact(record.revision_hash)))
    } else {
        match artifacts[i].source {
            Some(source) => source_fault(record, source@, parses[i], limit),
            None => if at_hand(blobs, record.source_blob_hash@) {
                None
            } else {
                Some(
                    CapsuleFault::Error(
                        CapsuleError::MissingReferencedBlob(record.source_blob_hash),
                    ),
                )
            },
        }
    }
}

/// What is wrong with the first of the artifacts from place `i` on with which
/// something is.
pub open spec fn artifacts_fault(
    artifacts: Seq<CapsuleArtifact>,
    i: int,
    parses: Seq<Result<Json, JsonFault>>,
    blobs: Seq<ContentHash>,
    limit: usize,
) -> Option<CapsuleFault>
    decreases artifacts.len() - i,
{
    if i < 0 || i >= artifacts.len() {
        None
    } else {
        match artifact_fault(artifacts, i, parses, blobs, limit) {
            Some(fault) => Some(fault),
            None => artifacts_fault(artifacts, i + 1, parses, blobs, limit),
        }
    }
}

/// The artifacts of a capsule are those that its configuration names.
pub open spec fn artifacts_match(
    artifacts: Seq<CapsuleArtifact>,
    configuration: SessionConfiguration,
) -> bool {
    &&& forall|i: int|
        0 <= i < artifacts.len() ==> artifacts_of(configuration).contains(
            hash_text((#[trigger] artifacts[i]).record.revision_hash@),
        )
    &&& forall|k: int|
        0 <= k < artifacts_of(configuration).len() ==> has_revision(
            artifacts,
            #[trigger] artifacts_of(configuration)[k],
        )
}

/// An artifact of that written revision is among the artifacts.
pub open spec fn has_revision(artifacts: Seq<CapsuleArtifact>, name: Seq<char>) -> bool {
    exists|i: int|
        0 <= i < artifacts.len() && hash_text((#[trigger] artifacts[i]).record.revision_hash@)
            == name
}

fn check_source(
    record: &ArtifactRecord,
    source: &String,
    parsed: &Result<Json, JsonFault>,
    limit: usize,
) -> (r: Result<(), CapsuleError>)
    ensures
        match (r, source_fault(*record, source@, *parsed, limit)) {
            (Ok(()), None) => true,
            (Err(e), Some(fault)) => is_capsule_error(e, fault),
            _ => false,
        },
{
    let bytes: &[u8] = source.as_str().as_bytes();
    let size: usize = bytes.len();
    let revision = artifact_revision_hash(
        record.kind.as_str(),
        record.source_format.as_str(),
        bytes,
    );
    if !revision.same(&record.revision_hash) || !content_blob_hash(bytes).same(
        &record.source_blob_hash,
    ) {
        return Err(CapsuleError::ArtifactHashMismatch(record.revision_hash));
    }
    if size > limit {
        return Err(CapsuleError::Artifact(ArtifactError::SourceTooLarge { size, limit }));
    }
    let decoded = match decode_artifact_payload(copy_parse(parsed)) {
        Ok(decoded) => decoded,
        Err(e) => return Err(CapsuleError::Artifact(e)),
    };
    if decoded.kind != record.kind {
        return Err(CapsuleError::ArtifactHashMismatch(record.revision_hash));
    }
    match artifact_semantic_hash(&decoded.semantic) {
        Ok(hash) => if hash.same(&record.semantic_hash) {
            Ok(())
        } else {
            Err(CapsuleError::ArtifactHashMismatch(record.revision_hash))
        },
        Err(_) => Err(CapsuleError::Json),
    }
}

fn check_repeated(artifacts: &Vec<CapsuleArtifact>, i: usize) -> (r: bool)
    requires
        i < artifacts@.len(),
    ensures
        r == is_repeated(artifacts@, i as int),
{
    let mut j: usize = 0;
    while j < i
        invariant
            j <= i < artifacts@.len(),
            forall|k: int|
                0 <= k < j ==> (#[trigger] artifacts@[k]).record.revision_hash@
                    != artifacts@[i as int].record.revision_hash@,
        decreases i - j,
    {
        if artifacts[j].record.revision_hash.same(&artifacts[i].record.revision_hash) {
            return true;
        }
        j = j + 1;
    }
    false
}

fn check_artifacts(
    artifacts: &Vec<CapsuleArtifact>,
    parses: &Vec<Result<Json, JsonFault>>,
    blobs: &Vec<ContentHash>,
    limit: usize,
) -> (r: Result<(), CapsuleError>)
    requires
        parses@.len() == artifacts@.len(),
    ensures
        match (r, artifacts_fault(artifacts@, 0, parses@, blobs@, limit)) {
            (Ok(()), None) => true,
            (Err(e), Some(fault)) => is_capsule_error(e, fault),
            _ => false,
        },
{
    let mut i: usize = 0;
    while i < artifacts.len()
        invariant
            i <= artifacts@.len(),
            parses@.len() == artifacts@.len(),
            artifacts_fault(artifacts@, 0, parses@, blobs@, limit) == artifacts_fault(
                artifacts@,
                i as int,
                parses@,
                blobs@,
                limit,
            ),
        decreases artifacts@.len() - i,
    {
        let artifact = &artifacts[i];
        if check_repeated(artifacts, i) {
            return Err(CapsuleError::DuplicateArtifact(artifact.record.revision_hash));
        }
        match &artifact.source {
            Some(source) => {
                match check_source(&artifact.record, source, &parses[i], limit) {
                    Ok(()) => {},
                    Err(e) => return Err(e),
                }
            },
            None => {
                if !check_at_hand(blobs, &artifact.record.source_blob_hash) {
                    return Err(
                        CapsuleError::MissingReferencedBlob(artifact.record.source_blob_hash),
                    );
                }
            },
        }
        i = i + 1;
    }
    Ok(())
}

fn check_artifact_set(artifacts: &Vec<CapsuleArtifact>, configuration: &SessionConfiguration) -> (r:
    bool)
    ensures
        r == artifacts_match(artifacts@, *configuration),
{
    let hashes = configuration_artifacts(configuration);
    let ghost names = artifacts_of(*configuration);
    let mut own: Vec<String> = Vec::new();
    let mut i: usize = 0;
    while i < artifacts.len()
        invariant
            i <= artifacts@.len(),
            own@.len() == i,
            forall|j: int|
                0 <= j < i ==> (#[trigger] own@[j])@ == hash_text(
                    artifacts@[j].record.revision_hash@,
                ),
        decreases artifacts@.len() - i,
    {
        own.push(artifacts[i].record.revision_hash.text());
        i = i + 1;
    }
    let mut expected: Vec<String> = Vec::new();
    let mut k: usize = 0;
    while k < hashes.len()
        invariant
            k <= hashes@.len(),
            hash_texts(hashes@) == names,
            expected@.len() == k,
            forall|j: int| 0 <= j < k ==> (#[trigger] expected@[j])@ == names[j],
        decreases hashes@.len() - k,
    {
        proof {
            assert(names[k as int] == hash_text(hashes@[k as int]@));
        }
        expected.push(hashes[k].text());
        k = k + 1;
    }
    proof {
        assert(hash_texts(hashes@).len() == hashes@.len());
        assert(views(expected@) =~= names);
    }
    let mut m: usize = 0;
    while m < own.len()
        invariant
            m <= own@.len(),
            own@.len() == artifacts@.len(),
            views(expected@) == names,
            names == artifacts_of(*configuration),
            forall|j: int|
                0 <= j < own@.len() ==> (#[trigger] own@[j])@ == hash_text(
                    artifacts@[j].record.revision_hash@,
                ),
            forall|j: int|
                0 <= j < m ==> names.contains(
                    hash_text((#[trigger] artifacts@[j]).record.revision_hash@),
                ),
        decreases own@.len() - m,
    {
        if !contains_text(&expected, own[m].as_str()) {
            proof {
                assert(own@[m as int]@ == hash_text(artifacts@[m as int].record.revision_hash@));
                assert(!names.contains(hash_text(artifacts@[m as int].record.revision_hash@)));
            }
            return false;
        }
        m = m + 1;
    }
    let mut n: usize = 0;
    while n < expected.len()
        invariant
            n <= expected@.len(),
            own@.len() == artifacts@.len(),
            views(expected@) == names,
            names == artifacts_of(*configuration),
            forall|j: int|
                0 <= j < own@.len() ==> (#[trigger] own@[j])@ == hash_text(
                    artifacts@[j].record.revision_hash@,
                ),
            forall|j: int| 0 <= j < n ==> has_revision(artifacts@, #[trigger] names[j]),
        decreases expected@.len() - n,
    {
        proof {
            assert(names[n as int] == expected@[n as int]@);
        }
        let found = contains_text(&own, expected[n].as_str());
        proof {
            let name = names[n as int];
            if found {
                let j = choose|j: int| 0 <= j < views(own@).len() && views(own@)[j] == name;
                assert(own@[j]@ == name);
                assert(hash_text(artifacts@[j].record.revision_hash@) == name);
                assert(has_revision(artifacts@, name));
            } else {
                assert forall|j: int| 0 <= j < artifacts@.len() implies hash_text(
                    (#[trigger] artifacts@[j]).record.revision_hash@,
                ) != name by {
                    assert(views(own@)[j] == own@[j]@);
                }
                assert(!has_revision(artifacts@, name));
            }
        }
        if !found {
            return false;
        }
        n = n + 1;
    }
    proof {
        assert(names.len() == expected@.len()) by {
            assert(views(expected@).len() == expected@.len());
        }
    }
    true
}

/// What a check of a capsule has to go by beside the capsule: the digest of the
/// engine's features, the hash of the provider's request, the JSON values that
/// the sources of the artifacts are, the blobs at hand, and how large an
/// artifact may be.
#[derive(Debug)]
pub struct CapsuleFacts {
    pub feature_manifest_digest: ContentHash,
    pub request_hash: ContentHash,
    pub parses: Vec<Result<Json, JsonFault>>,
    pub blobs: Vec<ContentHash>,
    pub artifact_limit: usize,
}

/// What is wrong with the configuration and the effects of a capsule, if
/// anything is.
pub open spec fn record_fault(
    capsule: TurnCapsule,
    configuration: SessionConfigurationRecord,
    request_hash: Seq<u8>,
) -> Option<CapsuleFault> {
    match canonical_hash_of(
        SESSION_CONFIGURATION_DOMAIN@,
        configuration.configuration.value@,
    ) {
        None => Some(CapsuleFault::Error(CapsuleError::Json)),
        Some(hash) => if hash != configuration.revision_hash@ {
            Some(CapsuleFault::Error(CapsuleError::ConfigurationHashMismatch))
        } else {
            match capsule.effects {
                None => Some(CapsuleFault::Error(CapsuleError::MissingReplayData("effects"))),
                Some(effect) => if request_hash != effect.provider_request_hash@ || optional_hash(
                    capsule.provider.request_hash,
                ) != Some(request_hash) {
                    Some(CapsuleFault::Error(CapsuleError::ProviderRequestHashMismatch))
                } else {
                    match receipts_error(
                        effect.plugins@,
                        configuration.configuration.plugins@,
                        0,
                    ) {
                        Some(e) => Some(CapsuleFault::Error(e)),
                        None => None,
                    }
                },
            }
        },
    }
}

/// What is wrong with what a capsule says the turn came to, if anything is.
pub open spec fn projection_fault(capsule: TurnCapsule, value: JsonView) -> Option<CapsuleFault> {
    match capsule.result.projection_hash {
        None => Some(
            CapsuleFault::Error(CapsuleError::MissingReplayData("result.projection_hash")),
        ),
        Some(expected) => match canonical_hash_of(SESSION_PROJECTION_DOMAIN@, value) {
            None => Some(CapsuleFault::Error(CapsuleError::Json)),
            Some(actual) => if actual != expected@ {
                Some(CapsuleFault::Projection { expected, actual })
            } else {
                None
            },
        },
    }
}

/// What is wrong with a capsule, if anything is.
pub open spec fn capsule_fault(capsule: TurnCapsule, facts: CapsuleFacts) -> Option<CapsuleFault> {
    if capsule.format@ != CAPSULE_FORMAT@ || capsule.version@ != CAPSULE_VERSION@ {
        Some(
            CapsuleFault::Error(
                CapsuleError::UnsupportedFormat {
                    format: capsule.format,
                    version: capsule.version,
                },
            ),
        )
    } else if capsule.compatibility.feature_manifest_digest@ != facts.feature_manifest_digest@ {
        Some(CapsuleFault::Error(CapsuleError::FeatureManifestMismatch))
    } else {
        match capsule.configuration {
            None => Some(CapsuleFault::Error(CapsuleError::MissingReplayData("configuration"))),
            Some(configuration) => match record_fault(
                capsule,
                configuration,
                facts.request_hash@,
            ) {
                Some(fault) => Some(fault),
                None => match capsule.result.projection {
                    None => Some(
                        CapsuleFault::Error(
                            CapsuleError::MissingReplayData("result.projection"),
                        ),
                    ),
                    Some(projection) => if !identities_agree(
                        capsule.identity,
                        projection,
                        configuration.revision_hash@,
                    ) {
                        Some(CapsuleFault::Error(CapsuleError::IdentityMismatch))
                    } else {
                        match artifacts_fault(
                            capsule.artifacts@,
                            0,
                            facts.parses@,
                            facts.blobs@,
                            facts.artifact_limit,
                        ) {
                            Some(fault) => Some(fault),
                            None => if !artifacts_match(
                                capsule.artifacts@,
                                configuration.configuration,
                            ) {
                                Some(CapsuleFault::Error(CapsuleError::ArtifactSetMismatch))
                            } else {
                                projection_fault(capsule, projection.value@)
                            },
                        }
                    },
                },
            },
        }
    }
}

fn same_optional_hash(left: &Option<ContentHash>, right: &ContentHash) -> (r: bool)
    ensures
        r == (optional_hash(*left) == Some(right@)),
{
    match left {
        Some(hash) => hash.same(right),
        None => false,
    }
}

fn check_records(
    capsule: &TurnCapsule,
    configuration: &SessionConfigurationRecord,
    request_hash: &ContentHash,
) -> (r: Result<(), CapsuleError>)
    ensures
        match (r, record_fault(*capsule, *configuration, request_hash@)) {
            (Ok(()), None) => true,
            (Err(e), Some(fault)) => is_capsule_error(e, fault),
            _ => false,
        },
{
    match canonical_json_hash(SESSION_CONFIGURATION_DOMAIN, &configuration.configuration.value) {
        Ok(hash) => {
            if !hash.same(&configuration.revision_hash) {
                return Err(CapsuleError::ConfigurationHashMismatch);
            }
        },
        Err(_) => return Err(CapsuleError::Json),
    }
    let effect = match &capsule.effects {
        Some(effect) => effect,
        None => return Err(CapsuleError::MissingReplayData("effects")),
    };
    if !request_hash.same(&effect.provider_request_hash) || !same_optional_hash(
        &capsule.provider.request_hash,
        request_hash,
    ) {
        return Err(CapsuleError::ProviderRequestHashMismatch);
    }
    check_receipts(&effect.plugins, &configuration.configuration.plugins)
}

fn check_projection(capsule: &TurnCapsule, value: &Json) -> (r: Result<ContentHash, CapsuleError>)
    ensures
        match (r, projection_fault(*capsule, value@)) {
            (Ok(hash), None) => capsule.result.projection_hash == Some(hash),
            (Err(e), Some(fault)) => is_capsule_error(e, fault),
            _ => false,
        },
{
    let expected = match capsule.result.projection_hash {
        Some(expected) => expected,
        None => return Err(CapsuleError::MissingReplayData("result.projection_hash")),
    };
    match session_projection_hash(value) {
        Ok(actual) => if actual.same(&expected) {
            Ok(expected)
        } else {
            Err(CapsuleError::ProjectionHashMismatch { expected, actual })
        },
        Err(_) => Err(CapsuleError::Json),
    }
}

impl TurnCapsule {
    /// The hash of a capsule.
    pub fn hash(&self, bodies: &CapsuleBodies) -> (r: Result<ContentHash, CapsuleError>)
        ensures
            ({
                let hashed = canonical_hash_of(CAPSULE_DOMAIN@, capsule_json(*self, *bodies));
                match r {
                    Ok(hash) => hashed == Some(hash@),
                    Err(e) => hashed is None && e == CapsuleError::Json,
                }
            }),
    {
        match canonical_json_hash(CAPSULE_DOMAIN, &self.to_json(bodies)) {
            Ok(hash) => Ok(hash),
            Err(_) => Err(CapsuleError::Json),
        }
    }

    /// Takes the content from a capsule. It can then be looked at, but neither
    /// replayed nor run again.
    pub fn redact_content(&mut self)
        ensures
            is_redaction(*old(self), *final(self)),
    {
        let ghost before = self.redactions@;
        drop_sources(&mut self.artifacts);
        self.configuration = None;
        self.baseline = None;
        self.effects = None;
        self.prompt = None;
        self.provider.receipt = None;
        self.result.projection = None;
        self.result.projection_hash = None;
        drop_embedded(&mut self.references);
        self.redactions.push(
            RedactionEntry {
                path: REDACTED_PATHS.to_owned(),
                reason: REDACTION_REASON.to_owned(),
            },
        );
        self.capabilities = CapsuleCapabilities { inspect: true, replay: false, rerun: false };
        proof {
            assert(self.redactions@.drop_last() =~= before);
        }
    }

    /// Works out what can be done with a capsule, given the blobs at hand.
    pub fn recalculate_capabilities(&mut self, blobs: &Vec<ContentHash>)
        ensures
            *final(self) == (TurnCapsule {
                capabilities: capabilities_of(*old(self), blobs@),
                ..*old(self)
            }),
    {
        let mut available = true;
        let mut i: usize = 0;
        while i < self.references.len() && available
            invariant
                i <= self.references@.len(),
                *self == *old(self),
                available ==> forall|j: int|
                    0 <= j < i ==> (#[trigger] self.references@[j]).embedded || at_hand(
                        blobs@,
                        self.references@[j].blob_hash@,
                    ),
                !available ==> !references_available(self.references@, blobs@),
            decreases self.references@.len() - i,
        {
            let reference = &self.references[i];
            if !reference.embedded && !check_at_hand(blobs, &reference.blob_hash) {
                proof {
                    assert(!self.references@[i as int].embedded);
                }
                available = false;
            }
            i = i + 1;
        }
        let replay = self.redactions.len() == 0 && available && self.configuration.is_some()
            && self.baseline.is_some() && self.effects.is_some() && self.prompt.is_some()
            && self.result.projection.is_some() && self.result.projection_hash.is_some();
        self.capabilities = CapsuleCapabilities {
            inspect: true,
            replay,
            rerun: replay && self.provider.request_hash.is_some(),
        };
    }

    /// Checks that a capsule is sound.
    pub fn validate(&self, facts: &CapsuleFacts) -> (r: Result<(), CapsuleError>)
        requires
            facts.parses@.len() == self.artifacts@.len(),
        ensures
            match (r, capsule_fault(*self, *facts)) {
                (Ok(()), None) => true,
                (Err(e), Some(fault)) => is_capsule_error(e, fault),
                _ => false,
            },
    {
        if !text::same(self.format.as_str(), CAPSULE_FORMAT) || !text::same(
            self.version.as_str(),
            CAPSULE_VERSION,
        ) {
            return Err(
                CapsuleError::UnsupportedFormat {
                    format: self.format.clone(),
                    version: self.version.clone(),
                },
            );
        }
        if !self.compatibility.feature_manifest_digest.same(&facts.feature_manifest_digest) {
            return Err(CapsuleError::FeatureManifestMismatch);
        }
        let configuration = match &self.configuration {
            Some(configuration) => configuration,
            None => return Err(CapsuleError::MissingReplayData("configuration")),
        };
        match check_records(self, configuration, &facts.request_hash) {
            Ok(()) => {},
            Err(e) => return Err(e),
        }
        let projection = match &self.result.projection {
            Some(projection) => projection,
            None => return Err(CapsuleError::MissingReplayData("result.projection")),
        };
        if !check_identities(&self.identity, projection, &configuration.revision_hash) {
            return Err(CapsuleError::IdentityMismatch);
        }
        match check_artifacts(&self.artifacts, &facts.parses, &facts.blobs, facts.artifact_limit) {
            Ok(()) => {},
            Err(e) => return Err(e),
        }
        if !check_artifact_set(&self.artifacts, &configuration.configuration) {
            return Err(CapsuleError::ArtifactSetMismatch);
        }
        match check_projection(self, &projection.value) {
            Ok(_) => Ok(()),
            Err(e) => Err(e),
        }
    }

    /// Replays a capsule: nothing is asked of a provider and no plugin runs.
    pub fn replay(&self, bodies: &CapsuleBodies, facts: &CapsuleFacts) -> (r: Result<
        ReplayReport,
        CapsuleError,
    >)
        requires
            facts.parses@.len() == self.artifacts@.len(),
        ensures
            match r {
                Ok(report) => {
                    &&& self.capabilities.replay
                    &&& capsule_fault(*self, *facts) is None
                    &&& canonical_hash_of(CAPSULE_DOMAIN@, capsule_json(*self, *bodies)) == Some(
                        report.capsule_hash@,
                    )
                    &&& self.result.projection_hash == Some(report.projection_hash)
                    &&& report.provider_calls == 0
                    &&& report.plugin_executions == 0
                },
                Err(e) => if !self.capabilities.replay {
                    e == CapsuleError::CapabilityDenied("replay")
                } else {
                    match capsule_fault(*self, *facts) {
                        Some(fault) => is_capsule_error(e, fault),
                        None => canonical_hash_of(
                            CAPSULE_DOMAIN@,
                            capsule_json(*self, *bodies),
                        ) is None && e == CapsuleError::Json,
                    }
                },
            },
    {
        if !self.capabilities.replay {
            return Err(CapsuleError::CapabilityDenied("replay"));
        }
        match self.validate(facts) {
            Ok(()) => {},
            Err(e) => return Err(e),
        }
        let projection = match &self.result.projection {
            Some(projection) => projection,
            None => return Err(CapsuleError::MissingReplayData("result.projection")),
        };
        let projection_hash = match check_projection(self, &projection.value) {
            Ok(hash) => hash,
            Err(e) => return Err(e),
        };
        match self.hash(bodies) {
            Ok(capsule_hash) => Ok(
                ReplayReport {
                    capsule_hash,
                    projection_hash,
                    provider_calls: 0,
                    plugin_executions: 0,
                },
            ),
            Err(e) => Err(e),
        }
    }
}

/// A capsule without content can be neither replayed nor run again, whatever is
/// at hand and however often its capabilities are worked out.
pub proof fn law_redaction_disables_replay(
    before: TurnCapsule,
    after: TurnCapsule,
    blobs: Seq<ContentHash>,
)
    requires
        is_redaction(before, after),
    ensures
        !capabilities_of(after, blobs).replay,
        !capabilities_of(after, blobs).rerun,
        capabilities_of(after, blobs).inspect,
{
}

/// A capsule that can be run again can be replayed.
pub proof fn law_rerun_needs_replay(capsule: TurnCapsule, blobs: Seq<ContentHash>)
    ensures
        capabilities_of(capsule, blobs).rerun ==> capabilities_of(capsule, blobs).replay,
{
}

/// A capsule that was redacted is refused.
pub proof fn law_redacted_capsules_are_refused(
    before: TurnCapsule,
    after: TurnCapsule,
    facts: CapsuleFacts,
)
    requires
        is_redaction(before, after),
    ensures
        capsule_fault(after, facts) is Some,
{
}

} // verus!
