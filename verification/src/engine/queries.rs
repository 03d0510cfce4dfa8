//! What a host may ask the engine to tell, and what it is told.
use vstd::prelude::*;

use crate::artifact::kind::{ArtifactError, ArtifactKind};
use crate::artifact::revision::ArtifactRecord;
use crate::artifact_codec::ArtifactCodecProvenance;
use crate::capsule::{CapsuleKind, TurnCapsule};
use crate::capsule_transfer::{candidate_from, find_candidate_index};
use crate::engine::codec::{sole_output, take_output};
use crate::engine::commands::{find_configuration, find_package, package_of};
use crate::engine::plugins::{EngineError, show_packages, shown_packages};
use crate::engine::sessions::{
    artifacts_of_kind, check_branch_session, ensure_attempt_session, greeting_of,
    GreetingProjection, is_greeting, of_kind, previous_attempt, previous_selected_candidate,
    previous_selection, StcliEngine, TurnOutline,
};
use crate::identity::{ContentHash, EntityId};
use crate::json::{Json, JsonView, named, no_pairs, object, object_of};
use crate::plugin::{
    ArtifactInspectorRegistration, has_capability, InstalledPlugin, PluginCapability,
    PluginEffect, PluginError, PluginEvent, PluginGrant, PluginInput, PluginRegistry,
};
use crate::prompt_diff::{self, diff_prompt_plans, is_prompt_diff, PromptDiff};
use crate::prompt_inspect::{is_inspection, PromptSegmentInspection};
use crate::session::{
    BranchProjection, CandidateProjection, SessionConfigurationRecord, SessionError,
    SessionProjection, TurnProjection,
};
use crate::turn::{PromptPlan, TurnError};

verus! {

/// What a host may ask the engine to tell.
#[derive(Debug)]
pub enum EngineQuery {
    Sessions,
    SessionProjections,
    Session { session_id: EntityId },
    SessionDetails { session_id: EntityId },
    Branches { session_id: EntityId },
    BranchHistory { session_id: EntityId, branch_id: EntityId },
    Configuration { session_id: EntityId },
    ExtensionInteractions { session_id: EntityId, branch_id: Option<EntityId> },
    Artifacts { kind: Option<ArtifactKind> },
    Artifact { revision_hash: ContentHash },
    ArtifactSource { revision_hash: ContentHash },
    ArtifactCodecProvenance { revision_hash: ContentHash },
    BranchTurns { branch_id: EntityId },
    Attempt { attempt_id: EntityId },
    BackgroundAttempts { session_id: EntityId, branch_id: Option<EntityId> },
    TurnDetails { session_id: EntityId, attempt_id: EntityId },
    PromptPlan { attempt_id: EntityId },
    PromptSegments { attempt_id: EntityId, selector: String },
    PromptDiff { baseline_attempt_id: EntityId, target_attempt_id: EntityId },
    PreviousPromptDiff { attempt_id: EntityId },
    ExportCapsule {
        session_id: EntityId,
        attempt_id: EntityId,
        kind: CapsuleKind,
        redact_content: bool,
    },
    ReplayCapsule { capsule: Box<TurnCapsule> },
    DryRunRerun { session_id: EntityId, attempt_id: EntityId },
    DoctorPlugin { directory: String },
    Plugins { plugin_id: Option<String> },
    ArtifactInspectors,
    InspectArtifactWithPlugin { plugin_id: String, revision_hash: ContentHash },
}

/// An attempt: its session, and the turn that it is at with the prompt that it
/// was made with. An attempt in the background is at none.
#[derive(Debug)]
pub struct AttemptRecord {
    pub attempt_id: EntityId,
    pub session_id: EntityId,
    pub primary: Result<(EntityId, PromptPlan), TurnError>,
}

/// What a host holds of that which a query is about.
#[derive(Debug)]
pub struct QueryRecords {
    /// The session that the query names, and the configuration that it has now.
    pub session: Option<SessionProjection>,
    pub configuration: Option<SessionConfigurationRecord>,
    /// The branch that the query names, and the greetings of its character.
    pub branch: Option<BranchProjection>,
    pub greetings: Vec<String>,
    pub artifacts: Vec<ArtifactRecord>,
    /// The artifact that the query names.
    pub artifact: Option<ArtifactRecord>,
    /// The attempt that the query names, and the one that it is held against.
    pub attempt: Option<AttemptRecord>,
    pub baseline: Option<AttemptRecord>,
    /// The turn of the attempt, its replies, and the turns of its branch.
    pub turn: Option<TurnProjection>,
    pub candidates: Vec<CandidateProjection>,
    pub turns: Vec<TurnOutline>,
    /// The reply that was selected in the turn before.
    pub previous: Option<CandidateProjection>,
    /// The session that a preview is of.
    pub preview_session: Option<EntityId>,
    pub listing: Vec<InstalledPlugin>,
    pub registrations: Vec<ArtifactInspectorRegistration>,
    /// The registration of the plugin that the query names.
    pub registration: Option<ArtifactInspectorRegistration>,
}

/// What a host is told.
#[derive(Debug)]
pub enum EngineInspection {
    /// The store tells what was asked for as it stands.
    Delegate(EngineQuery),
    Session(SessionProjection),
    BranchHistory {
        session: SessionProjection,
        configuration: SessionConfigurationRecord,
        branch: BranchProjection,
        greeting: Option<GreetingProjection>,
    },
    Configuration(SessionConfigurationRecord),
    Artifacts(Vec<ArtifactRecord>),
    Artifact(ArtifactRecord),
    Attempt(AttemptRecord),
    TurnDetails {
        turn: TurnProjection,
        attempt: AttemptRecord,
        candidate: Option<CandidateProjection>,
    },
    PromptPlan(PromptPlan),
    PromptSegments(PromptSegmentInspection),
    PromptDiff(PromptDiff),
    Plugins(Vec<InstalledPlugin>),
    /// The plugin is run on the artifact with this grant.
    RunInspector(PluginGrant),
}

/// The numbers of tokens of the prompts at hand can be told apart.
pub open spec fn are_countable(records: QueryRecords) -> bool {
    &&& records.attempt matches Some(attempt) ==> attempt.primary matches Ok(primary) ==> prompt_diff::countable(
        primary.1,
    )
    &&& records.baseline matches Some(attempt) ==> attempt.primary matches Ok(primary)
        ==> prompt_diff::countable(primary.1)
}

/// The attempt that a query names with its turn and its prompt, or why it has
/// none.
pub open spec fn primary_of(attempt: Option<AttemptRecord>, attempt_id: EntityId) -> Result<
    (EntityId, PromptPlan),
    EngineError,
> {
    match attempt {
        None => Err(EngineError::Turn(TurnError::AttemptNotFound(attempt_id))),
        Some(record) => match record.primary {
            Ok(primary) => Ok(primary),
            Err(e) => Err(EngineError::Turn(e)),
        },
    }
}

fn find_primary(attempt: &Option<AttemptRecord>, attempt_id: EntityId) -> (r: Result<
    &(EntityId, PromptPlan),
    EngineError,
>)
    ensures
        match (r, primary_of(*attempt, attempt_id)) {
            (Ok(found), Ok(primary)) => *found == primary,
            (Err(e), Err(expected)) => e == expected,
            _ => false,
        },
{
    match attempt {
        None => Err(EngineError::Turn(TurnError::AttemptNotFound(attempt_id))),
        Some(record) => match &record.primary {
            Ok(primary) => Ok(primary),
            Err(e) => Err(EngineError::Turn(*e)),
        },
    }
}

/// What is told of the turns of a branch.
pub open spec fn is_history(
    r: Result<EngineInspection, EngineError>,
    records: QueryRecords,
    session_id: EntityId,
    branch_id: EntityId,
) -> bool {
    match (records.session, records.branch, records.configuration) {
        (None, _, _) => r == Err::<EngineInspection, EngineError>(
            EngineError::Session(SessionError::SessionNotFound(session_id)),
        ),
        (_, None, _) => r == Err::<EngineInspection, EngineError>(
            EngineError::Session(SessionError::BranchNotFound(branch_id)),
        ),
        (Some(session), Some(branch), configuration) => if branch.session_id != session_id {
            r == Err::<EngineInspection, EngineError>(EngineError::BranchSessionMismatch)
        } else {
            match configuration {
                None => r == Err::<EngineInspection, EngineError>(
                    EngineError::Session(
                        SessionError::ConfigurationNotFound(session.current_config_hash),
                    ),
                ),
                Some(record) => r matches Ok(told) && {
                    &&& told is BranchHistory
                    &&& told->BranchHistory_session == session
                    &&& told->BranchHistory_configuration == record
                    &&& told->BranchHistory_branch == branch
                    &&& is_greeting(told->BranchHistory_greeting, branch, records.greetings@)
                },
            }
        },
    }
}

/// What is told of the turn of an attempt.
pub open spec fn are_details(
    r: Result<EngineInspection, EngineError>,
    records: QueryRecords,
    session_id: EntityId,
    attempt_id: EntityId,
) -> bool {
    match primary_of(records.attempt, attempt_id) {
        Err(e) => r == Err::<EngineInspection, EngineError>(e),
        Ok(primary) => match records.turn {
            None => r == Err::<EngineInspection, EngineError>(
                EngineError::Turn(TurnError::TurnNotFound(primary.0)),
            ),
            Some(turn) => if turn.session_id != session_id {
                r == Err::<EngineInspection, EngineError>(EngineError::AttemptSessionMismatch)
            } else {
                let at = candidate_from(records.candidates@, attempt_id, 0);
                r == Ok::<EngineInspection, EngineError>(
                    EngineInspection::TurnDetails {
                        turn,
                        attempt: records.attempt->0,
                        candidate: if at < records.candidates@.len() {
                            Some(records.candidates@[at])
                        } else {
                            None
                        },
                    },
                )
            },
        },
    }
}

/// What is told of the difference of two prompts.
pub open spec fn is_difference(
    r: Result<EngineInspection, EngineError>,
    baseline_attempt_id: EntityId,
    baseline: Option<AttemptRecord>,
    target_attempt_id: EntityId,
    target: Option<AttemptRecord>,
) -> bool {
    match (baseline, target) {
        (None, _) => r == Err::<EngineInspection, EngineError>(
            EngineError::Turn(TurnError::AttemptNotFound(baseline_attempt_id)),
        ),
        (_, None) => r == Err::<EngineInspection, EngineError>(
            EngineError::Turn(TurnError::AttemptNotFound(target_attempt_id)),
        ),
        (Some(left), Some(right)) => match (left.primary, right.primary) {
            (Err(e), _) => r == Err::<EngineInspection, EngineError>(EngineError::Turn(e)),
            (_, Err(e)) => r == Err::<EngineInspection, EngineError>(EngineError::Turn(e)),
            (Ok(before), Ok(after)) => r matches Ok(EngineInspection::PromptDiff(diff))
                && is_prompt_diff(
                diff,
                baseline_attempt_id,
                before.1,
                target_attempt_id,
                after.1,
            ),
        },
    }
}

fn tell_difference(
    baseline_attempt_id: EntityId,
    baseline: &Option<AttemptRecord>,
    target_attempt_id: EntityId,
    target: &Option<AttemptRecord>,
) -> (r: Result<EngineInspection, EngineError>)
    requires
        baseline matches Some(record) ==> record.primary matches Ok(primary) ==> prompt_diff::countable(
            primary.1,
        ),
        target matches Some(record) ==> record.primary matches Ok(primary) ==> prompt_diff::countable(primary.1),
    ensures
        is_difference(r, baseline_attempt_id, *baseline, target_attempt_id, *target),
{
    let left = match baseline {
        None => {
            return Err(EngineError::Turn(TurnError::AttemptNotFound(baseline_attempt_id)));
        },
        Some(record) => record,
    };
    let right = match target {
        None => return Err(EngineError::Turn(TurnError::AttemptNotFound(target_attempt_id))),
        Some(record) => record,
    };
    let before = match &left.primary {
        Ok(primary) => primary,
        Err(e) => return Err(EngineError::Turn(*e)),
    };
    let after = match &right.primary {
        Ok(primary) => primary,
        Err(e) => return Err(EngineError::Turn(*e)),
    };
    Ok(
        EngineInspection::PromptDiff(
            diff_prompt_plans(baseline_attempt_id, &before.1, target_attempt_id, &after.1),
        ),
    )
}

/// The attempt that made the reply selected in the turn before that of an
/// attempt, or why there is none.
pub open spec fn previous_attempt_of(records: QueryRecords, attempt_id: EntityId) -> Result<
    EntityId,
    EngineError,
> {
    match primary_of(records.attempt, attempt_id) {
        Err(e) => Err(e),
        Ok(primary) => match records.turn {
            None => Err(EngineError::Turn(TurnError::TurnNotFound(primary.0))),
            Some(turn) => match previous_selection(records.turns@, turn.turn_id, attempt_id) {
                Err(e) => Err(EngineError::Turn(e)),
                Ok((previous_turn, candidate_id)) => match records.previous {
                    None => Err(EngineError::Turn(TurnError::CandidateNotFound(candidate_id))),
                    Some(candidate) => match candidate.attempt_id {
                        Some(id) => Ok(id),
                        None => Err(
                            EngineError::Turn(
                                TurnError::PreviousTurnSelectionHasNoGenerationAttempt {
                                    attempt_id,
                                    previous_turn_id: previous_turn,
                                },
                            ),
                        ),
                    },
                },
            },
        },
    }
}

/// The attempt that made the reply selected in the turn before that of an
/// attempt, or why there is none.
pub fn find_previous_attempt(records: &QueryRecords, attempt_id: EntityId) -> (r: Result<
    EntityId,
    EngineError,
>)
    ensures
        r == previous_attempt_of(*records, attempt_id),
{
    let turn_id: EntityId = match find_primary(&records.attempt, attempt_id) {
        Ok(primary) => primary.0,
        Err(e) => return Err(e),
    };
    let turn = match &records.turn {
        None => return Err(EngineError::Turn(TurnError::TurnNotFound(turn_id))),
        Some(turn) => turn,
    };
    let (previous_turn, candidate_id) = match previous_selected_candidate(
        &records.turns,
        turn.turn_id,
        attempt_id,
    ) {
        Ok(found) => found,
        Err(e) => return Err(EngineError::Turn(e)),
    };
    let candidate: Option<&CandidateProjection> = match &records.previous {
        Some(candidate) => Some(candidate),
        None => None,
    };
    match previous_attempt(candidate_id, candidate, attempt_id, previous_turn) {
        Ok(id) => Ok(id),
        Err(e) => Err(EngineError::Turn(e)),
    }
}

/// The grant with which a plugin inspects an artifact.
pub open spec fn is_inspection_grant(
    grant: PluginGrant,
    registration: ArtifactInspectorRegistration,
) -> bool {
    &&& grant.id == registration.id
    &&& grant.version == registration.version
    &&& grant.component_sha256 == registration.component_sha256
    &&& grant.capabilities == registration.capabilities
    &&& grant.settings == Json::Null
    &&& grant.egress_allow_list@.len() == 0
    &&& grant.enabled
}

/// What a plugin is given when it inspects an artifact: what the artifact means,
/// and nothing of a session.
pub open spec fn is_inspection_input(
    input: PluginInput,
    plugin_id: Seq<char>,
    semantic: JsonView,
) -> bool {
    &&& input.event == PluginEvent::InspectArtifact
    &&& input.plugin_id@ == plugin_id
    &&& input.settings@ == JsonView::Null
    &&& input.context@ == JsonView::Null
    &&& input.payload@ == JsonView::Null
    &&& input.state@ == JsonView::Object(Seq::empty())
    &&& input.artifact@ == semantic
    &&& input.session@ == JsonView::Null
}

/// What a plugin is given when it inspects an artifact.
pub fn inspection_input(plugin_id: &str, semantic: Json) -> (input: PluginInput)
    ensures
        is_inspection_input(input, plugin_id@, semantic@),
{
    let state = object(no_pairs());
    proof {
        assert(state@ == JsonView::Object(object_of(named())));
        assert(object_of(named()) =~= Seq::empty());
    }
    PluginInput {
        event: PluginEvent::InspectArtifact,
        plugin_id: plugin_id.to_owned(),
        settings: Json::Null,
        context: Json::Null,
        payload: Json::Null,
        state,
        artifact: semantic,
        session: Json::Null,
    }
}

/// What a plugin said of an artifact.
#[derive(Debug)]
pub struct PluginArtifactOutput {
    pub plugin_id: String,
    pub revision_hash: ContentHash,
    pub value: Json,
}

/// What a plugin that inspected an artifact said of it: the only output of its
/// run.
pub fn finish_inspection(
    plugin_id: String,
    revision_hash: ContentHash,
    effects: &Vec<PluginEffect>,
) -> (r: Result<PluginArtifactOutput, EngineError>)
    ensures
        match (r, sole_output(effects@, true)) {
            (Ok(output), Ok(value)) => output.plugin_id == plugin_id && output.revision_hash
                == revision_hash && output.value@ == value,
            (Err(e), Err(fault)) => e == EngineError::Plugin(fault),
            _ => false,
        },
{
    match take_output(effects, true) {
        Ok(value) => Ok(PluginArtifactOutput { plugin_id, revision_hash, value: value.copy() }),
        Err(fault) => Err(EngineError::Plugin(fault)),
    }
}

/// What is told of a plugin that is to inspect an artifact.
pub open spec fn is_inspector(
    r: Result<EngineInspection, EngineError>,
    records: QueryRecords,
    plugin_id: String,
) -> bool {
    match records.registration {
        None => r == Err::<EngineInspection, EngineError>(
            EngineError::ArtifactInspectorNotRegistered(plugin_id),
        ),
        Some(registration) => if !registration.capabilities@.contains(
            PluginCapability::InspectArtifact,
        ) {
            r == Err::<EngineInspection, EngineError>(
                EngineError::Plugin(
                    PluginError::CapabilityDenied(PluginCapability::InspectArtifact),
                ),
            )
        } else if package_of(
            records.listing@,
            registration.id@,
            registration.version@,
            registration.component_sha256@,
        ) is None {
            r == Err::<EngineInspection, EngineError>(
                EngineError::PluginNotFound {
                    id: registration.id,
                    version: registration.version,
                    digest: registration.component_sha256,
                },
            )
        } else {
            r matches Ok(EngineInspection::RunInspector(grant)) && is_inspection_grant(
                grant,
                registration,
            )
        },
    }
}

fn allow_inspector(registry: &PluginRegistry, records: QueryRecords, plugin_id: String) -> (r: Result<
    EngineInspection,
    EngineError,
>)
    ensures
        is_inspector(r, records, plugin_id),
{
    let registration = match records.registration {
        None => return Err(EngineError::ArtifactInspectorNotRegistered(plugin_id)),
        Some(registration) => registration,
    };
    if !has_capability(&registration.capabilities, PluginCapability::InspectArtifact) {
        return Err(
            EngineError::Plugin(PluginError::CapabilityDenied(PluginCapability::InspectArtifact)),
        );
    }
    match find_package(
        registry,
        &records.listing,
        &registration.id,
        &registration.version,
        &registration.component_sha256,
    ) {
        Ok(_) => {},
        Err(e) => return Err(e),
    }
    Ok(
        EngineInspection::RunInspector(
            PluginGrant {
                id: registration.id,
                version: registration.version,
                component_sha256: registration.component_sha256,
                capabilities: registration.capabilities,
                settings: Json::Null,
                egress_allow_list: Vec::new(),
                enabled: true,
            },
        ),
    )
}

fn tell_history(records: QueryRecords, session_id: EntityId, branch_id: EntityId) -> (r: Result<
    EngineInspection,
    EngineError,
>)
    ensures
        is_history(r, records, session_id, branch_id),
{
    let session = match records.session {
        None => return Err(EngineError::Session(SessionError::SessionNotFound(session_id))),
        Some(session) => session,
    };
    let branch = match records.branch {
        None => return Err(EngineError::Session(SessionError::BranchNotFound(branch_id))),
        Some(branch) => branch,
    };
    match check_branch_session(&branch, session_id) {
        Ok(()) => {},
        Err(e) => return Err(e),
    }
    let configuration = match records.configuration {
        None => {
            return Err(
                EngineError::Session(
                    SessionError::ConfigurationNotFound(session.current_config_hash),
                ),
            );
        },
        Some(record) => record,
    };
    let greeting = greeting_of(&branch, &records.greetings);
    Ok(EngineInspection::BranchHistory { session, configuration, branch, greeting })
}

fn tell_details(records: QueryRecords, session_id: EntityId, attempt_id: EntityId) -> (r: Result<
    EngineInspection,
    EngineError,
>)
    ensures
        are_details(r, records, session_id, attempt_id),
{
    let turn_id: EntityId = match find_primary(&records.attempt, attempt_id) {
        Ok(primary) => primary.0,
        Err(e) => return Err(e),
    };
    let turn = match records.turn {
        None => return Err(EngineError::Turn(TurnError::TurnNotFound(turn_id))),
        Some(turn) => turn,
    };
    match ensure_attempt_session(&turn, session_id) {
        Ok(()) => {},
        Err(e) => return Err(e),
    }
    let mut candidates = records.candidates;
    let at: usize = find_candidate_index(&candidates, attempt_id);
    let candidate: Option<CandidateProjection> = if at < candidates.len() {
        Some(candidates.remove(at))
    } else {
        None
    };
    match records.attempt {
        Some(attempt) => Ok(EngineInspection::TurnDetails { turn, attempt, candidate }),
        None => Err(EngineError::Turn(TurnError::AttemptNotFound(attempt_id))),
    }
}

/// An attempt is one of a session, or why it is not.
pub open spec fn attempt_fault(
    attempt: Option<AttemptRecord>,
    session_id: EntityId,
    attempt_id: EntityId,
) -> Option<EngineError> {
    match attempt {
        None => Some(EngineError::Turn(TurnError::AttemptNotFound(attempt_id))),
        Some(record) => if record.session_id == session_id {
            None
        } else {
            Some(EngineError::AttemptSessionMismatch)
        },
    }
}

/// Why the extensions of a session cannot be shown, if they cannot.
pub open spec fn interactions_fault(
    records: QueryRecords,
    session_id: EntityId,
    branch_id: Option<EntityId>,
) -> Option<EngineError> {
    if branch_id is Some && records.branch is None {
        Some(EngineError::Session(SessionError::BranchNotFound(branch_id->0)))
    } else if branch_id is Some && records.branch->0.session_id != session_id {
        Some(EngineError::BranchSessionMismatch)
    } else {
        configuration_fault(records, session_id)
    }
}

/// Why a session has no configuration, if it has none.
pub open spec fn configuration_fault(records: QueryRecords, session_id: EntityId) -> Option<
    EngineError,
> {
    match (records.session, records.configuration) {
        (None, _) => Some(EngineError::Session(SessionError::SessionNotFound(session_id))),
        (Some(session), None) => Some(
            EngineError::Session(SessionError::ConfigurationNotFound(session.current_config_hash)),
        ),
        _ => None,
    }
}

fn check_interactions(
    records: &QueryRecords,
    session_id: EntityId,
    branch_id: Option<EntityId>,
) -> (r: Result<(), EngineError>)
    ensures
        match r {
            Ok(()) => interactions_fault(*records, session_id, branch_id) is None,
            Err(e) => interactions_fault(*records, session_id, branch_id) == Some(e),
        },
{
    if let Some(id) = branch_id {
        match &records.branch {
            None => return Err(EngineError::Session(SessionError::BranchNotFound(id))),
            Some(branch) => match check_branch_session(branch, session_id) {
                Ok(()) => {},
                Err(e) => return Err(e),
            },
        }
    }
    match find_configuration(&records.session, &records.configuration, session_id) {
        Ok(_) => Ok(()),
        Err(e) => Err(e),
    }
}

/// What a host is told where something may be missing.
pub open spec fn told_or<T>(found: Option<T>, missing: EngineError, told: spec_fn(T) -> EngineInspection) -> Result<
    EngineInspection,
    EngineError,
> {
    match found {
        Some(value) => Ok(told(value)),
        None => Err(missing),
    }
}

/// What a host is told.
pub open spec fn is_told(
    r: Result<EngineInspection, EngineError>,
    query: EngineQuery,
    records: QueryRecords,
) -> bool {
    let delegated = Ok::<EngineInspection, EngineError>(EngineInspection::Delegate(query));
    match query {
        EngineQuery::Session { session_id } => r == told_or(
            records.session,
            EngineError::Session(SessionError::SessionNotFound(session_id)),
            |session: SessionProjection| EngineInspection::Session(session),
        ),
        EngineQuery::SessionDetails { session_id } => r == match records.session {
            Some(_) => delegated,
            None => Err(EngineError::Session(SessionError::SessionNotFound(session_id))),
        },
        EngineQuery::BranchHistory { session_id, branch_id } => is_history(
            r,
            records,
            session_id,
            branch_id,
        ),
        EngineQuery::Configuration { session_id } => r == match configuration_fault(
            records,
            session_id,
        ) {
            Some(e) => Err::<EngineInspection, EngineError>(e),
            None => Ok(EngineInspection::Configuration(records.configuration->0)),
        },
        EngineQuery::ExtensionInteractions { session_id, branch_id } => r
            == match interactions_fault(records, session_id, branch_id) {
            Some(e) => Err(e),
            None => delegated,
        },
        EngineQuery::Artifacts { kind } => r matches Ok(EngineInspection::Artifacts(kept)) && kept@
            == of_kind(records.artifacts@, kind, records.artifacts@.len() as int),
        EngineQuery::Artifact { revision_hash } => r == told_or(
            records.artifact,
            EngineError::Artifact(ArtifactError::NotFound(revision_hash)),
            |artifact: ArtifactRecord| EngineInspection::Artifact(artifact),
        ),
        EngineQuery::Attempt { attempt_id } => r == told_or(
            records.attempt,
            EngineError::Turn(TurnError::AttemptNotFound(attempt_id)),
            |attempt: AttemptRecord| EngineInspection::Attempt(attempt),
        ),
        EngineQuery::TurnDetails { session_id, attempt_id } => are_details(
            r,
            records,
            session_id,
            attempt_id,
        ),
        EngineQuery::PromptPlan { attempt_id } => r == match primary_of(
            records.attempt,
            attempt_id,
        ) {
            Ok(primary) => Ok::<EngineInspection, EngineError>(
                EngineInspection::PromptPlan(primary.1),
            ),
            Err(e) => Err(e),
        },
        EngineQuery::PromptSegments { attempt_id, selector } => match primary_of(
            records.attempt,
            attempt_id,
        ) {
            Err(e) => r == Err::<EngineInspection, EngineError>(e),
            Ok(primary) => match r {
                Ok(EngineInspection::PromptSegments(found)) => is_inspection(
                    Some(found),
                    primary.1,
                    selector@,
                ),
                Ok(_) => false,
                Err(e) => e == (EngineError::PromptSegmentNotFound { attempt_id, selector })
                    && is_inspection(None, primary.1, selector@),
            },
        },
        EngineQuery::PromptDiff { baseline_attempt_id, target_attempt_id } => is_difference(
            r,
            baseline_attempt_id,
            records.baseline,
            target_attempt_id,
            records.attempt,
        ),
        EngineQuery::PreviousPromptDiff { attempt_id } => match previous_attempt_of(
            records,
            attempt_id,
        ) {
            Err(e) => r == Err::<EngineInspection, EngineError>(e),
            Ok(baseline_id) => is_difference(
                r,
                baseline_id,
                records.baseline,
                attempt_id,
                records.attempt,
            ),
        },
        EngineQuery::ExportCapsule { session_id, attempt_id, .. } => r == match attempt_fault(
            records.attempt,
            session_id,
            attempt_id,
        ) {
            Some(e) => Err(e),
            None => delegated,
        },
        EngineQuery::DryRunRerun { session_id, .. } => r == if records.preview_session == Some(
            session_id,
        ) {
            delegated
        } else {
            Err(EngineError::AttemptSessionMismatch)
        },
        EngineQuery::Plugins { plugin_id } => r matches Ok(EngineInspection::Plugins(shown))
            && shown@ == shown_packages(
            records.listing@,
            records.registrations@,
            plugin_id,
            records.listing@.len() as int,
        ),
        EngineQuery::InspectArtifactWithPlugin { plugin_id, .. } => is_inspector(
            r,
            records,
            plugin_id,
        ),
        _ => r == delegated,
    }
}

fn tell_segments(attempt: &Option<AttemptRecord>, attempt_id: EntityId, selector: String) -> (r: Result<
    EngineInspection,
    EngineError,
>)
    ensures
        match primary_of(*attempt, attempt_id) {
            Err(e) => r == Err::<EngineInspection, EngineError>(e),
            Ok(primary) => match r {
                Ok(EngineInspection::PromptSegments(found)) => is_inspection(
                    Some(found),
                    primary.1,
                    selector@,
                ),
                Ok(_) => false,
                Err(e) => e == (EngineError::PromptSegmentNotFound { attempt_id, selector })
                    && is_inspection(None, primary.1, selector@),
            },
        },
{
    match find_primary(attempt, attempt_id) {
        Err(e) => Err(e),
        Ok(primary) => match primary.1.inspect_segments(selector.as_str()) {
            Some(found) => Ok(EngineInspection::PromptSegments(found)),
            None => Err(EngineError::PromptSegmentNotFound { attempt_id, selector }),
        },
    }
}

impl StcliEngine {
    /// Tells what a query asks for, or why it cannot be told.
    pub fn inspect(&self, query: EngineQuery, records: QueryRecords) -> (r: Result<
        EngineInspection,
        EngineError,
    >)
        requires
            are_countable(records),
        ensures
            is_told(r, query, records),
    {
        let registry = PluginRegistry::new(self.plugin_root());
        match query {
            EngineQuery::Session { session_id } => match records.session {
                Some(session) => Ok(EngineInspection::Session(session)),
                None => Err(EngineError::Session(SessionError::SessionNotFound(session_id))),
            },
            EngineQuery::SessionDetails { session_id } => match records.session {
                Some(_) => Ok(
                    EngineInspection::Delegate(EngineQuery::SessionDetails { session_id }),
                ),
                None => Err(EngineError::Session(SessionError::SessionNotFound(session_id))),
            },
            EngineQuery::BranchHistory { session_id, branch_id } => tell_history(
                records,
                session_id,
                branch_id,
            ),
            EngineQuery::Configuration { session_id } => {
                match find_configuration(&records.session, &records.configuration, session_id) {
                    Ok(_) => {},
                    Err(e) => return Err(e),
                }
                match records.configuration {
                    Some(record) => Ok(EngineInspection::Configuration(record)),
                    None => Err(EngineError::SelectedSessionConfigurationMissing),
                }
            },
            EngineQuery::ExtensionInteractions { session_id, branch_id } => {
                match check_interactions(&records, session_id, branch_id) {
                    Ok(()) => Ok(
                        EngineInspection::Delegate(
                            EngineQuery::ExtensionInteractions { session_id, branch_id },
                        ),
                    ),
                    Err(e) => Err(e),
                }
            },
            EngineQuery::Artifacts { kind } => Ok(
                EngineInspection::Artifacts(artifacts_of_kind(records.artifacts, kind)),
            ),
            EngineQuery::Artifact { revision_hash } => match records.artifact {
                Some(artifact) => Ok(EngineInspection::Artifact(artifact)),
                None => Err(EngineError::Artifact(ArtifactError::NotFound(revision_hash))),
            },
            EngineQuery::Attempt { attempt_id } => match records.attempt {
                Some(attempt) => Ok(EngineInspection::Attempt(attempt)),
                None => Err(EngineError::Turn(TurnError::AttemptNotFound(attempt_id))),
            },
            EngineQuery::TurnDetails { session_id, attempt_id } => tell_details(
                records,
                session_id,
                attempt_id,
            ),
            EngineQuery::PromptPlan { attempt_id } => match records.attempt {
                None => Err(EngineError::Turn(TurnError::AttemptNotFound(attempt_id))),
                Some(attempt) => match attempt.primary {
                    Ok(primary) => Ok(EngineInspection::PromptPlan(primary.1)),
                    Err(e) => Err(EngineError::Turn(e)),
                },
            },
            EngineQuery::PromptSegments { attempt_id, selector } => tell_segments(
                &records.attempt,
                attempt_id,
                selector,
            ),
            EngineQuery::PromptDiff { baseline_attempt_id, target_attempt_id } => tell_difference(
                baseline_attempt_id,
                &records.baseline,
                target_attempt_id,
                &records.attempt,
            ),
            EngineQuery::PreviousPromptDiff { attempt_id } => {
                match find_previous_attempt(&records, attempt_id) {
                    Err(e) => Err(e),
                    Ok(baseline_id) => tell_difference(
                        baseline_id,
                        &records.baseline,
                        attempt_id,
                        &records.attempt,
                    ),
                }
            },
            EngineQuery::ExportCapsule { session_id, attempt_id, kind, redact_content } => {
                match &records.attempt {
                    None => Err(EngineError::Turn(TurnError::AttemptNotFound(attempt_id))),
                    Some(attempt) => if attempt.session_id == session_id {
                        Ok(
                            EngineInspection::Delegate(
                                EngineQuery::ExportCapsule {
                                    session_id,
                                    attempt_id,
                                    kind,
                                    redact_content,
                                },
                            ),
                        )
                    } else {
                        Err(EngineError::AttemptSessionMismatch)
                    },
                }
            },
            EngineQuery::DryRunRerun { session_id, attempt_id } => {
                let same = match records.preview_session {
                    Some(other) => other == session_id,
                    None => false,
                };
                if same {
                    Ok(
                        EngineInspection::Delegate(
                            EngineQuery::DryRunRerun { session_id, attempt_id },
                        ),
                    )
                } else {
                    Err(EngineError::AttemptSessionMismatch)
                }
            },
            EngineQuery::Plugins { plugin_id } => Ok(
                EngineInspection::Plugins(
                    show_packages(records.listing, &records.registrations, &plugin_id),
                ),
            ),
            EngineQuery::InspectArtifactWithPlugin { plugin_id, revision_hash: _ } =>
                allow_inspector(&registry, records, plugin_id),
            other => Ok(EngineInspection::Delegate(other)),
        }
    }
}

} // verus!
