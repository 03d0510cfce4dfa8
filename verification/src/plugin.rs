//! Plugin packages: manifests, grants, effects, receipts and their order.
use vstd::prelude::*;
use vstd::utf8::{decode_utf8, valid_utf8};

use crate::artifact_codec::ArtifactCodecDeclaration;
use crate::egress::{
    copy_allowances, EgressAllowance, EgressBroker, EgressInvocation, EgressMode, EgressPolicy,
    EgressReceipt,
};
use crate::identity::{ContentHash, hash_text, sha256, sha256_of};
use crate::inference::{
    InferenceBroker, InferenceMode, InferencePolicy, InferenceReceipt, receipt_is_valid,
    validate_inference_receipt,
};
use crate::json::{as_flag, as_text, field, Json, JsonView};
use crate::lists::{lemma_insert_multiset, lemma_remove_multiset};
use crate::paths::{join, joined};
use crate::provider::ChatRole;
use crate::state::{StateKey, VariableScope};
use crate::text::{self, alphanumeric, is_alphanumeric, views};

verus! {

pub const MANIFEST_SCHEMA: &'static str = "stcli.plugin-manifest/v1";

pub const ENGINE_VERSION: &'static str = "0.1.0";

/// What a plugin may ask to be allowed.
#[derive(Clone, Copy, Debug, Eq, Ord, PartialEq, PartialOrd, Structural)]
pub enum PluginCapability {
    ObserveLifecycle,
    RegisterMacro,
    RegisterCommand,
    ContributePrompt,
    ReadSession,
    WriteOwnState,
    AbortPreRequest,
    InspectArtifact,
    BrokeredEgress,
    InferenceCapability,
    ArtifactCodec,
}

/// The occasions on which a plugin runs.
#[derive(Clone, Copy, Debug, Eq, Ord, PartialEq, PartialOrd, Structural)]
pub enum PluginEvent {
    PreLore,
    PrePrompt,
    PreRequest,
    PostCommit,
    Command,
    ChatCompletionPromptReady,
    InspectArtifact,
    GenerateInterceptor,
    StBridgeLifecycle,
}

/// What runs a plugin's component.
#[derive(Clone, Copy, Debug, Eq, Ord, PartialEq, PartialOrd, Structural)]
pub enum PluginRuntime {
    Wasm,
    Script,
    StBridge,
}

/// The places of a prompt to which a plugin may contribute.
#[derive(Clone, Copy, Debug, Eq, Ord, PartialEq, PartialOrd, Structural)]
pub enum PromptSlot {
    BeforeCharacterDefinitions,
    AfterCharacterDefinitions,
    BeforeExampleMessages,
    AfterExampleMessages,
    NamedLoreOutlet,
    InChat,
    BeforeHistory,
    AfterHistory,
    PostHistoryInstructions,
}

/// Another plugin that a plugin needs, with the versions that will do.
#[derive(Clone, Debug, Eq, PartialEq)]
pub struct PluginDependency {
    pub id: String,
    pub version: String,
}

/// What a plugin package says of itself. Versions and version ranges are kept
/// as they are written; sets are kept as lists.
#[derive(Clone, Debug, Eq, PartialEq)]
pub struct PluginManifest {
    pub schema: String,
    pub id: String,
    pub version: String,
    pub engine: String,
    pub runtime: PluginRuntime,
    pub component: String,
    pub component_sha256: ContentHash,
    pub dependencies: Vec<PluginDependency>,
    pub license: String,
    pub subscriptions: Vec<PluginEvent>,
    pub prompt_slots: Vec<PromptSlot>,
    pub commands: Vec<String>,
    pub macros: Vec<String>,
    pub settings_schema: Option<String>,
    pub requested_capabilities: Vec<PluginCapability>,
    pub before: Vec<String>,
    pub after: Vec<String>,
    pub generate_interceptor: Option<String>,
    pub display_name: Option<String>,
    pub artifact_codec: Option<ArtifactCodecDeclaration>,
}

/// A plugin package in the registry.
#[derive(Clone, Debug, Eq, PartialEq)]
pub struct InstalledPlugin {
    pub manifest: PluginManifest,
    pub directory: String,
    pub inspection_enabled: bool,
}

/// What a session lets a pinned plugin do.
#[derive(Clone, Debug, Eq, PartialEq)]
pub struct PluginGrant {
    pub id: String,
    pub version: String,
    pub component_sha256: ContentHash,
    pub capabilities: Vec<PluginCapability>,
    pub settings: Json,
    pub egress_allow_list: Vec<EgressAllowance>,
    pub enabled: bool,
}

/// A plugin that was registered to inspect artifacts.
#[derive(Clone, Debug, Eq, PartialEq)]
pub struct ArtifactInspectorRegistration {
    pub id: String,
    pub version: String,
    pub component_sha256: ContentHash,
    pub capabilities: Vec<PluginCapability>,
}

/// What a plugin is given when it runs.
#[derive(Clone, Debug, Eq, PartialEq)]
pub struct PluginInput {
    pub event: PluginEvent,
    pub plugin_id: String,
    pub settings: Json,
    pub context: Json,
    pub payload: Json,
    pub state: Json,
    pub artifact: Json,
    pub session: Json,
}

/// Text that a plugin adds to a prompt.
#[derive(Clone, Debug, Eq, PartialEq)]
pub struct PromptContribution {
    pub slot: PromptSlot,
    pub name: String,
    pub role: String,
    pub content: String,
    pub depth: Option<usize>,
    pub order: usize,
    pub outlet: Option<String>,
}

/// A message of a prompt that a plugin rewrote.
#[derive(Clone, Debug, Eq, PartialEq)]
pub struct PromptRewriteMessage {
    pub role: ChatRole,
    pub content: String,
}

/// What a plugin wants to happen.
#[derive(Clone, Debug, Eq, PartialEq)]
pub enum PluginEffect {
    Observe { value: Json },
    Output { value: Json },
    RegisterMacro { name: String, value: String },
    RegisterCommand { name: String, description: String },
    Prompt { contribution: PromptContribution },
    PromptRewrite { messages: Vec<PromptRewriteMessage> },
    StateWrite { key: StateKey, value: Json },
    Abort { code: String, message: String },
}

/// What a plugin hands back.
#[derive(Clone, Debug, Eq, PartialEq)]
pub struct PluginOutput {
    pub effects: Vec<PluginEffect>,
}

/// A line that a script logged.
#[derive(Clone, Debug, Eq, PartialEq)]
pub struct ScriptLog {
    pub level: String,
    pub message: String,
}

/// The record of one run of a plugin.
#[derive(Clone, Debug, Eq, PartialEq)]
pub struct PluginReceipt {
    pub id: String,
    pub manifest: PluginManifest,
    pub version: String,
    pub component_sha256: ContentHash,
    pub grants: Vec<PluginCapability>,
    pub event: PluginEvent,
    pub input: PluginInput,
    pub effects: Vec<PluginEffect>,
    pub fuel_consumed: u64,
    pub script_logs: Vec<ScriptLog>,
    pub egress: Vec<EgressReceipt>,
    pub inference: Vec<InferenceReceipt>,
    pub prng_seed: Option<u64>,
}

/// Bounds on a script.
#[derive(Clone, Copy, Debug, Eq, PartialEq, Structural)]
pub struct ScriptLimits {
    pub memory_bytes: usize,
    pub stack_bytes: usize,
    pub interrupt_ticks: u64,
    pub log_entries: usize,
    pub log_message_bytes: usize,
    pub microtask_jobs: usize,
}

impl Default for ScriptLimits {
    fn default() -> (limits: Self)
        ensures
            limits == (ScriptLimits {
                memory_bytes: 16777216,
                stack_bytes: 262144,
                interrupt_ticks: 200,
                log_entries: 64,
                log_message_bytes: 2048,
                microtask_jobs: 64,
            }),
    {
        ScriptLimits {
            memory_bytes: 16777216,
            stack_bytes: 262144,
            interrupt_ticks: 200,
            log_entries: 64,
            log_message_bytes: 2048,
            microtask_jobs: 64,
        }
    }
}

/// Bounds on a run of a plugin. The time allowed is in milliseconds.
#[derive(Clone, Copy, Debug, Eq, PartialEq, Structural)]
pub struct PluginLimits {
    pub component_bytes: usize,
    pub input_bytes: usize,
    pub output_bytes: usize,
    pub memory_bytes: usize,
    pub fuel: u64,
    pub timeout_ms: u64,
    pub script: ScriptLimits,
}

impl Default for PluginLimits {
    fn default() -> (limits: Self)
        ensures
            limits.component_bytes == 4194304,
            limits.input_bytes == 262144,
            limits.output_bytes == 262144,
            limits.memory_bytes == 16777216,
            limits.fuel == 10000000,
            limits.timeout_ms == 250,
            limits.script.memory_bytes == 16777216,
            limits.script.stack_bytes == 262144,
            limits.script.interrupt_ticks == 200,
            limits.script.log_entries == 64,
            limits.script.log_message_bytes == 2048,
            limits.script.microtask_jobs == 64,
    {
        PluginLimits {
            component_bytes: 4194304,
            input_bytes: 262144,
            output_bytes: 262144,
            memory_bytes: 16777216,
            fuel: 10000000,
            timeout_ms: 250,
            script: ScriptLimits::default(),
        }
    }
}

/// Why a plugin is refused.
#[derive(Clone, Debug, Eq, PartialEq)]
pub enum PluginError {
    UnsupportedManifest(String),
    InvalidId(String),
    EngineVersion,
    InvalidLicense(String),
    UnknownCapability(String),
    UnsafePath(String),
    DigestMismatch,
    ComponentLimit,
    InputLimit,
    OutputLimit,
    ScriptNotUtf8(String),
    ArtifactInspectionOutputCount(usize),
    ArtifactInspectionOutputPhaseDenied,
    GrantPinMismatch,
    GrantExceedsRequest,
    ArtifactInspectionMutationDenied,
    PostCommitMutationDenied,
    Disabled,
    CommandEffectDenied,
    EventNotSubscribed(PluginEvent),
    CapabilityDenied(PluginCapability),
    UndeclaredMacro(String),
    UndeclaredCommand(String),
    ClosedPromptSlot(PromptSlot),
    StateScopeDenied,
    AbortPhaseDenied,
    RecordedReceiptInvalid(String),
    MissingDependency { plugin: String, dependency: String },
    DependencyVersion { plugin: String, dependency: String },
    DependencyCycle,
    InvalidSettingsSchema,
    InvalidManifest(String),
    LifecycleObservationOnly,
    PromptRewriteDenied,
    PromptRewritePhaseDenied,
    Canonicalize,
}

impl PluginCapability {
    /// The written name of a capability.
    pub open spec fn name(self) -> Seq<char> {
        match self {
            PluginCapability::ObserveLifecycle => "observe-lifecycle"@,
            PluginCapability::RegisterMacro => "register-macro"@,
            PluginCapability::RegisterCommand => "register-command"@,
            PluginCapability::ContributePrompt => "contribute-prompt"@,
            PluginCapability::ReadSession => "read-session"@,
            PluginCapability::WriteOwnState => "write-own-state"@,
            PluginCapability::AbortPreRequest => "abort-pre-request"@,
            PluginCapability::InspectArtifact => "inspect-artifact"@,
            PluginCapability::BrokeredEgress => "brokered-egress"@,
            PluginCapability::InferenceCapability => "secondary-inference"@,
            PluginCapability::ArtifactCodec => "artifact-codec"@,
        }
    }

    /// The written name of a capability.
    pub fn as_str(self) -> (r: &'static str)
        ensures
            r@ == self.name(),
    {
        match self {
            PluginCapability::ObserveLifecycle => "observe-lifecycle",
            PluginCapability::RegisterMacro => "register-macro",
            PluginCapability::RegisterCommand => "register-command",
            PluginCapability::ContributePrompt => "contribute-prompt",
            PluginCapability::ReadSession => "read-session",
            PluginCapability::WriteOwnState => "write-own-state",
            PluginCapability::AbortPreRequest => "abort-pre-request",
            PluginCapability::InspectArtifact => "inspect-artifact",
            PluginCapability::BrokeredEgress => "brokered-egress",
            PluginCapability::InferenceCapability => "secondary-inference",
            PluginCapability::ArtifactCodec => "artifact-codec",
        }
    }

    /// Different capabilities have different names.
    pub proof fn lemma_names_differ(a: PluginCapability, b: PluginCapability)
        ensures
            a.name() == b.name() <==> a == b,
    {
        reveal_strlit("observe-lifecycle");
        reveal_strlit("register-macro");
        reveal_strlit("register-command");
        reveal_strlit("contribute-prompt");
        reveal_strlit("read-session");
        reveal_strlit("write-own-state");
        reveal_strlit("abort-pre-request");
        reveal_strlit("inspect-artifact");
        reveal_strlit("brokered-egress");
        reveal_strlit("secondary-inference");
        reveal_strlit("artifact-codec");
        if a != b && a.name() == b.name() {
            assert(a.name().len() == b.name().len());
            assert(a.name()[0] == b.name()[0]);
            assert(a.name()[1] == b.name()[1]);
            assert(a.name()[9] == b.name()[9]);
        }
    }

    /// Reads the written name of a capability.
    pub fn parse(value: &str) -> (r: Result<PluginCapability, PluginError>)
        ensures
            match r {
                Ok(capability) => capability.name() == value@,
                Err(PluginError::UnknownCapability(unknown)) => unknown@ == value@ && forall|
                    c: PluginCapability|
                    #[trigger] c.name() != value@,
                Err(_) => false,
            },
    {
        if text::same(value, "observe-lifecycle") {
            Ok(PluginCapability::ObserveLifecycle)
        } else if text::same(value, "register-macro") {
            Ok(PluginCapability::RegisterMacro)
        } else if text::same(value, "register-command") {
            Ok(PluginCapability::RegisterCommand)
        } else if text::same(value, "contribute-prompt") {
            Ok(PluginCapability::ContributePrompt)
        } else if text::same(value, "read-session") {
            Ok(PluginCapability::ReadSession)
        } else if text::same(value, "write-own-state") {
            Ok(PluginCapability::WriteOwnState)
        } else if text::same(value, "abort-pre-request") {
            Ok(PluginCapability::AbortPreRequest)
        } else if text::same(value, "inspect-artifact") {
            Ok(PluginCapability::InspectArtifact)
        } else if text::same(value, "brokered-egress") {
            Ok(PluginCapability::BrokeredEgress)
        } else if text::same(value, "secondary-inference") {
            Ok(PluginCapability::InferenceCapability)
        } else if text::same(value, "artifact-codec") {
            Ok(PluginCapability::ArtifactCodec)
        } else {
            Err(PluginError::UnknownCapability(value.to_owned()))
        }
    }
}

/// Every capability of `part` is one of `whole`.
pub open spec fn within(part: Seq<PluginCapability>, whole: Seq<PluginCapability>) -> bool {
    forall|i: int| 0 <= i < part.len() ==> whole.contains(#[trigger] part[i])
}

/// Whether a capability is among some.
pub fn has_capability(capabilities: &Vec<PluginCapability>, wanted: PluginCapability) -> (r: bool)
    ensures
        r == capabilities@.contains(wanted),
{
    let mut i: usize = 0;
    while i < capabilities.len()
        invariant
            i <= capabilities@.len(),
            forall|j: int| 0 <= j < i ==> capabilities@[j] != wanted,
        decreases capabilities@.len() - i,
    {
        if capabilities[i] == wanted {
            return true;
        }
        i = i + 1;
    }
    false
}

/// Whether every capability of `part` is one of `whole`.
pub fn is_within(part: &Vec<PluginCapability>, whole: &Vec<PluginCapability>) -> (r: bool)
    ensures
        r == within(part@, whole@),
{
    let mut i: usize = 0;
    while i < part.len()
        invariant
            i <= part@.len(),
            forall|j: int| 0 <= j < i ==> whole@.contains(#[trigger] part@[j]),
        decreases part@.len() - i,
    {
        if !has_capability(whole, part[i]) {
            return false;
        }
        i = i + 1;
    }
    true
}

fn has_event(events: &Vec<PluginEvent>, wanted: PluginEvent) -> (r: bool)
    ensures
        r == events@.contains(wanted),
{
    let mut i: usize = 0;
    while i < events.len()
        invariant
            i <= events@.len(),
            forall|j: int| 0 <= j < i ==> events@[j] != wanted,
        decreases events@.len() - i,
    {
        if events[i] == wanted {
            return true;
        }
        i = i + 1;
    }
    false
}

fn has_slot(slots: &Vec<PromptSlot>, wanted: PromptSlot) -> (r: bool)
    ensures
        r == slots@.contains(wanted),
{
    let mut i: usize = 0;
    while i < slots.len()
        invariant
            i <= slots@.len(),
            forall|j: int| 0 <= j < i ==> slots@[j] != wanted,
        decreases slots@.len() - i,
    {
        if slots[i] == wanted {
            return true;
        }
        i = i + 1;
    }
    false
}

/// Why a grant does not fit an installed plugin.
pub open spec fn grant_fault(installed: InstalledPlugin, grant: PluginGrant) -> Option<PluginError> {
    if !grant.enabled {
        Some(PluginError::Disabled)
    } else if grant.id@ != installed.manifest.id@ || grant.version@ != installed.manifest.version@
        || grant.component_sha256@ != installed.manifest.component_sha256@ {
        Some(PluginError::GrantPinMismatch)
    } else if !within(grant.capabilities@, installed.manifest.requested_capabilities@) {
        Some(PluginError::GrantExceedsRequest)
    } else {
        None
    }
}

/// Checks that a grant is enabled, names the installed package and stays
/// within what the package asks for.
pub fn validate_grant(installed: &InstalledPlugin, grant: &PluginGrant) -> (r: Result<
    (),
    PluginError,
>)
    ensures
        match r {
            Ok(_) => grant_fault(*installed, *grant) is None,
            Err(e) => grant_fault(*installed, *grant) == Some(e),
        },
{
    if !grant.enabled {
        return Err(PluginError::Disabled);
    }
    if !text::same(grant.id.as_str(), installed.manifest.id.as_str()) || !text::same(
        grant.version.as_str(),
        installed.manifest.version.as_str(),
    ) || !grant.component_sha256.same(&installed.manifest.component_sha256) {
        return Err(PluginError::GrantPinMismatch);
    }
    if !is_within(&grant.capabilities, &installed.manifest.requested_capabilities) {
        return Err(PluginError::GrantExceedsRequest);
    }
    Ok(())
}

/// The capability that an effect needs.
pub open spec fn needed_capability(effect: PluginEffect) -> PluginCapability {
    match effect {
        PluginEffect::Output { .. } => PluginCapability::InspectArtifact,
        PluginEffect::Observe { .. } => PluginCapability::ObserveLifecycle,
        PluginEffect::RegisterMacro { .. } => PluginCapability::RegisterMacro,
        PluginEffect::RegisterCommand { .. } => PluginCapability::RegisterCommand,
        PluginEffect::Prompt { .. } => PluginCapability::ContributePrompt,
        PluginEffect::PromptRewrite { .. } => PluginCapability::ContributePrompt,
        PluginEffect::StateWrite { .. } => PluginCapability::WriteOwnState,
        PluginEffect::Abort { .. } => PluginCapability::AbortPreRequest,
    }
}

/// Why an effect is refused on the occasion of an event.
pub open spec fn phase_fault(event: PluginEvent, effect: PluginEffect) -> Option<PluginError> {
    let observes = effect is Observe;
    if event != PluginEvent::InspectArtifact && effect is Output {
        Some(PluginError::ArtifactInspectionOutputPhaseDenied)
    } else if event == PluginEvent::Command && !observes && !(effect is StateWrite) {
        Some(PluginError::CommandEffectDenied)
    } else if event == PluginEvent::PostCommit && !observes {
        Some(PluginError::PostCommitMutationDenied)
    } else if event == PluginEvent::StBridgeLifecycle && !observes {
        Some(PluginError::LifecycleObservationOnly)
    } else {
        None
    }
}

/// Why an effect goes beyond what a manifest declares.
pub open spec fn declaration_fault(
    manifest: PluginManifest,
    event: PluginEvent,
    effect: PluginEffect,
) -> Option<PluginError> {
    match effect {
        PluginEffect::RegisterMacro { name, .. } => if !views(manifest.macros@).contains(name@) {
            Some(PluginError::UndeclaredMacro(name))
        } else {
            None
        },
        PluginEffect::RegisterCommand { name, .. } => if !views(manifest.commands@).contains(
            name@,
        ) {
            Some(PluginError::UndeclaredCommand(name))
        } else {
            None
        },
        PluginEffect::Prompt { contribution } => if !manifest.prompt_slots@.contains(
            contribution.slot,
        ) {
            Some(PluginError::ClosedPromptSlot(contribution.slot))
        } else {
            None
        },
        PluginEffect::PromptRewrite { .. } => if manifest.runtime != PluginRuntime::StBridge {
            Some(PluginError::PromptRewriteDenied)
        } else if event != PluginEvent::GenerateInterceptor && event
            != PluginEvent::ChatCompletionPromptReady {
            Some(PluginError::PromptRewritePhaseDenied)
        } else {
            None
        },
        PluginEffect::StateWrite { key, .. } => if key.scope != VariableScope::Local
            || !text::begins_with(key.name@, manifest.id@ + "."@) {
            Some(PluginError::StateScopeDenied)
        } else {
            None
        },
        PluginEffect::Abort { .. } => if event != PluginEvent::PreRequest {
            Some(PluginError::AbortPhaseDenied)
        } else {
            None
        },
        _ => None,
    }
}

/// Why one effect is refused: by its phase, by the manifest or for want of a
/// capability, in this order.
pub open spec fn effect_fault(
    manifest: PluginManifest,
    capabilities: Seq<PluginCapability>,
    event: PluginEvent,
    effect: PluginEffect,
) -> Option<PluginError> {
    if phase_fault(event, effect) is Some {
        phase_fault(event, effect)
    } else if declaration_fault(manifest, event, effect) is Some {
        declaration_fault(manifest, event, effect)
    } else if !capabilities.contains(needed_capability(effect)) {
        Some(PluginError::CapabilityDenied(needed_capability(effect)))
    } else {
        None
    }
}

/// The fault of the first effect that has one.
pub open spec fn first_effect_fault(
    manifest: PluginManifest,
    capabilities: Seq<PluginCapability>,
    event: PluginEvent,
    effects: Seq<PluginEffect>,
) -> Option<PluginError>
    decreases effects.len(),
{
    if effects.len() == 0 {
        None
    } else if effect_fault(manifest, capabilities, event, effects[0]) is Some {
        effect_fault(manifest, capabilities, event, effects[0])
    } else {
        first_effect_fault(manifest, capabilities, event, effects.drop_first())
    }
}

/// Why some effects are refused.
pub open spec fn effects_fault(
    manifest: PluginManifest,
    capabilities: Seq<PluginCapability>,
    event: PluginEvent,
    effects: Seq<PluginEffect>,
) -> Option<PluginError> {
    if event == PluginEvent::InspectArtifact && exists|i: int|
        0 <= i < effects.len() && !(#[trigger] effects[i] is Output) {
        Some(PluginError::ArtifactInspectionMutationDenied)
    } else {
        first_effect_fault(manifest, capabilities, event, effects)
    }
}

fn validate_effect(
    manifest: &PluginManifest,
    capabilities: &Vec<PluginCapability>,
    event: PluginEvent,
    effect: &PluginEffect,
) -> (r: Result<(), PluginError>)
    ensures
        match r {
            Ok(_) => effect_fault(*manifest, capabilities@, event, *effect) is None,
            Err(e) => effect_fault(*manifest, capabilities@, event, *effect) == Some(e),
        },
{
    let observes = matches!(effect, PluginEffect::Observe { .. });
    if event != PluginEvent::InspectArtifact && matches!(effect, PluginEffect::Output { .. }) {
        return Err(PluginError::ArtifactInspectionOutputPhaseDenied);
    }
    if event == PluginEvent::Command && !observes && !matches!(
        effect,
        PluginEffect::StateWrite { .. }
    ) {
        return Err(PluginError::CommandEffectDenied);
    }
    if event == PluginEvent::PostCommit && !observes {
        return Err(PluginError::PostCommitMutationDenied);
    }
    if event == PluginEvent::StBridgeLifecycle && !observes {
        return Err(PluginError::LifecycleObservationOnly);
    }
    let capability = match effect {
        PluginEffect::Output { .. } => PluginCapability::InspectArtifact,
        PluginEffect::Observe { .. } => PluginCapability::ObserveLifecycle,
        PluginEffect::RegisterMacro { name, .. } => {
            if !text::contains_text(&manifest.macros, name.as_str()) {
                return Err(PluginError::UndeclaredMacro(name.clone()));
            }
            PluginCapability::RegisterMacro
        },
        PluginEffect::RegisterCommand { name, .. } => {
            if !text::contains_text(&manifest.commands, name.as_str()) {
                return Err(PluginError::UndeclaredCommand(name.clone()));
            }
            PluginCapability::RegisterCommand
        },
        PluginEffect::Prompt { contribution } => {
            if !has_slot(&manifest.prompt_slots, contribution.slot) {
                return Err(PluginError::ClosedPromptSlot(contribution.slot));
            }
            PluginCapability::ContributePrompt
        },
        PluginEffect::PromptRewrite { .. } => {
            if manifest.runtime != PluginRuntime::StBridge {
                return Err(PluginError::PromptRewriteDenied);
            }
            if event != PluginEvent::GenerateInterceptor && event
                != PluginEvent::ChatCompletionPromptReady {
                return Err(PluginError::PromptRewritePhaseDenied);
            }
            PluginCapability::ContributePrompt
        },
        PluginEffect::StateWrite { key, .. } => {
            let mut namespace = manifest.id.clone();
            namespace.push_str(".");
            if key.scope != VariableScope::Local || !text::starts_with(
                key.name.as_str(),
                namespace.as_str(),
            ) {
                return Err(PluginError::StateScopeDenied);
            }
            PluginCapability::WriteOwnState
        },
        PluginEffect::Abort { .. } => {
            if event != PluginEvent::PreRequest {
                return Err(PluginError::AbortPhaseDenied);
            }
            PluginCapability::AbortPreRequest
        },
    };
    if !has_capability(capabilities, capability) {
        return Err(PluginError::CapabilityDenied(capability));
    }
    Ok(())
}

/// Checks the effects of a run against the event, the manifest and the
/// capabilities that were granted.
pub fn validate_effects(
    manifest: &PluginManifest,
    capabilities: &Vec<PluginCapability>,
    event: PluginEvent,
    effects: &Vec<PluginEffect>,
) -> (r: Result<(), PluginError>)
    ensures
        match r {
            Ok(_) => effects_fault(*manifest, capabilities@, event, effects@) is None,
            Err(e) => effects_fault(*manifest, capabilities@, event, effects@) == Some(e),
        },
{
    if event == PluginEvent::InspectArtifact {
        let mut k: usize = 0;
        while k < effects.len()
            invariant
                k <= effects@.len(),
                event == PluginEvent::InspectArtifact,
                forall|j: int| 0 <= j < k ==> (#[trigger] effects@[j]) is Output,
            decreases effects@.len() - k,
        {
            if !matches!(&effects[k], PluginEffect::Output { .. }) {
                proof {
                    assert(!(effects@[k as int] is Output));
                }
                return Err(PluginError::ArtifactInspectionMutationDenied);
            }
            k = k + 1;
        }
    }
    proof {
        assert(effects@.skip(0) =~= effects@);
    }
    let mut i: usize = 0;
    while i < effects.len()
        invariant
            i <= effects@.len(),
            effects_fault(*manifest, capabilities@, event, effects@) == first_effect_fault(
                *manifest,
                capabilities@,
                event,
                effects@.skip(i as int),
            ),
        decreases effects@.len() - i,
    {
        proof {
            assert(effects@.skip(i as int)[0] == effects@[i as int]);
            assert(effects@.skip(i as int).drop_first() =~= effects@.skip(i + 1));
        }
        match validate_effect(manifest, capabilities, event, &effects[i]) {
            Ok(_) => {},
            Err(e) => {
                return Err(e);
            },
        }
        i = i + 1;
    }
    Ok(())
}

/// What a plugin is given once its grant has been checked: its own identity,
/// the granted settings and, for a component that keeps no state, none.
pub open spec fn admitted_input(
    installed: InstalledPlugin,
    grant: PluginGrant,
    input: PluginInput,
    prepared: PluginInput,
) -> bool {
    &&& prepared.event == input.event
    &&& prepared.plugin_id@ == installed.manifest.id@
    &&& prepared.settings@ == grant.settings@
    &&& prepared.context@ == input.context@
    &&& prepared.payload@ == input.payload@
    &&& prepared.state@ == if installed.manifest.runtime == PluginRuntime::Wasm {
        Json::Null@
    } else {
        input.state@
    }
    &&& prepared.artifact@ == input.artifact@
    &&& prepared.session@ == input.session@
}

/// Why a plugin may not run for an event.
pub open spec fn admission_fault(
    installed: InstalledPlugin,
    grant: PluginGrant,
    event: PluginEvent,
) -> Option<PluginError> {
    if grant_fault(installed, grant) is Some {
        grant_fault(installed, grant)
    } else if event != PluginEvent::Command && !installed.manifest.subscriptions@.contains(event) {
        Some(PluginError::EventNotSubscribed(event))
    } else {
        None
    }
}

/// Checks that a plugin may run for an event and fills in its input.
pub fn prepare_input(installed: &InstalledPlugin, grant: &PluginGrant, input: PluginInput) -> (r: Result<
    PluginInput,
    PluginError,
>)
    ensures
        match r {
            Ok(prepared) => admission_fault(*installed, *grant, input.event) is None
                && admitted_input(*installed, *grant, input, prepared),
            Err(e) => admission_fault(*installed, *grant, input.event) == Some(e),
        },
{
    match validate_grant(installed, grant) {
        Ok(_) => {},
        Err(e) => {
            return Err(e);
        },
    }
    if input.event != PluginEvent::Command && !has_event(
        &installed.manifest.subscriptions,
        input.event,
    ) {
        return Err(PluginError::EventNotSubscribed(input.event));
    }
    let stateless = installed.manifest.runtime == PluginRuntime::Wasm;
    Ok(
        PluginInput {
            event: input.event,
            plugin_id: installed.manifest.id.clone(),
            settings: grant.settings.copy(),
            context: input.context,
            payload: input.payload,
            state: if stateless {
                Json::Null
            } else {
                input.state
            },
            artifact: input.artifact,
            session: input.session,
        },
    )
}

/// Why a component may not be run: its input or its bytes are too many, or its
/// digest is not the one that was installed and granted.
pub open spec fn component_fault(
    limits: PluginLimits,
    installed: InstalledPlugin,
    grant: PluginGrant,
    input_bytes: int,
    component: Seq<u8>,
) -> Option<PluginError> {
    if input_bytes > limits.input_bytes {
        Some(PluginError::InputLimit)
    } else if component.len() > limits.component_bytes {
        Some(PluginError::ComponentLimit)
    } else if sha256_of(component) != installed.manifest.component_sha256@ || sha256_of(component)
        != grant.component_sha256@ {
        Some(PluginError::DigestMismatch)
    } else {
        None
    }
}

/// Checks the size of an input and the size and digest of a component.
pub fn check_component(
    limits: &PluginLimits,
    installed: &InstalledPlugin,
    grant: &PluginGrant,
    input_bytes: usize,
    component: &Vec<u8>,
) -> (r: Result<ContentHash, PluginError>)
    ensures
        match r {
            Ok(digest) => component_fault(
                *limits,
                *installed,
                *grant,
                input_bytes as int,
                component@,
            ) is None && digest@ == sha256_of(component@),
            Err(e) => component_fault(
                *limits,
                *installed,
                *grant,
                input_bytes as int,
                component@,
            ) == Some(e),
        },
{
    if input_bytes > limits.input_bytes {
        return Err(PluginError::InputLimit);
    }
    if component.len() > limits.component_bytes {
        return Err(PluginError::ComponentLimit);
    }
    let digest = plugin_digest(component);
    if !digest.same(&installed.manifest.component_sha256) || !digest.same(&grant.component_sha256) {
        return Err(PluginError::DigestMismatch);
    }
    Ok(digest)
}

/// The digest of a plugin's component.
pub fn plugin_digest(bytes: &Vec<u8>) -> (digest: ContentHash)
    ensures
        digest@ == sha256_of(bytes@),
{
    ContentHash::new(sha256(bytes))
}

/// What a runtime reports of a run.
pub struct PluginRun {
    pub effects: Vec<PluginEffect>,
    pub fuel_consumed: u64,
    pub script_logs: Vec<ScriptLog>,
    pub egress: Vec<EgressReceipt>,
    pub inference: Vec<InferenceReceipt>,
    pub prng_seed: Option<u64>,
}

/// Why the outcome of a run is refused.
pub open spec fn run_fault(
    limits: PluginLimits,
    installed: InstalledPlugin,
    grant: PluginGrant,
    event: PluginEvent,
    output_bytes: int,
    run: PluginRun,
) -> Option<PluginError> {
    if output_bytes > limits.output_bytes {
        Some(PluginError::OutputLimit)
    } else {
        effects_fault(installed.manifest, grant.capabilities@, event, run.effects@)
    }
}

/// The record of a run tells what was run, for what, with what and to what
/// effect.
pub open spec fn is_receipt(
    receipt: PluginReceipt,
    installed: InstalledPlugin,
    grant: PluginGrant,
    digest: ContentHash,
    input: PluginInput,
    run: PluginRun,
) -> bool {
    &&& receipt.id == installed.manifest.id
    &&& receipt.manifest == installed.manifest
    &&& receipt.version == installed.manifest.version
    &&& receipt.component_sha256 == digest
    &&& receipt.grants@ == grant.capabilities@
    &&& receipt.event == input.event
    &&& receipt.input == input
    &&& receipt.effects == run.effects
    &&& receipt.fuel_consumed == run.fuel_consumed
    &&& receipt.script_logs == run.script_logs
    &&& receipt.egress == run.egress
    &&& receipt.inference == run.inference
    &&& receipt.prng_seed == run.prng_seed
}

/// Checks what a run handed back and makes its receipt.
pub fn conclude(
    limits: &PluginLimits,
    installed: InstalledPlugin,
    grant: &PluginGrant,
    digest: ContentHash,
    input: PluginInput,
    output_bytes: usize,
    run: PluginRun,
) -> (r: Result<PluginReceipt, PluginError>)
    ensures
        match r {
            Ok(receipt) => run_fault(
                *limits,
                installed,
                *grant,
                input.event,
                output_bytes as int,
                run,
            ) is None && is_receipt(receipt, installed, *grant, digest, input, run),
            Err(e) => run_fault(
                *limits,
                installed,
                *grant,
                input.event,
                output_bytes as int,
                run,
            ) == Some(e),
        },
{
    if output_bytes > limits.output_bytes {
        return Err(PluginError::OutputLimit);
    }
    match validate_effects(&installed.manifest, &grant.capabilities, input.event, &run.effects) {
        Ok(_) => {},
        Err(e) => {
            return Err(e);
        },
    }
    let grants = copy_capabilities(&grant.capabilities);
    Ok(
        PluginReceipt {
            id: installed.manifest.id.clone(),
            version: installed.manifest.version.clone(),
            manifest: installed.manifest,
            component_sha256: digest,
            grants,
            event: input.event,
            input,
            effects: run.effects,
            fuel_consumed: run.fuel_consumed,
            script_logs: run.script_logs,
            egress: run.egress,
            inference: run.inference,
            prng_seed: run.prng_seed,
        },
    )
}

/// A copy of some capabilities.
pub fn copy_capabilities(capabilities: &Vec<PluginCapability>) -> (copy: Vec<PluginCapability>)
    ensures
        copy@ == capabilities@,
{
    let mut copy: Vec<PluginCapability> = Vec::new();
    let mut i: usize = 0;
    while i < capabilities.len()
        invariant
            i <= capabilities@.len(),
            copy@ == capabilities@.take(i as int),
        decreases capabilities@.len() - i,
    {
        copy.push(capabilities[i]);
        i = i + 1;
        proof {
            assert(copy@ =~= capabilities@.take(i as int));
        }
    }
    proof {
        assert(capabilities@.take(capabilities@.len() as int) =~= capabilities@);
    }
    copy
}

/// Whether `semver` reads a text as a version.
pub uninterp spec fn version_parses(version: Seq<char>) -> bool;

/// `semver::Version::parse`: whether it accepts a text depends on the text
/// alone.
#[verifier::external_body]
pub(crate) fn is_version(version: &str) -> (r: bool)
    ensures
        r == version_parses(version@),
{
    semver::Version::parse(version).is_ok()
}

/// Whether `semver` finds a version in a range; not where one of the texts is
/// no range or no version.
pub uninterp spec fn range_covers(range: Seq<char>, version: Seq<char>) -> bool;

/// `semver::VersionReq::matches`: the answer depends on the two texts alone.
#[verifier::external_body]
pub(crate) fn version_in_range(range: &str, version: &str) -> (r: bool)
    ensures
        r == range_covers(range@, version@),
{
    match (semver::VersionReq::parse(range), semver::Version::parse(version)) {
        (Ok(range), Ok(version)) => range.matches(&version),
        _ => false,
    }
}

/// Whether `semver` orders one version before another; not where one of the
/// texts is no version.
pub uninterp spec fn version_before(left: Seq<char>, right: Seq<char>) -> bool;

/// `<` of `semver::Version`: the answer depends on the two texts alone, and of
/// two versions at most one comes before the other.
#[verifier::external_body]
pub(crate) fn version_less(left: &str, right: &str) -> (r: bool)
    ensures
        r == version_before(left@, right@),
        r ==> !version_before(right@, left@),
{
    match (semver::Version::parse(left), semver::Version::parse(right)) {
        (Ok(left), Ok(right)) => left < right,
        _ => false,
    }
}

/// Whether `spdx` reads a text as a license expression.
pub uninterp spec fn license_parses(license: Seq<char>) -> bool;

/// `spdx::Expression::parse`: whether it accepts a text depends on the text
/// alone.
#[verifier::external_body]
fn is_license(license: &str) -> (r: bool)
    ensures
        r == license_parses(license@),
{
    spdx::Expression::parse(license).is_ok()
}

/// A character of a part of a plugin's identity.
pub open spec fn id_char(c: char) -> bool {
    'a' as u32 <= c as u32 <= 'z' as u32 || '0' as u32 <= c as u32 <= '9' as u32 || c == '-'
}

/// A plugin's identity: parts of small letters, digits and hyphens, none of
/// them empty, with a dot between any two.
pub open spec fn is_plugin_id(id: Seq<char>) -> bool {
    &&& id.len() > 0
    &&& id[0] != '.'
    &&& id.last() != '.'
    &&& forall|i: int| 0 <= i < id.len() ==> (#[trigger] id[i]) == '.' || id_char(id[i])
    &&& forall|i: int| 0 <= i < id.len() - 1 && #[trigger] id[i] == '.' ==> id[i + 1] != '.'
}

/// Whether a text is a plugin's identity.
pub fn valid_id(id: &str) -> (r: bool)
    ensures
        r == is_plugin_id(id@),
{
    let chars = text::to_chars(id);
    let mut i: usize = 0;
    let mut inside = false;
    while i < chars.len()
        invariant
            i <= chars@.len(),
            chars@ == id@,
            inside == (i > 0 && chars@[i - 1] != '.'),
            i > 0 ==> chars@[0] != '.',
            forall|j: int| 0 <= j < i ==> (#[trigger] chars@[j]) == '.' || id_char(chars@[j]),
            forall|j: int|
                0 <= j < i - 1 && #[trigger] chars@[j] == '.' ==> chars@[j + 1] != '.',
        decreases chars@.len() - i,
    {
        let c = chars[i];
        if c == '.' {
            if !inside {
                proof {
                    if i > 0 {
                        assert(id@[i - 1] == '.' && id@[i as int] == '.');
                    }
                }
                return false;
            }
            inside = false;
        } else {
            let code: u32 = c as u32;
            if !((97 <= code && code <= 122) || (48 <= code && code <= 57) || c == '-') {
                proof {
                    assert(id@[i as int] == c);
                }
                return false;
            }
            inside = true;
        }
        i = i + 1;
    }
    inside
}

/// A character of a script's identifier.
pub open spec fn identifier_char(c: char) -> bool {
    alphanumeric(c) || c == '_' || c == '$'
}

/// The name of a script's function.
pub open spec fn is_identifier(name: Seq<char>) -> bool {
    name.len() > 0 && forall|i: int| 0 <= i < name.len() ==> identifier_char(#[trigger] name[i])
}

fn check_identifier(name: &str) -> (r: bool)
    ensures
        r == is_identifier(name@),
{
    let chars = text::to_chars(name);
    let mut i: usize = 0;
    while i < chars.len()
        invariant
            i <= chars@.len(),
            chars@ == name@,
            forall|j: int| 0 <= j < i ==> identifier_char(#[trigger] chars@[j]),
        decreases chars@.len() - i,
    {
        let c = chars[i];
        if !is_alphanumeric(c) && c != '_' && c != '$' {
            proof {
                assert(!identifier_char(name@[i as int]));
            }
            return false;
        }
        i = i + 1;
    }
    chars.len() > 0
}

/// A path that stays below the directory it is taken from: it is not rooted,
/// does not start at `.` and never steps up. Steps are parted by slashes.
pub open spec fn stays_below(path: Seq<char>) -> bool {
    &&& !text::begins_with(path, "/"@)
    &&& path != "."@
    &&& !text::begins_with(path, "./"@)
    &&& forall|i: int| 0 <= i ==> !#[trigger] steps_up(path, i)
}

/// A step `..` stands at position `i` of a path.
pub open spec fn steps_up(path: Seq<char>, i: int) -> bool {
    &&& i + 2 <= path.len()
    &&& i == 0 || path[i - 1] == '/'
    &&& path[i] == '.'
    &&& path[i + 1] == '.'
    &&& i + 2 == path.len() || path[i + 2] == '/'
}

/// Whether a path stays below the directory it is taken from.
pub fn is_safe_path(path: &str) -> (r: bool)
    ensures
        r == stays_below(path@),
{
    if text::starts_with(path, "/") || text::same(path, ".") || text::starts_with(path, "./") {
        return false;
    }
    let chars = text::to_chars(path);
    let mut i: usize = 0;
    while i < chars.len()
        invariant
            i <= chars@.len(),
            chars@ == path@,
            forall|k: int| 0 <= k < i ==> !#[trigger] steps_up(path@, k),
        decreases chars@.len() - i,
    {
        if chars.len() - i >= 2 && (i == 0 || chars[i - 1] == '/') && chars[i] == '.' && chars[i
            + 1] == '.' && (chars.len() - i == 2 || chars[i + 2] == '/') {
            proof {
                assert(steps_up(path@, i as int));
            }
            return false;
        }
        proof {
            assert(!steps_up(path@, i as int));
        }
        i = i + 1;
    }
    true
}

/// Why a manifest is refused before any of its files is read.
pub open spec fn manifest_fault(manifest: PluginManifest) -> Option<PluginError> {
    if manifest.schema@ != MANIFEST_SCHEMA@ {
        Some(PluginError::UnsupportedManifest(manifest.schema))
    } else if !is_plugin_id(manifest.id@) {
        Some(PluginError::InvalidId(manifest.id))
    } else if !range_covers(manifest.engine@, ENGINE_VERSION@) {
        Some(PluginError::EngineVersion)
    } else if !license_parses(manifest.license@) {
        Some(PluginError::InvalidLicense(manifest.license))
    } else if !stays_below(manifest.component@) {
        Some(PluginError::UnsafePath(manifest.component))
    } else {
        None
    }
}

/// Checks what a manifest says before any of its files is read.
pub fn check_manifest(manifest: &PluginManifest) -> (r: Result<(), PluginError>)
    ensures
        match r {
            Ok(_) => manifest_fault(*manifest) is None,
            Err(e) => manifest_fault(*manifest) == Some(e),
        },
{
    if !text::same(manifest.schema.as_str(), MANIFEST_SCHEMA) {
        return Err(PluginError::UnsupportedManifest(manifest.schema.clone()));
    }
    if !valid_id(manifest.id.as_str()) {
        return Err(PluginError::InvalidId(manifest.id.clone()));
    }
    if !version_in_range(manifest.engine.as_str(), ENGINE_VERSION) {
        return Err(PluginError::EngineVersion);
    }
    if !is_license(manifest.license.as_str()) {
        return Err(PluginError::InvalidLicense(manifest.license.clone()));
    }
    if !is_safe_path(manifest.component.as_str()) {
        return Err(PluginError::UnsafePath(manifest.component.clone()));
    }
    Ok(())
}

/// What reading a settings schema came to.
#[derive(Clone, Copy, Debug, Eq, PartialEq, Structural)]
pub enum SchemaReading {
    Absent,
    Valid,
    Invalid,
}

/// Why the component of a manifest is refused, or the path of its settings
/// schema.
pub open spec fn files_fault(manifest: PluginManifest, component: Seq<u8>) -> Option<PluginError> {
    if sha256_of(component) != manifest.component_sha256@ {
        Some(PluginError::DigestMismatch)
    } else {
        match manifest.settings_schema {
            Some(path) => if !stays_below(path@) {
                Some(PluginError::UnsafePath(path))
            } else {
                None
            },
            None => None,
        }
    }
}

/// Checks the component of a manifest, and the path of its settings schema
/// before the schema is read.
pub fn check_files(manifest: &PluginManifest, component: &Vec<u8>) -> (r: Result<(), PluginError>)
    ensures
        match r {
            Ok(_) => files_fault(*manifest, component@) is None,
            Err(e) => files_fault(*manifest, component@) == Some(e),
        },
{
    if !plugin_digest(component).same(&manifest.component_sha256) {
        return Err(PluginError::DigestMismatch);
    }
    match &manifest.settings_schema {
        Some(path) => if !is_safe_path(path.as_str()) {
            return Err(PluginError::UnsafePath(path.clone()));
        },
        None => {},
    }
    Ok(())
}

/// Why the interceptor of a manifest is refused.
pub open spec fn interceptor_fault(manifest: PluginManifest) -> Option<Seq<char>> {
    let subscribed = manifest.subscriptions@.contains(PluginEvent::GenerateInterceptor);
    match manifest.generate_interceptor {
        Some(name) => if manifest.runtime != PluginRuntime::StBridge {
            Some("generate_interceptor is only valid for st-bridge runtime"@)
        } else if !is_identifier(name@) {
            Some("generate_interceptor must be a valid JavaScript identifier, got: "@ + name@)
        } else if !subscribed {
            Some("generate_interceptor requires generate-interceptor subscription"@)
        } else {
            None
        },
        None => if subscribed {
            Some("generate-interceptor subscription requires generate_interceptor field"@)
        } else {
            None
        },
    }
}

/// Checks that a manifest names an interceptor exactly where it subscribes to
/// the interceptor's event.
pub fn check_interceptor(manifest: &PluginManifest) -> (r: Result<(), PluginError>)
    ensures
        match r {
            Ok(_) => interceptor_fault(*manifest) is None,
            Err(PluginError::InvalidManifest(message)) => interceptor_fault(*manifest) == Some(
                message@,
            ),
            Err(_) => false,
        },
{
    let subscribed = has_event(&manifest.subscriptions, PluginEvent::GenerateInterceptor);
    match &manifest.generate_interceptor {
        Some(name) => {
            if manifest.runtime != PluginRuntime::StBridge {
                return Err(
                    PluginError::InvalidManifest(
                        "generate_interceptor is only valid for st-bridge runtime".to_owned(),
                    ),
                );
            }
            if !check_identifier(name.as_str()) {
                let mut message =
                    "generate_interceptor must be a valid JavaScript identifier, got: ".to_owned();
                message.push_str(name.as_str());
                return Err(PluginError::InvalidManifest(message));
            }
            if !subscribed {
                return Err(
                    PluginError::InvalidManifest(
                        "generate_interceptor requires generate-interceptor subscription".to_owned(),
                    ),
                );
            }
        },
        None => if subscribed {
            return Err(
                PluginError::InvalidManifest(
                    "generate-interceptor subscription requires generate_interceptor field".to_owned(),
                ),
            );
        },
    }
    Ok(())
}

/// Checks a whole manifest against the contents of its files.
pub fn validate_manifest(
    manifest: &PluginManifest,
    component: &Vec<u8>,
    schema: SchemaReading,
) -> (r: Result<(), PluginError>)
    requires
        schema == SchemaReading::Absent <==> manifest.settings_schema is None,
    ensures
        match r {
            Ok(_) => {
                &&& manifest_fault(*manifest) is None
                &&& files_fault(*manifest, component@) is None
                &&& schema != SchemaReading::Invalid
                &&& interceptor_fault(*manifest) is None
            },
            Err(e) => if manifest_fault(*manifest) is Some {
                manifest_fault(*manifest) == Some(e)
            } else if files_fault(*manifest, component@) is Some {
                files_fault(*manifest, component@) == Some(e)
            } else if schema == SchemaReading::Invalid {
                e == PluginError::InvalidSettingsSchema
            } else {
                e is InvalidManifest && interceptor_fault(*manifest) == Some(
                    e->InvalidManifest_0@,
                )
            },
        },
{
    match check_manifest(manifest) {
        Ok(_) => {},
        Err(e) => {
            return Err(e);
        },
    }
    match check_files(manifest, component) {
        Ok(_) => {},
        Err(e) => {
            return Err(e);
        },
    }
    if schema == SchemaReading::Invalid {
        return Err(PluginError::InvalidSettingsSchema);
    }
    check_interceptor(manifest)
}

/// A recorded run holds together: it names its own package and stays within
/// what the package asks for, and each inference it records is valid.
pub open spec fn receipt_is_consistent(receipt: PluginReceipt) -> bool {
    &&& receipt.id@ == receipt.manifest.id@
    &&& receipt.version@ == receipt.manifest.version@
    &&& receipt.component_sha256@ == receipt.manifest.component_sha256@
    &&& within(receipt.grants@, receipt.manifest.requested_capabilities@)
    &&& receipt.input.plugin_id@ == receipt.id@
    &&& receipt.input.event == receipt.event
    &&& forall|i: int|
        0 <= i < receipt.inference@.len() ==> receipt_is_valid(#[trigger] receipt.inference@[i])
}

/// Checks a recorded run.
pub fn validate_recorded_receipt(receipt: &PluginReceipt) -> (r: Result<(), PluginError>)
    ensures
        match r {
            Ok(_) => receipt_is_consistent(*receipt) && effects_fault(
                receipt.manifest,
                receipt.grants@,
                receipt.event,
                receipt.effects@,
            ) is None,
            Err(e) => if !receipt_is_consistent(*receipt) {
                e == PluginError::RecordedReceiptInvalid(receipt.id)
            } else {
                effects_fault(
                    receipt.manifest,
                    receipt.grants@,
                    receipt.event,
                    receipt.effects@,
                ) == Some(e)
            },
        },
{
    if !text::same(receipt.id.as_str(), receipt.manifest.id.as_str()) || !text::same(
        receipt.version.as_str(),
        receipt.manifest.version.as_str(),
    ) || !receipt.component_sha256.same(&receipt.manifest.component_sha256) || !is_within(
        &receipt.grants,
        &receipt.manifest.requested_capabilities,
    ) || !text::same(receipt.input.plugin_id.as_str(), receipt.id.as_str())
        || receipt.input.event != receipt.event {
        return Err(PluginError::RecordedReceiptInvalid(receipt.id.clone()));
    }
    let mut i: usize = 0;
    while i < receipt.inference.len()
        invariant
            i <= receipt.inference@.len(),
            forall|j: int|
                0 <= j < i ==> receipt_is_valid(#[trigger] receipt.inference@[j]),
        decreases receipt.inference@.len() - i,
    {
        if validate_inference_receipt(&receipt.inference[i]).is_err() {
            proof {
                assert(!receipt_is_valid(receipt.inference@[i as int]));
            }
            return Err(PluginError::RecordedReceiptInvalid(receipt.id.clone()));
        }
        i = i + 1;
    }
    validate_effects(&receipt.manifest, &receipt.grants, receipt.event, &receipt.effects)
}

/// The identities of a plugin's dependencies.
pub open spec fn depends_on(manifest: PluginManifest, id: Seq<char>) -> bool {
    exists|i: int|
        0 <= i < manifest.dependencies@.len() && (#[trigger] manifest.dependencies@[i]).id@ == id
}

/// `first` has to run before `second`: `second` depends on it or asks to come
/// after it, or `first` asks to come before `second`.
pub open spec fn precedes(first: PluginManifest, second: PluginManifest) -> bool {
    ||| depends_on(second, first.id@)
    ||| views(first.before@).contains(second.id@)
    ||| views(second.after@).contains(first.id@)
}

/// No two plugins have the same identity.
pub open spec fn distinct_ids(plugins: Seq<InstalledPlugin>) -> bool {
    forall|i: int, j: int|
        0 <= i < j < plugins.len() ==> (#[trigger] plugins[i]).manifest.id@ != (
        #[trigger] plugins[j]).manifest.id@
}

/// The last plugin of an identity, or -1.
pub open spec fn last_with_id(plugins: Seq<InstalledPlugin>, id: Seq<char>) -> int
    decreases plugins.len(),
{
    if plugins.len() == 0 {
        -1
    } else if plugins.last().manifest.id@ == id {
        plugins.len() - 1
    } else {
        last_with_id(plugins.drop_last(), id)
    }
}

/// Why a dependency of a plugin is not met.
pub open spec fn dependency_fault(
    plugins: Seq<InstalledPlugin>,
    plugin: PluginManifest,
    dependency: PluginDependency,
) -> Option<PluginError> {
    let target = last_with_id(plugins, dependency.id@);
    if target < 0 {
        Some(PluginError::MissingDependency { plugin: plugin.id, dependency: dependency.id })
    } else if !range_covers(dependency.version@, plugins[target].manifest.version@) {
        Some(PluginError::DependencyVersion { plugin: plugin.id, dependency: dependency.id })
    } else {
        None
    }
}

/// The first dependency of a plugin, from `from` on, that is not met.
pub open spec fn plugin_fault(
    plugins: Seq<InstalledPlugin>,
    plugin: PluginManifest,
    from: int,
) -> Option<PluginError>
    decreases plugin.dependencies@.len() - from,
{
    if from >= plugin.dependencies@.len() || from < 0 {
        None
    } else if dependency_fault(plugins, plugin, plugin.dependencies@[from]) is Some {
        dependency_fault(plugins, plugin, plugin.dependencies@[from])
    } else {
        plugin_fault(plugins, plugin, from + 1)
    }
}

/// The first dependency of any plugin, from `from` on, that is not met.
pub open spec fn dependencies_fault(plugins: Seq<InstalledPlugin>, from: int) -> Option<PluginError>
    decreases plugins.len() - from,
{
    if from >= plugins.len() || from < 0 {
        None
    } else if plugin_fault(plugins, plugins[from].manifest, 0) is Some {
        plugin_fault(plugins, plugins[from].manifest, 0)
    } else {
        dependencies_fault(plugins, from + 1)
    }
}

/// Plugin `k` may run next: it has not run, and all that has to run before it
/// has.
pub open spec fn ready(plugins: Seq<InstalledPlugin>, placed: Seq<int>, k: int) -> bool {
    &&& 0 <= k < plugins.len()
    &&& !placed.contains(k)
    &&& forall|j: int|
        0 <= j < plugins.len() && #[trigger] precedes(plugins[j].manifest, plugins[k].manifest)
            ==> placed.contains(j)
}

/// Plugin `k` runs next: of those that may, it has the least identity.
pub open spec fn next_to_run(plugins: Seq<InstalledPlugin>, placed: Seq<int>, k: int) -> bool {
    &&& ready(plugins, placed, k)
    &&& forall|j: int| #[trigger]
        ready(plugins, placed, j) ==> !text::lex_less(
            plugins[j].manifest.id@,
            plugins[k].manifest.id@,
        )
}

/// The plugins run in the order of the positions `order`.
pub open spec fn runs_in_order(plugins: Seq<InstalledPlugin>, order: Seq<int>) -> bool {
    forall|i: int|
        0 <= i < order.len() ==> next_to_run(plugins, order.take(i), #[trigger] order[i])
}

fn find_last<'a>(plugins: &'a Vec<InstalledPlugin>, id: &str) -> (found: Option<usize>)
    ensures
        match found {
            Some(at) => at < plugins@.len() && at == last_with_id(plugins@, id@),
            None => last_with_id(plugins@, id@) < 0,
        },
{
    let mut i: usize = plugins.len();
    proof {
        assert(plugins@.take(plugins@.len() as int) =~= plugins@);
    }
    while i > 0
        invariant
            i <= plugins@.len(),
            last_with_id(plugins@, id@) == last_with_id(plugins@.take(i as int), id@),
        decreases i,
    {
        proof {
            assert(plugins@.take(i as int).last() == plugins@[i - 1]);
            assert(plugins@.take(i as int).drop_last() =~= plugins@.take(i - 1));
        }
        if text::same(plugins[i - 1].manifest.id.as_str(), id) {
            return Some(i - 1);
        }
        i = i - 1;
    }
    None
}

fn check_dependencies(plugins: &Vec<InstalledPlugin>) -> (r: Result<(), PluginError>)
    ensures
        match r {
            Ok(_) => dependencies_fault(plugins@, 0) is None,
            Err(e) => dependencies_fault(plugins@, 0) == Some(e),
        },
{
    let mut i: usize = 0;
    while i < plugins.len()
        invariant
            i <= plugins@.len(),
            dependencies_fault(plugins@, 0) == dependencies_fault(plugins@, i as int),
        decreases plugins@.len() - i,
    {
        let manifest = &plugins[i].manifest;
        let mut d: usize = 0;
        while d < manifest.dependencies.len()
            invariant
                i < plugins@.len(),
                *manifest == plugins@[i as int].manifest,
                d <= manifest.dependencies@.len(),
                dependencies_fault(plugins@, 0) == dependencies_fault(plugins@, i as int),
                plugin_fault(plugins@, *manifest, 0) == plugin_fault(
                    plugins@,
                    *manifest,
                    d as int,
                ),
            decreases manifest.dependencies@.len() - d,
        {
            let dependency = &manifest.dependencies[d];
            match find_last(plugins, dependency.id.as_str()) {
                None => {
                    return Err(
                        PluginError::MissingDependency {
                            plugin: manifest.id.clone(),
                            dependency: dependency.id.clone(),
                        },
                    );
                },
                Some(target) => {
                    if !version_in_range(
                        dependency.version.as_str(),
                        plugins[target].manifest.version.as_str(),
                    ) {
                        return Err(
                            PluginError::DependencyVersion {
                                plugin: manifest.id.clone(),
                                dependency: dependency.id.clone(),
                            },
                        );
                    }
                },
            }
            d = d + 1;
        }
        i = i + 1;
    }
    Ok(())
}

fn check_precedes(first: &PluginManifest, second: &PluginManifest) -> (r: bool)
    ensures
        r == precedes(*first, *second),
{
    let mut d: usize = 0;
    while d < second.dependencies.len()
        invariant
            d <= second.dependencies@.len(),
            forall|j: int|
                0 <= j < d ==> (#[trigger] second.dependencies@[j]).id@ != first.id@,
        decreases second.dependencies@.len() - d,
    {
        if text::same(second.dependencies[d].id.as_str(), first.id.as_str()) {
            proof {
                assert(depends_on(*second, first.id@));
            }
            return true;
        }
        d = d + 1;
    }
    text::contains_text(&first.before, second.id.as_str()) || text::contains_text(
        &second.after,
        first.id.as_str(),
    )
}

fn ids_are_distinct(plugins: &Vec<InstalledPlugin>) -> (r: bool)
    ensures
        r == distinct_ids(plugins@),
{
    let mut j: usize = 0;
    while j < plugins.len()
        invariant
            j <= plugins@.len(),
            forall|a: int, b: int|
                0 <= a < b < j ==> (#[trigger] plugins@[a]).manifest.id@ != (
                #[trigger] plugins@[b]).manifest.id@,
        decreases plugins@.len() - j,
    {
        let mut i: usize = 0;
        while i < j
            invariant
                i <= j < plugins@.len(),
                forall|a: int|
                    0 <= a < i ==> (#[trigger] plugins@[a]).manifest.id@
                        != plugins@[j as int].manifest.id@,
            decreases j - i,
        {
            if text::same(
                plugins[i].manifest.id.as_str(),
                plugins[j].manifest.id.as_str(),
            ) {
                return false;
            }
            i = i + 1;
        }
        j = j + 1;
    }
    true
}

/// The positions that are marked.
spec fn marks(placed: Seq<bool>, order: Seq<int>) -> bool {
    forall|k: int| 0 <= k < placed.len() ==> (#[trigger] placed[k] <==> order.contains(k))
}

fn check_ready(plugins: &Vec<InstalledPlugin>, placed: &Vec<bool>, k: usize, Ghost(order): Ghost<
    Seq<int>,
>) -> (r: bool)
    requires
        k < plugins@.len(),
        placed@.len() == plugins@.len(),
        marks(placed@, order),
    ensures
        r == ready(plugins@, order, k as int),
{
    if placed[k] {
        return false;
    }
    let mut j: usize = 0;
    while j < plugins.len()
        invariant
            j <= plugins@.len(),
            k < plugins@.len(),
            placed@.len() == plugins@.len(),
            marks(placed@, order),
            forall|i: int|
                0 <= i < j && #[trigger] precedes(plugins@[i].manifest, plugins@[k as int].manifest)
                    ==> order.contains(i),
        decreases plugins@.len() - j,
    {
        if !placed[j] && check_precedes(&plugins[j].manifest, &plugins[k].manifest) {
            return false;
        }
        j = j + 1;
    }
    true
}

fn pick_next(plugins: &Vec<InstalledPlugin>, placed: &Vec<bool>, Ghost(order): Ghost<
    Seq<int>,
>) -> (r: Option<usize>)
    requires
        placed@.len() == plugins@.len(),
        marks(placed@, order),
    ensures
        match r {
            Some(k) => next_to_run(plugins@, order, k as int),
            None => forall|k: int| !#[trigger] ready(plugins@, order, k),
        },
{
    let mut best: Option<usize> = None;
    let mut k: usize = 0;
    while k < plugins.len()
        invariant
            k <= plugins@.len(),
            placed@.len() == plugins@.len(),
            marks(placed@, order),
            match best {
                Some(b) => ready(plugins@, order, b as int) && forall|j: int|
                    0 <= j < k && #[trigger] ready(plugins@, order, j) ==> !text::lex_less(
                        plugins@[j].manifest.id@,
                        plugins@[b as int].manifest.id@,
                    ),
                None => forall|j: int| 0 <= j < k ==> !#[trigger] ready(plugins@, order, j),
            },
        decreases plugins@.len() - k,
    {
        if check_ready(plugins, placed, k, Ghost(order)) {
            match best {
                None => {
                    proof {
                        text::lemma_lex_irreflexive(plugins@[k as int].manifest.id@);
                    }
                    best = Some(k);
                },
                Some(b) => {
                    if text::less(
                        plugins[k].manifest.id.as_str(),
                        plugins[b].manifest.id.as_str(),
                    ) {
                        proof {
                            let new_id = plugins@[k as int].manifest.id@;
                            let old_id = plugins@[b as int].manifest.id@;
                            text::lemma_lex_irreflexive(new_id);
                            assert forall|j: int|
                                0 <= j < k && #[trigger] ready(plugins@, order, j) implies
                                !text::lex_less(plugins@[j].manifest.id@, new_id) by {
                                if text::lex_less(plugins@[j].manifest.id@, new_id) {
                                    text::lemma_lex_transitive(
                                        plugins@[j].manifest.id@,
                                        new_id,
                                        old_id,
                                    );
                                }
                            }
                        }
                        best = Some(k);
                    }
                },
            }
        }
        k = k + 1;
    }
    best
}

/// The plugins in the order in which they run: each after all that has to run
/// before it, and the least identity first where several may run. There is no
/// order where a dependency is missing or has the wrong version, where two
/// plugins share an identity, or where some wait for each other.
pub fn order_plugins(plugins: &Vec<InstalledPlugin>) -> (r: Result<
    Vec<&InstalledPlugin>,
    PluginError,
>)
    ensures
        match r {
            Ok(ordered) => {
                &&& dependencies_fault(plugins@, 0) is None
                &&& distinct_ids(plugins@)
                &&& exists|order: Seq<int>| #[trigger]
                    runs_in_order(plugins@, order) && order.len() == plugins@.len() && ordered@
                        =~= Seq::new(order.len(), |i: int| &plugins@[order[i]])
            },
            Err(e) => if dependencies_fault(plugins@, 0) is Some {
                dependencies_fault(plugins@, 0) == Some(e)
            } else {
                &&& e == PluginError::DependencyCycle
                &&& !distinct_ids(plugins@) || exists|order: Seq<int>| #[trigger]
                    runs_in_order(plugins@, order) && order.len() < plugins@.len() && forall|
                        k: int,
                    |
                        !#[trigger] ready(plugins@, order, k)
            },
        },
{
    match check_dependencies(plugins) {
        Ok(_) => {},
        Err(e) => {
            return Err(e);
        },
    }
    if !ids_are_distinct(plugins) {
        return Err(PluginError::DependencyCycle);
    }
    let mut placed: Vec<bool> = Vec::new();
    while placed.len() < plugins.len()
        invariant
            placed@.len() <= plugins@.len(),
            forall|k: int| 0 <= k < placed@.len() ==> !placed@[k],
        decreases plugins@.len() - placed@.len(),
    {
        placed.push(false);
    }
    let mut ordered: Vec<&InstalledPlugin> = Vec::new();
    let ghost mut order: Seq<int> = Seq::empty();
    while ordered.len() < plugins.len()
        invariant
            placed@.len() == plugins@.len(),
            ordered@.len() == order.len() <= plugins@.len(),
            marks(placed@, order),
            runs_in_order(plugins@, order),
            forall|i: int| 0 <= i < order.len() ==> 0 <= #[trigger] order[i] < plugins@.len(),
            forall|i: int|
                0 <= i < order.len() ==> *(#[trigger] ordered@[i]) == plugins@[order[i]],
            dependencies_fault(plugins@, 0) is None,
            distinct_ids(plugins@),
        decreases plugins@.len() - order.len(),
    {
        match pick_next(plugins, &placed, Ghost(order)) {
            None => {
                return Err(PluginError::DependencyCycle);
            },
            Some(k) => {
                let ghost before = order;
                ordered.push(&plugins[k]);
                placed.set(k, true);
                proof {
                    order = before.push(k as int);
                    assert(order.take(before.len() as int) =~= before);
                    assert forall|i: int| 0 <= i < order.len() implies next_to_run(
                        plugins@,
                        order.take(i),
                        #[trigger] order[i],
                    ) by {
                        if i < before.len() {
                            assert(order.take(i) =~= before.take(i));
                            assert(order[i] == before[i]);
                        }
                    }
                    assert forall|j: int| 0 <= j < placed@.len() implies (#[trigger] placed@[j]
                        <==> order.contains(j)) by {
                        if before.contains(j) {
                            let x = choose|x: int| 0 <= x < before.len() && before[x] == j;
                            assert(order[x] == j);
                        }
                        if j == k {
                            assert(order[before.len() as int] == j);
                        }
                    }
                }
            },
        }
    }
    proof {
        assert(ordered@ =~= Seq::new(order.len(), |i: int| &plugins@[order[i]]));
    }
    Ok(ordered)
}

/// What has to run before another runs before it.
pub proof fn law_order_respects_precedence(
    plugins: Seq<InstalledPlugin>,
    order: Seq<int>,
    i: int,
    j: int,
)
    requires
        runs_in_order(plugins, order),
        0 <= i < order.len(),
        0 <= j < order.len(),
        precedes(plugins[order[i]].manifest, plugins[order[j]].manifest),
    ensures
        i < j,
{
    assert(ready(plugins, order.take(j), order[j]));
    assert(ready(plugins, order.take(i), order[i]));
    let placed = order.take(j);
    assert(placed.contains(order[i]));
    let x = choose|x: int| 0 <= x < placed.len() && placed[x] == order[i];
    assert(order[x] == order[i]);
    if j <= i {
        assert(order.take(i)[x] == order[i]);
    }
}

/// No plugin runs twice.
pub proof fn law_order_has_no_repeats(
    plugins: Seq<InstalledPlugin>,
    order: Seq<int>,
    i: int,
    j: int,
)
    requires
        runs_in_order(plugins, order),
        0 <= i < j < order.len(),
    ensures
        order[i] != order[j],
{
    assert(ready(plugins, order.take(j), order[j]));
    assert(order.take(j)[i] == order[i]);
}

/// `left` is listed before `right`: by identity, then by version, then by the
/// written form of the digest.
pub open spec fn listed_before(left: PluginManifest, right: PluginManifest) -> bool {
    if left.id@ != right.id@ {
        text::lex_less(left.id@, right.id@)
    } else if version_before(left.version@, right.version@) || version_before(
        right.version@,
        left.version@,
    ) {
        version_before(left.version@, right.version@)
    } else {
        text::lex_less(
            hash_text(left.component_sha256@),
            hash_text(right.component_sha256@),
        )
    }
}

fn check_listed_before(left: &PluginManifest, right: &PluginManifest) -> (r: bool)
    ensures
        r == listed_before(*left, *right),
        r ==> !listed_before(*right, *left),
{
    if !text::same(left.id.as_str(), right.id.as_str()) {
        let r = text::less(left.id.as_str(), right.id.as_str());
        proof {
            if r {
                text::lemma_lex_asymmetric(left.id@, right.id@);
            }
        }
        return r;
    }
    if version_less(left.version.as_str(), right.version.as_str()) {
        return true;
    }
    if version_less(right.version.as_str(), left.version.as_str()) {
        return false;
    }
    let left_digest = left.component_sha256.text();
    let right_digest = right.component_sha256.text();
    let r = text::less(left_digest.as_str(), right_digest.as_str());
    proof {
        if r {
            text::lemma_lex_asymmetric(left_digest@, right_digest@);
        }
    }
    r
}

/// No package stands right behind one that it is listed before.
pub open spec fn is_listing(plugins: Seq<InstalledPlugin>) -> bool {
    forall|i: int, j: int|
        0 <= i < plugins.len() && j == i + 1 && j < plugins.len() ==> !listed_before(
            (#[trigger] plugins[j]).manifest,
            (#[trigger] plugins[i]).manifest,
        )
}

fn insert_listed(listing: &mut Vec<InstalledPlugin>, plugin: InstalledPlugin)
    requires
        is_listing(old(listing)@),
    ensures
        is_listing(final(listing)@),
        final(listing)@.to_multiset() == old(listing)@.to_multiset().insert(plugin),
{
    let mut at: usize = listing.len();
    while at > 0 && check_listed_before(&plugin.manifest, &listing[at - 1].manifest)
        invariant
            at <= listing@.len(),
            listing@ == old(listing)@,
            at < listing@.len() ==> !listed_before(
                listing@[at as int].manifest,
                plugin.manifest,
            ),
        decreases at,
    {
        at = at - 1;
    }
    listing.insert(at, plugin);
    proof {
        let before = old(listing)@;
        lemma_insert_multiset(before, at as int, plugin);
        assert forall|i: int, j: int|
            0 <= i < listing@.len() && j == i + 1 && j < listing@.len() implies !listed_before(
            (#[trigger] listing@[j]).manifest,
            (#[trigger] listing@[i]).manifest,
        ) by {
            if j < at {
                assert(listing@[i] == before[i] && listing@[j] == before[j]);
            } else if i > at {
                assert(listing@[i] == before[i - 1] && listing@[j] == before[j - 1]);
            }
        }
    }
}

/// The packages in the order in which they are listed.
pub fn list_plugins(plugins: Vec<InstalledPlugin>) -> (listing: Vec<InstalledPlugin>)
    ensures
        is_listing(listing@),
        listing@.to_multiset() == plugins@.to_multiset(),
{
    let mut listing: Vec<InstalledPlugin> = Vec::new();
    let mut rest = plugins;
    let ghost all = rest@.to_multiset();
    proof {
        broadcast use vstd::seq_lib::group_to_multiset_ensures;
        assert(listing@.to_multiset().add(rest@.to_multiset()) =~= all);
    }
    while rest.len() > 0
        invariant
            is_listing(listing@),
            listing@.to_multiset().add(rest@.to_multiset()) == all,
        decreases rest@.len(),
    {
        let ghost before_rest = rest@;
        let ghost before_listing = listing@;
        let plugin = rest.remove(0);
        insert_listed(&mut listing, plugin);
        proof {
            lemma_remove_multiset(before_rest, 0);
            assert(listing@.to_multiset().add(rest@.to_multiset()) =~= all);
        }
    }
    proof {
        broadcast use vstd::seq_lib::group_to_multiset_ensures;
        assert(rest@ =~= Seq::empty());
        assert(listing@.to_multiset() =~= all);
    }
    listing
}

/// Where plugin packages are kept.
#[derive(Clone, Debug, Eq, PartialEq)]
pub struct PluginRegistry {
    pub root: String,
}

/// A package of an identity and digest.
pub open spec fn is_package(plugin: InstalledPlugin, id: Seq<char>, digest: Seq<u8>) -> bool {
    plugin.manifest.id@ == id && plugin.manifest.component_sha256@ == digest
}

impl PluginRegistry {
    pub fn new(root: String) -> (registry: Self)
        ensures
            registry.root == root,
    {
        PluginRegistry { root }
    }

    /// The directory of a package: by identity, version and digest.
    pub open spec fn directory_of(self, manifest: PluginManifest) -> Seq<char> {
        joined(
            joined(joined(self.root@, manifest.id@), manifest.version@),
            text::replaced(hash_text(manifest.component_sha256@), ":"@, "-"@),
        )
    }

    /// The directory that a package is installed in.
    pub fn destination(&self, manifest: &PluginManifest) -> (path: String)
        ensures
            path@ == self.directory_of(*manifest),
    {
        let by_id = join(self.root.as_str(), manifest.id.as_str());
        let by_version = join(by_id.as_str(), manifest.version.as_str());
        let digest = manifest.component_sha256.text();
        proof {
            reveal_strlit(":");
        }
        let name = text::replace_all(digest.as_str(), ":", "-");
        join(by_version.as_str(), name.as_str())
    }

    /// The first listed package of an identity and digest.
    pub fn find<'a>(
        &self,
        listing: &'a Vec<InstalledPlugin>,
        id: &str,
        digest: &ContentHash,
    ) -> (found: Option<&'a InstalledPlugin>)
        ensures
            match found {
                Some(plugin) => exists|k: int|
                    0 <= k < listing@.len() && *plugin == #[trigger] listing@[k] && is_package(
                        listing@[k],
                        id@,
                        digest@,
                    ) && forall|j: int|
                        0 <= j < k ==> !is_package(#[trigger] listing@[j], id@, digest@),
                None => forall|j: int|
                    0 <= j < listing@.len() ==> !is_package(#[trigger] listing@[j], id@, digest@),
            },
    {
        let mut i: usize = 0;
        while i < listing.len()
            invariant
                i <= listing@.len(),
                forall|j: int|
                    0 <= j < i ==> !is_package(#[trigger] listing@[j], id@, digest@),
            decreases listing@.len() - i,
        {
            let plugin = &listing[i];
            if text::same(plugin.manifest.id.as_str(), id) && plugin.manifest.component_sha256.same(
                digest,
            ) {
                proof {
                    assert(is_package(listing@[i as int], id@, digest@));
                }
                return Some(plugin);
            }
            i = i + 1;
        }
        None
    }

    /// The first listed package of an identity, version and digest.
    pub fn find_pinned<'a>(
        &self,
        listing: &'a Vec<InstalledPlugin>,
        id: &str,
        version: &str,
        digest: &ContentHash,
    ) -> (found: Option<&'a InstalledPlugin>)
        ensures
            match found {
                Some(plugin) => exists|k: int|
                    0 <= k < listing@.len() && *plugin == #[trigger] listing@[k] && is_pinned(
                        listing@[k],
                        id@,
                        version@,
                        digest@,
                    ) && forall|j: int|
                        0 <= j < k ==> !is_pinned(#[trigger] listing@[j], id@, version@, digest@),
                None => forall|j: int|
                    0 <= j < listing@.len() ==> !is_pinned(
                        #[trigger] listing@[j],
                        id@,
                        version@,
                        digest@,
                    ),
            },
    {
        let mut i: usize = 0;
        while i < listing.len()
            invariant
                i <= listing@.len(),
                forall|j: int|
                    0 <= j < i ==> !is_pinned(#[trigger] listing@[j], id@, version@, digest@),
            decreases listing@.len() - i,
        {
            let plugin = &listing[i];
            if text::same(plugin.manifest.id.as_str(), id) && text::same(
                plugin.manifest.version.as_str(),
                version,
            ) && plugin.manifest.component_sha256.same(digest) {
                proof {
                    assert(is_pinned(listing@[i as int], id@, version@, digest@));
                }
                return Some(plugin);
            }
            i = i + 1;
        }
        None
    }
}

/// A package of an identity, version and digest.
pub open spec fn is_pinned(
    plugin: InstalledPlugin,
    id: Seq<char>,
    version: Seq<char>,
    digest: Seq<u8>,
) -> bool {
    plugin.manifest.id@ == id && plugin.manifest.version@ == version
        && plugin.manifest.component_sha256@ == digest
}

/// Runs plugins within limits, with the brokers they may use.
#[derive(Clone, Debug, Eq, PartialEq)]
pub struct PluginHost {
    pub limits: PluginLimits,
    pub egress: Option<EgressBroker>,
    pub inference: Option<InferenceBroker>,
}

/// The mode and default profile that a plugin's session calls for.
pub struct SessionMode {
    pub dry_run: bool,
    pub default_profile: String,
}

/// The inference that a bridge extension is run with.
#[derive(Clone, Debug)]
pub struct InferenceTerms {
    pub broker: InferenceBroker,
    pub policy: InferencePolicy,
    pub default_profile: String,
}

/// The egress is the one of the grant, and dry where the session is.
pub open spec fn is_egress_invocation(
    r: Option<EgressInvocation>,
    host: PluginHost,
    grant: PluginGrant,
    session: JsonView,
) -> bool {
    match (host.egress, r) {
        (Some(broker), Some(invocation)) => {
            &&& invocation.broker == broker
            &&& invocation.policy.capability_granted == grant.capabilities@.contains(
                PluginCapability::BrokeredEgress,
            )
            &&& invocation.policy.allowances@ == grant.egress_allow_list@
            &&& invocation.mode == if session_is_dry(session) {
                EgressMode::DryRun
            } else {
                EgressMode::Live
            }
        },
        (None, None) => true,
        _ => false,
    }
}

/// The inference is the one of the grant, over the profile of the session, and
/// dry where the session is.
pub open spec fn are_inference_terms(
    r: Option<InferenceTerms>,
    host: PluginHost,
    grant: PluginGrant,
    session: JsonView,
) -> bool {
    match (host.inference, r) {
        (Some(broker), Some(terms)) => {
            &&& terms.broker.stubbed == broker.stubbed
            &&& terms.broker.database == broker.database
            &&& terms.policy.capability_granted == grant.capabilities@.contains(
                PluginCapability::InferenceCapability,
            )
            &&& terms.policy.mode == if session_is_dry(session) {
                InferenceMode::DryRun
            } else {
                InferenceMode::Live
            }
            &&& terms.default_profile@ == session_profile(session)
        },
        (None, None) => true,
        _ => false,
    }
}

/// What is known of a run: each is learned by doing what was asked for last.
pub struct RunReplies {
    /// How long the input is when it is written down.
    pub input_bytes: Option<usize>,
    pub component: Option<Vec<u8>>,
    /// How long the output is that the runtime handed back.
    pub output_bytes: Option<usize>,
    pub run: Option<PluginRun>,
}

/// A component that is to be run: as a script where `script` is its text.
pub struct RunRequest {
    pub input: PluginInput,
    pub script: Option<String>,
    pub egress: Option<EgressInvocation>,
    pub inference: Option<InferenceTerms>,
}

/// What is to be done next for a run.
pub enum RunStep {
    /// The input is to be written down.
    WriteInput(PluginInput),
    /// The component is to be read.
    ReadComponent,
    /// The component is to be run.
    Run(RunRequest),
    /// The output is to be read.
    ReadOutput,
    /// Nothing: that is the outcome.
    Done(Result<PluginReceipt, PluginError>),
}

/// What a component is run with: a script with its text, and a bridge extension
/// with the brokers.
pub open spec fn is_run_request(
    asked: RunRequest,
    host: PluginHost,
    installed: InstalledPlugin,
    grant: PluginGrant,
    input: PluginInput,
    component: Seq<u8>,
) -> bool {
    let runtime = installed.manifest.runtime;
    &&& admitted_input(installed, grant, input, asked.input)
    &&& match asked.script {
        None => runtime == PluginRuntime::Wasm,
        Some(script) => runtime != PluginRuntime::Wasm && script@ == decode_utf8(component),
    }
    &&& if runtime == PluginRuntime::StBridge {
        &&& is_egress_invocation(asked.egress, host, grant, input.session@)
        &&& are_inference_terms(asked.inference, host, grant, input.session@)
    } else {
        asked.egress is None && asked.inference is None
    }
}

/// What is to be done for a run whose component was read and may be run.
pub open spec fn is_step_with_component(
    step: RunStep,
    host: PluginHost,
    installed: InstalledPlugin,
    grant: PluginGrant,
    input: PluginInput,
    component: Seq<u8>,
    output_bytes: Option<usize>,
    run: Option<PluginRun>,
) -> bool {
    if installed.manifest.runtime != PluginRuntime::Wasm && !valid_utf8(component) {
        step == RunStep::Done(Err(PluginError::ScriptNotUtf8(installed.manifest.id)))
    } else {
        match (output_bytes, run) {
            (None, _) => step matches RunStep::Run(asked) && is_run_request(
                asked,
                host,
                installed,
                grant,
                input,
                component,
            ),
            (Some(bytes), None) => if bytes > host.limits.output_bytes {
                step == RunStep::Done(Err(PluginError::OutputLimit))
            } else {
                step == RunStep::ReadOutput
            },
            (Some(bytes), Some(run)) => match run_fault(
                host.limits,
                installed,
                grant,
                input.event,
                bytes as int,
                run,
            ) {
                Some(e) => step == RunStep::Done(Err(e)),
                None => step matches RunStep::Done(Ok(receipt)) && exists|
                    prepared: PluginInput,
                    digest: ContentHash,
                |
                    {
                        &&& #[trigger] is_receipt(receipt, installed, grant, digest, prepared, run)
                        &&& admitted_input(installed, grant, input, prepared)
                        &&& digest@ == sha256_of(component)
                    },
            },
        }
    }
}

/// What is to be done for a run, given what is known of it.
pub open spec fn is_run_step(
    step: RunStep,
    host: PluginHost,
    installed: InstalledPlugin,
    grant: PluginGrant,
    input: PluginInput,
    replies: RunReplies,
) -> bool {
    match (admission_fault(installed, grant, input.event), replies.input_bytes, replies.component) {
        (Some(e), _, _) => step == RunStep::Done(Err(e)),
        (None, None, _) => step matches RunStep::WriteInput(prepared) && admitted_input(
            installed,
            grant,
            input,
            prepared,
        ),
        (None, Some(bytes), None) => if bytes > host.limits.input_bytes {
            step == RunStep::Done(Err(PluginError::InputLimit))
        } else {
            step == RunStep::ReadComponent
        },
        (None, Some(bytes), Some(component)) => match component_fault(
            host.limits,
            installed,
            grant,
            bytes as int,
            component@,
        ) {
            Some(e) => step == RunStep::Done(Err(e)),
            None => is_step_with_component(
                step,
                host,
                installed,
                grant,
                input,
                component@,
                replies.output_bytes,
                replies.run,
            ),
        },
    }
}

impl PluginHost {
    pub fn new(limits: PluginLimits) -> (host: Self)
        ensures
            host.limits == limits,
            host.egress is None,
            host.inference is None,
    {
        PluginHost { limits, egress: None, inference: None }
    }

    pub fn with_egress(limits: PluginLimits, broker: EgressBroker) -> (host: Self)
        ensures
            host.limits == limits,
            host.egress == Some(broker),
            host.inference is None,
    {
        PluginHost { limits, egress: Some(broker), inference: None }
    }

    pub fn with_inference(self, broker: InferenceBroker) -> (host: Self)
        ensures
            host.limits == self.limits,
            host.egress == self.egress,
            host.inference == Some(broker),
    {
        PluginHost { limits: self.limits, egress: self.egress, inference: Some(broker) }
    }

    /// The egress that a bridge extension is run with: by the grant, and dry
    /// where its session is.
    pub fn egress_invocation(&self, grant: &PluginGrant, session: &Json) -> (r: Option<
        EgressInvocation,
    >)
        ensures
            is_egress_invocation(r, *self, *grant, session@),
    {
        match &self.egress {
            None => None,
            Some(broker) => {
                let mode = session_mode(session);
                Some(
                    EgressInvocation {
                        broker: *broker,
                        policy: EgressPolicy {
                            capability_granted: has_capability(
                                &grant.capabilities,
                                PluginCapability::BrokeredEgress,
                            ),
                            allowances: copy_allowances(&grant.egress_allow_list),
                        },
                        mode: if mode.dry_run {
                            EgressMode::DryRun
                        } else {
                            EgressMode::Live
                        },
                    },
                )
            },
        }
    }

    /// The inference that a bridge extension is run with: by the grant, and dry
    /// where its session is.
    pub fn inference_terms(&self, grant: &PluginGrant, session: &Json) -> (r: Option<
        InferenceTerms,
    >)
        ensures
            are_inference_terms(r, *self, *grant, session@),
    {
        match &self.inference {
            None => None,
            Some(broker) => {
                let mode = session_mode(session);
                let database = match &broker.database {
                    Some(database) => Some(database.clone()),
                    None => None,
                };
                Some(
                    InferenceTerms {
                        broker: InferenceBroker { stubbed: broker.stubbed, database },
                        policy: InferencePolicy {
                            capability_granted: has_capability(
                                &grant.capabilities,
                                PluginCapability::InferenceCapability,
                            ),
                            mode: if mode.dry_run {
                                InferenceMode::DryRun
                            } else {
                                InferenceMode::Live
                            },
                        },
                        default_profile: mode.default_profile,
                    },
                )
            },
        }
    }

    /// Runs a plugin, as far as is known of the run: its grant and its input are
    /// checked before its component is read, the component before it is run, and
    /// what it hands back before the record is made.
    pub fn execute(
        &self,
        installed: InstalledPlugin,
        grant: &PluginGrant,
        input: PluginInput,
        replies: RunReplies,
    ) -> (step: RunStep)
        ensures
            is_run_step(step, *self, installed, *grant, input, replies),
    {
        let prepared = match prepare_input(&installed, grant, input) {
            Ok(prepared) => prepared,
            Err(e) => return RunStep::Done(Err(e)),
        };
        let input_bytes: usize = match replies.input_bytes {
            Some(bytes) => bytes,
            None => return RunStep::WriteInput(prepared),
        };
        let component = match replies.component {
            Some(component) => component,
            None => {
                if input_bytes > self.limits.input_bytes {
                    return RunStep::Done(Err(PluginError::InputLimit));
                }
                return RunStep::ReadComponent;
            },
        };
        let digest = match check_component(
            &self.limits,
            &installed,
            grant,
            input_bytes,
            &component,
        ) {
            Ok(digest) => digest,
            Err(e) => return RunStep::Done(Err(e)),
        };
        let runtime = installed.manifest.runtime;
        let script = if runtime == PluginRuntime::Wasm {
            None
        } else {
            match text::text_from_utf8(component) {
                Some(script) => Some(script),
                None => {
                    return RunStep::Done(
                        Err(PluginError::ScriptNotUtf8(installed.manifest.id.clone())),
                    );
                },
            }
        };
        let output_bytes: usize = match replies.output_bytes {
            Some(output_bytes) => output_bytes,
            None => {
                let bridged = runtime == PluginRuntime::StBridge;
                let egress = if bridged {
                    self.egress_invocation(grant, &prepared.session)
                } else {
                    None
                };
                let inference = if bridged {
                    self.inference_terms(grant, &prepared.session)
                } else {
                    None
                };
                return RunStep::Run(RunRequest { input: prepared, script, egress, inference });
            },
        };
        let run = match replies.run {
            Some(run) => run,
            None => {
                if output_bytes > self.limits.output_bytes {
                    return RunStep::Done(Err(PluginError::OutputLimit));
                }
                return RunStep::ReadOutput;
            },
        };
        let ghost handed_back = run;
        let r = conclude(&self.limits, installed, grant, digest, prepared, output_bytes, run);
        proof {
            if r is Ok {
                assert(is_receipt(
                    r->Ok_0,
                    installed,
                    *grant,
                    digest,
                    prepared,
                    handed_back,
                ));
            }
        }
        RunStep::Done(r)
    }
}

/// What is recorded of a run is accepted when the record is checked, as long as
/// the inferences in it are.
pub proof fn law_recorded_runs_are_accepted(
    receipt: PluginReceipt,
    host: PluginHost,
    installed: InstalledPlugin,
    grant: PluginGrant,
    input: PluginInput,
    replies: RunReplies,
)
    requires
        is_run_step(RunStep::Done(Ok(receipt)), host, installed, grant, input, replies),
        forall|i: int|
            0 <= i < receipt.inference@.len() ==> receipt_is_valid(
                #[trigger] receipt.inference@[i],
            ),
    ensures
        receipt_is_consistent(receipt),
        effects_fault(
            receipt.manifest,
            receipt.grants@,
            receipt.event,
            receipt.effects@,
        ) is None,
{
}

/// A component is run only as it was installed and granted, for a grant that is
/// enabled and asks for no more than the package does.
pub proof fn law_only_granted_components_run(
    asked: RunRequest,
    host: PluginHost,
    installed: InstalledPlugin,
    grant: PluginGrant,
    input: PluginInput,
    replies: RunReplies,
)
    requires
        is_run_step(RunStep::Run(asked), host, installed, grant, input, replies),
    ensures
        grant.enabled,
        within(grant.capabilities@, installed.manifest.requested_capabilities@),
        replies.component is Some,
        sha256_of((replies.component->0)@) == installed.manifest.component_sha256@,
        sha256_of((replies.component->0)@) == grant.component_sha256@,
{
}

/// A session marks itself as a dry run.
pub open spec fn session_is_dry(session: JsonView) -> bool {
    as_flag(field(session, "dry_run"@)) == Some(true)
}

/// The provider profile that a session names, or nothing.
pub open spec fn session_profile(session: JsonView) -> Seq<char> {
    match as_text(field(session, "provider_profile"@)) {
        Some(name) => name,
        None => Seq::empty(),
    }
}

/// Reads the mode and default profile of a plugin's session.
pub fn session_mode(session: &Json) -> (mode: SessionMode)
    ensures
        mode.dry_run == session_is_dry(session@),
        mode.default_profile@ == session_profile(session@),
{
    let dry_run = match session.get("dry_run") {
        Some(value) => match value.flag() {
            Some(flag) => flag,
            None => false,
        },
        None => false,
    };
    let default_profile = match session.get("provider_profile") {
        Some(value) => match value.text() {
            Some(name) => name.clone(),
            None => String::new(),
        },
        None => String::new(),
    };
    SessionMode { dry_run, default_profile }
}

} // verus!
